//! Capability tiers and the runtime probe.
//!
//! Kernels come in two flavours: wide code that moves eight bytes per
//! step through one 64-bit register, worthwhile where 64-bit registers
//! are the hardware's native word, and plain byte loops that run
//! anywhere.
//! A [`Caps`] value is the witness that its tier may be executed on the
//! running hardware; the only ways to obtain one are the probe
//! ([`Caps::detect`]) and the always-valid scalar fallback
//! ([`Caps::scalar_only`]), which doubles as the forced-scalar override for
//! parity testing. Every kernel produces the same bytes at every tier —
//! their contracts do not mention the tier at all.

use vstd::prelude::*;

verus! {

/// An instruction-set capability level, from most to least capable. The
/// scalar level is always available and every kernel has a scalar body, so
/// dispatch cannot fail.
#[derive(Clone, Copy, Debug, PartialEq, Eq, Structural)]
pub enum Tier {
    /// Wide kernels: eight bytes per step through one 64-bit register,
    /// selected when the probe finds an x86-64.
    Wide,
    /// Plain byte loops; always available, the reference implementation.
    Scalar,
}

/// A witness that the running hardware supports `tier()`. Construct it with
/// [`Caps::detect`] (a runtime probe) or [`Caps::scalar_only`] (no probe
/// needed); there is no way to conjure an unsupported tier.
#[derive(Clone, Copy, Debug)]
pub struct Caps {
    tier: Tier,
}

impl Caps {
    /// The tier this capability authorizes.
    pub closed spec fn tier(self) -> Tier {
        self.tier
    }

    /// The tier this capability authorizes.
    pub fn tier_of(&self) -> (t: Tier)
        ensures
            t == self.tier(),
    {
        self.tier
    }

    /// Probe the hardware once and return the most capable supported tier.
    /// The probe is read-only and idempotent; which tier comes back depends
    /// only on the machine, and every kernel produces identical bytes
    /// whichever it is.
    pub fn detect() -> Caps {
        if probe_x64_baseline() {
            Caps { tier: Tier::Wide }
        } else {
            Caps { tier: Tier::Scalar }
        }
    }

    /// The always-available scalar capability. This is also the test-only
    /// override: parity tests run every operation once with [`Caps::detect`]
    /// and once with this, and compare the bytes.
    pub fn scalar_only() -> (r: Caps)
        ensures
            r.tier() == Tier::Scalar,
    {
        Caps { tier: Tier::Scalar }
    }
}

/// Relies on archmage's `X64V1Token::summon`: returns `Some` exactly when
/// the running CPU offers the x86-64 baseline feature set (SSE2), `None`
/// elsewhere. The probe reads CPU identification only and mutates nothing.
#[verifier::external_body]
fn probe_x64_baseline() -> bool {
    match <archmage::X64V1Token as archmage::SimdToken>::summon() {
        Some(_) => true,
        None => false,
    }
}

} // verus!
