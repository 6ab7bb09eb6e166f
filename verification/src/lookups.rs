//! The lookup challenge: a single field element drawn once per proving
//! session from a Fiat-Shamir transcript, and the session-wide registry that
//! hands the same value to the interaction and constraint phases.

use crate::field::{mul_f, sub_f, Fp, P};
use vstd::prelude::*;

verus! {

/// A deterministic transcript stub standing in for the Fiat-Shamir channel:
/// drawing advances the state by a fixed affine map and returns it.
pub struct Channel {
    state: Fp,
}

/// How one draw advances the transcript state.
pub open spec fn channel_next(s: int) -> int {
    (mul_f(s, 31) + 7) % (P as int)
}

impl Channel {
    /// The current transcript state.
    pub closed spec fn state_spec(self) -> int {
        self.state.val()
    }

    pub closed spec fn wf(self) -> bool {
        self.state.wf()
    }

    /// Starts a transcript from a seed.
    pub fn new(seed: u32) -> (r: Channel)
        requires
            seed < P,
        ensures
            r.wf(),
            r.state_spec() == seed as int,
    {
        Channel { state: Fp::new(seed) }
    }

    /// Draws one field challenge, advancing the transcript.
    pub fn draw(&mut self) -> (r: Fp)
        requires
            old(self).wf(),
        ensures
            final(self).wf(),
            final(self).state_spec() == channel_next(old(self).state_spec()),
            r.wf(),
            r.val() == channel_next(old(self).state_spec()),
    {
        let next = self.state.mul(Fp::new(31)).add(Fp::new(7));
        self.state = next;
        next
    }
}

/// The challenge tuple of the range-check relation (arity one).
#[derive(Clone, Copy)]
pub struct Range256LookupElements {
    z: Fp,
}

impl Range256LookupElements {
    /// The challenge value.
    pub closed spec fn challenge(self) -> int {
        self.z.val()
    }

    pub closed spec fn wf(self) -> bool {
        self.z.wf()
    }

    /// Samples the tuple from the transcript.
    pub fn draw(channel: &mut Channel) -> (r: Range256LookupElements)
        requires
            old(channel).wf(),
        ensures
            final(channel).wf(),
            final(channel).state_spec() == channel_next(old(channel).state_spec()),
            r.wf(),
            r.challenge() == channel_next(old(channel).state_spec()),
    {
        Range256LookupElements { z: channel.draw() }
    }

    /// Builds the tuple from a known challenge value.
    pub fn from_challenge(z: Fp) -> (r: Range256LookupElements)
        requires
            z.wf(),
        ensures
            r.wf(),
            r.challenge() == z.val(),
    {
        Range256LookupElements { z }
    }

    /// The challenge as a field element.
    pub fn challenge_fp(&self) -> (r: Fp)
        requires
            self.wf(),
        ensures
            r.wf(),
            r.val() == self.challenge(),
    {
        self.z
    }

    /// The denominator the relation assigns to a checked value:
    /// `challenge - value`.
    pub fn combine(&self, value: Fp) -> (r: Fp)
        requires
            self.wf(),
            value.wf(),
        ensures
            r.wf(),
            r.val() == sub_f(self.challenge(), value.val()),
    {
        self.z.sub(value)
    }
}

/// The session-wide registry of per-chip challenge tuples. Phases that need
/// the challenge require it to have been drawn first: retrieving it before
/// that is a programming-contract violation, not a data error.
pub struct AllLookupElements {
    range256: Option<Range256LookupElements>,
}

impl AllLookupElements {
    /// Whether the range-check tuple has been drawn and registered.
    pub closed spec fn has_range256(self) -> bool {
        self.range256 is Some
    }

    /// The registered tuple.
    pub closed spec fn range256_spec(self) -> Range256LookupElements {
        self.range256->0
    }

    pub closed spec fn wf(self) -> bool {
        self.range256 is Some ==> self.range256->0.wf()
    }

    /// An empty registry, before any chip has drawn.
    pub fn new() -> (r: AllLookupElements)
        ensures
            r.wf(),
            !r.has_range256(),
    {
        AllLookupElements { range256: None }
    }

    /// Registers the drawn tuple; a second registration is a contract
    /// violation, so it is ruled out.
    pub fn insert(&mut self, e: Range256LookupElements)
        requires
            old(self).wf(),
            e.wf(),
            !old(self).has_range256(),
        ensures
            final(self).wf(),
            final(self).has_range256(),
            final(self).range256_spec() == e,
    {
        self.range256 = Some(e);
    }

    /// Retrieves the registered tuple.
    pub fn as_range256(&self) -> (r: Range256LookupElements)
        requires
            self.wf(),
            self.has_range256(),
        ensures
            r == self.range256_spec(),
            r.wf(),
    {
        self.range256.unwrap()
    }
}

} // verus!
