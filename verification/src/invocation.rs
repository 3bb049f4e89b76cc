//! What the host runtime tells the ledger about the invocation at hand.

use vstd::prelude::*;
use crate::error::Error;
use crate::identity::Identity;

verus! {

/// One invocation: the sequence position at which it runs, and the
/// principals whose authorization it carries.
#[derive(Debug)]
pub struct Invocation {
    pub sequence: u32,
    pub authorized: Vec<Identity>,
}

impl Invocation {
    /// Whether the invocation carries the authorization of `who`.
    pub open spec fn authorizes(&self, who: Identity) -> bool {
        self.authorized@.contains(who)
    }

    /// An invocation at `sequence` that nobody has authorized.
    pub fn new(sequence: u32) -> (ctx: Invocation)
        ensures
            ctx.sequence == sequence,
            forall|who: Identity| !ctx.authorizes(who),
    {
        Invocation { sequence, authorized: Vec::new() }
    }

    /// Records that `who` has authorized the invocation.
    pub fn authorize(&mut self, who: Identity)
        ensures
            final(self).sequence == old(self).sequence,
            forall|other: Identity|
                final(self).authorizes(other) <==> (other == who || old(self).authorizes(other)),
    {
        self.authorized.push(who);
        assert forall|other: Identity|
            self.authorizes(other) <==> (other == who || old(self).authorizes(other)) by {
            let before = old(self).authorized@;
            let after = self.authorized@;
            assert(after == before.push(who));
            if other == who {
                assert(after[before.len() as int] == who);
            }
            if old(self).authorizes(other) {
                let i = choose|i: int| 0 <= i < before.len() && before[i] == other;
                assert(after[i] == other);
            }
            if self.authorizes(other) && other != who {
                let i = choose|i: int| 0 <= i < after.len() && after[i] == other;
                assert(before[i] == other);
            }
        }
    }

    /// Succeeds exactly when `who` has authorized the invocation.
    pub fn require_auth(&self, who: Identity) -> (proof_of_auth: Result<(), Error>)
        ensures
            proof_of_auth == (if self.authorizes(who) {
                Ok::<(), Error>(())
            } else {
                Err(Error::Unauthorized)
            }),
    {
        let mut i: usize = 0;
        while i < self.authorized.len()
            invariant
                i <= self.authorized@.len(),
                forall|j: int| 0 <= j < i ==> self.authorized@[j] != who,
            decreases self.authorized@.len() - i,
        {
            if self.authorized[i] == who {
                return Ok(());
            }
            i += 1;
        }
        Err(Error::Unauthorized)
    }
}

} // verus!
