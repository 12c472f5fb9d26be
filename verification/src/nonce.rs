//! Nonce allocation for the hot wallet: handed out locally, re-synced to the
//! chain's confirmed nonce, and never rewound.

use vstd::prelude::*;

verus! {

/// Hands out transaction nonces in order.
pub struct NonceManager {
    next: u64,
}

impl View for NonceManager {
    type V = u64;

    /// The nonce that will be handed out next.
    closed spec fn view(&self) -> u64 {
        self.next
    }
}

/// The nonce after `n`; the counter wraps at the top of the `u64` range.
pub open spec fn next_nonce(n: u64) -> u64 {
    if n == u64::MAX {
        0
    } else {
        (n + 1) as u64
    }
}

/// The next nonce after a re-sync to the chain's confirmed nonce
/// `chain_nonce`: the larger of the two.
pub open spec fn synced(current: u64, chain_nonce: u64) -> u64 {
    if chain_nonce > current {
        chain_nonce
    } else {
        current
    }
}

impl NonceManager {
    /// A manager whose first nonce is `start`.
    pub fn new(start: u64) -> (m: Self)
        ensures
            m@ == start,
    {
        NonceManager { next: start }
    }

    /// Hand out the next nonce and advance.
    pub fn allocate(&mut self) -> (nonce: u64)
        ensures
            nonce == old(self)@,
            final(self)@ == next_nonce(old(self)@),
            old(self)@ < u64::MAX ==> final(self)@ == old(self)@ + 1,
            old(self)@ == u64::MAX ==> final(self)@ == 0,
    {
        let nonce = self.next;
        self.next = self.next.wrapping_add(1);
        nonce
    }

    /// The nonce that would be handed out next (without advancing).
    pub fn peek(&self) -> (nonce: u64)
        ensures
            nonce == self@,
    {
        self.next
    }

    /// Re-sync to the chain's confirmed nonce. Forward-only: a stale chain
    /// read never rewinds locally allocated nonces.
    pub fn sync(&mut self, chain_nonce: u64)
        ensures
            final(self)@ == synced(old(self)@, chain_nonce),
            final(self)@ >= old(self)@,
            final(self)@ >= chain_nonce,
            final(self)@ == old(self)@ || final(self)@ == chain_nonce,
    {
        if chain_nonce > self.next {
            self.next = chain_nonce;
        }
    }
}

/// A sync never moves the next nonce backwards, and leaves it at or past the
/// chain's confirmed nonce: no nonce below either is handed out afterwards.
pub proof fn lemma_sync_is_forward_only(before: u64, chain_nonce: u64)
    ensures
        synced(before, chain_nonce) >= before,
        synced(before, chain_nonce) >= chain_nonce,
        chain_nonce <= before ==> synced(before, chain_nonce) == before,
{
}

/// One call on a manager whose next nonce is `current`: `None` is an
/// `allocate`, `Some(n)` a `sync(n)`. The next nonce afterwards.
pub open spec fn nonce_step(current: u64, op: Option<u64>) -> u64 {
    match op {
        None => next_nonce(current),
        Some(chain_nonce) => synced(current, chain_nonce),
    }
}

/// The next nonce of a manager made with `new(start)` after the first `k`
/// calls of `ops`. The `k`-th call, when it is an `allocate`, hands out
/// `nonce_at(start, ops, k)`.
pub open spec fn nonce_at(start: u64, ops: Seq<Option<u64>>, k: nat) -> u64
    decreases k,
{
    if k == 0 || k > ops.len() {
        start
    } else {
        nonce_step(nonce_at(start, ops, (k - 1) as nat), ops[k - 1])
    }
}

/// No `allocate` of `ops` runs on a counter at the top of the `u64` range.
pub open spec fn never_wraps(start: u64, ops: Seq<Option<u64>>) -> bool {
    forall|k: nat| k < ops.len() && ops[k as int] is None ==> #[trigger] nonce_at(start, ops, k) < u64::MAX
}

/// Between the `i`-th and the `j`-th call the next nonce does not go down.
proof fn lemma_nonce_monotone(start: u64, ops: Seq<Option<u64>>, i: nat, j: nat)
    requires
        never_wraps(start, ops),
        i <= j <= ops.len(),
    ensures
        nonce_at(start, ops, i) <= nonce_at(start, ops, j),
    decreases j,
{
    if i < j {
        lemma_nonce_monotone(start, ops, i, (j - 1) as nat);
        let k = (j - 1) as nat;
        assert(ops[k as int] is None ==> nonce_at(start, ops, k) < u64::MAX);
    }
}

/// Any sequence of `allocate` and `sync` calls on a manager made with
/// `new(start)`, as long as the counter does not reach the top of the `u64`
/// range: the next nonce never decreases; the nonces handed out strictly
/// increase, so no two are equal; each is below the final next nonce; and the
/// final next nonce is at or past every chain nonce synced to.
pub proof fn lemma_nonce_sequence(start: u64, ops: Seq<Option<u64>>)
    requires
        never_wraps(start, ops),
    ensures
        forall|i: nat, j: nat|
            i <= j <= ops.len() ==> #[trigger] nonce_at(start, ops, i) <= #[trigger] nonce_at(
                start,
                ops,
                j,
            ),
        forall|i: nat, j: nat|
            i < j < ops.len() && ops[i as int] is None && ops[j as int] is None
                ==> #[trigger] nonce_at(start, ops, i) < #[trigger] nonce_at(start, ops, j),
        forall|i: nat|
            i < ops.len() && ops[i as int] is None ==> #[trigger] nonce_at(start, ops, i)
                < nonce_at(start, ops, ops.len()),
        forall|i: nat|
            i < ops.len() && #[trigger] ops[i as int] is Some ==> ops[i as int]->0 <= nonce_at(
                start,
                ops,
                ops.len(),
            ),
{
    assert forall|i: nat, j: nat| i <= j <= ops.len() implies #[trigger] nonce_at(start, ops, i)
        <= #[trigger] nonce_at(start, ops, j) by {
        lemma_nonce_monotone(start, ops, i, j);
    }
    assert forall|i: nat, j: nat|
        i < j < ops.len() && ops[i as int] is None && ops[j as int] is None implies #[trigger] nonce_at(
        start,
        ops,
        i,
    ) < #[trigger] nonce_at(start, ops, j) by {
        assert(nonce_at(start, ops, i) < u64::MAX);
        lemma_nonce_monotone(start, ops, i + 1, j);
    }
    assert forall|i: nat| i < ops.len() && ops[i as int] is None implies #[trigger] nonce_at(
        start,
        ops,
        i,
    ) < nonce_at(start, ops, ops.len()) by {
        assert(nonce_at(start, ops, i) < u64::MAX);
        lemma_nonce_monotone(start, ops, i + 1, ops.len());
    }
    assert forall|i: nat| i < ops.len() && #[trigger] ops[i as int] is Some implies ops[i as int]->0
        <= nonce_at(start, ops, ops.len()) by {
        assert(nonce_at(start, ops, i + 1) == synced(nonce_at(start, ops, i), ops[i as int]->0));
        lemma_nonce_monotone(start, ops, i + 1, ops.len());
    }
}

} // verus!
