//! Multicall3 batching: the call planner that splits calls into batches, and
//! the allow-failure call record sent to the Multicall3 contract.

use vstd::prelude::*;
use crate::address::Address;

verus! {

/// Canonical Multicall3 deployment (same address on every supported chain).
pub const MULTICALL3: [u8; 20] = [
    0xca, 0x11, 0xbd, 0xe0, 0x59, 0x77, 0xb3, 0x63, 0x11, 0x67, 0x02, 0x88, 0x62, 0xbe, 0x2a, 0x17,
    0x39, 0x76, 0xca, 0x11,
];

/// One call of a Multicall3 `aggregate3` batch.
#[derive(Debug, Clone)]
pub struct Call3 {
    pub target: Address,
    pub allow_failure: bool,
    pub call_data: Vec<u8>,
}

/// Build an allow-failure call to `target` with the given calldata.
pub fn call3(target: Address, calldata: Vec<u8>) -> (call: Call3)
    ensures
        call.target == target,
        call.allow_failure,
        call.call_data@ == calldata@,
{
    Call3 { target, allow_failure: true, call_data: calldata }
}

/// The contents of each batch, in order.
pub open spec fn batch_views<T>(batches: Seq<Vec<T>>) -> Seq<Seq<T>> {
    batches.map_values(|b: Vec<T>| b@)
}

/// `batches` splits `calls`, in order, into batches of exactly `size` calls
/// except for the last, which holds between one and `size`.
pub open spec fn is_chunking<T>(calls: Seq<T>, batches: Seq<Vec<T>>, size: nat) -> bool {
    &&& batch_views(batches).flatten() == calls
    &&& forall|i: int| 0 <= i < batches.len() - 1 ==> (#[trigger] batches[i])@.len() == size
    &&& batches.len() > 0 ==> 0 < batches.last()@.len() <= size
}

/// Split calls into batches of at most `size`; no batches for no calls, and a
/// single batch of everything when `size` is zero.
pub fn chunk_calls<T>(calls: Vec<T>, size: usize) -> (batches: Vec<Vec<T>>)
    ensures
        calls@.len() == 0 ==> batches@.len() == 0,
        calls@.len() > 0 && size == 0 ==> batches@.len() == 1 && batches@[0]@ == calls@,
        size > 0 ==> is_chunking(calls@, batches@, size as nat),
{
    let mut calls = calls;
    if calls.len() == 0 {
        let none: Vec<Vec<T>> = Vec::new();
        proof {
            assert(batch_views(none@) =~= Seq::<Seq<T>>::empty());
            assert(calls@ =~= Seq::<T>::empty());
        }
        return none;
    }
    if size == 0 {
        let mut single = Vec::new();
        let ghost c = calls@;
        single.push(calls);
        proof {
            assert(batch_views(single@) =~= seq![c]);
        }
        return single;
    }
    let ghost all_calls = calls@;
    let mut batches: Vec<Vec<T>> = Vec::new();
    proof {
        assert(batch_views(batches@) =~= Seq::<Seq<T>>::empty());
        assert(batch_views(batches@).flatten() + calls@ =~= all_calls);
    }
    while calls.len() > 0
        invariant
            size > 0,
            batch_views(batches@).flatten() + calls@ == all_calls,
            forall|i: int| 0 <= i < batches@.len() - 1 ==> (#[trigger] batches@[i])@.len() == size,
            batches@.len() > 0 ==> 0 < batches@.last()@.len() <= size,
            batches@.len() > 0 && calls@.len() > 0 ==> batches@.last()@.len() == size,
        decreases calls@.len(),
    {
        let take = if size < calls.len() { size } else { calls.len() };
        let rest = calls.split_off(take);
        let ghost prev = batches@;
        let ghost chunk = calls@;
        batches.push(calls);
        calls = rest;
        proof {
            assert(batch_views(batches@) =~= batch_views(prev).push(chunk));
            batch_views(prev).lemma_flatten_push(chunk);
            assert(batch_views(batches@).flatten() + calls@ =~= batch_views(prev).flatten() + (
            chunk + calls@));
            assert forall|i: int| 0 <= i < batches@.len() - 1 implies (
            #[trigger] batches@[i])@.len() == size by {
                assert(batches@[i] == prev[i]);
            }
        }
    }
    batches
}

} // verus!
