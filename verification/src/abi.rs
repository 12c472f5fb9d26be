//! Contract-call encoding: function selectors and the 32-byte word layout of
//! call arguments.

use vstd::prelude::*;
use vstd::utf8::encode_utf8;
use crate::address::{Address, U256, be_value, lemma_u64_word_value, u64_word, u64_to_word};

verus! {

/// The Keccak-256 digest of `data`, as computed by `alloy_primitives::keccak256`.
pub uninterp spec fn spec_keccak256(data: Seq<u8>) -> Seq<u8>;

/// Calls `alloy_primitives::keccak256`; the contract claims only that the
/// 32-byte digest is the Keccak-256 hash of the input bytes, which the spec
/// names without defining.
#[verifier::external_body]
fn keccak256(data: &[u8]) -> (digest: [u8; 32])
    ensures
        digest@ == spec_keccak256(data@),
{
    alloy_primitives::keccak256(data).0
}

/// The 4-byte selector of a function: the first four bytes of the Keccak-256
/// hash of its canonical signature, UTF-8 encoded.
pub open spec fn selector(signature: Seq<char>) -> Seq<u8> {
    spec_keccak256(encode_utf8(signature)).take(4)
}

/// The word of an address: twelve zero bytes, then the address.
pub open spec fn address_word(a: Address) -> Seq<u8> {
    Seq::new(12, |i: int| 0u8) + a@
}

/// Zero bytes that pad a length up to a multiple of 32.
pub open spec fn zero_pad(len: nat) -> Seq<u8> {
    Seq::new(((32 - len % 32) % 32) as nat, |i: int| 0u8)
}

/// The tail of a dynamic `bytes` value: its length word, then its bytes
/// padded with zeros to a whole number of words.
pub open spec fn bytes_tail(b: Seq<u8>) -> Seq<u8> {
    u64_word(b.len() as u64) + b + zero_pad(b.len())
}

/// The words of a sequence of addresses, concatenated.
pub open spec fn address_words(addrs: Seq<Address>) -> Seq<u8>
    decreases addrs.len(),
{
    if addrs.len() == 0 {
        Seq::empty()
    } else {
        address_words(addrs.drop_last()) + address_word(addrs.last())
    }
}

/// The words of a sequence of 256-bit values, concatenated.
pub open spec fn value_words(vals: Seq<U256>) -> Seq<u8>
    decreases vals.len(),
{
    if vals.len() == 0 {
        Seq::empty()
    } else {
        value_words(vals.drop_last()) + vals.last()@
    }
}

/// The tail of a dynamic `address[]` value: its length word, then one word
/// per address.
pub open spec fn address_array_tail(addrs: Seq<Address>) -> Seq<u8> {
    u64_word(addrs.len() as u64) + address_words(addrs)
}

/// The tail of a dynamic `uint256[]` value: its length word, then one word
/// per value.
pub open spec fn value_array_tail(vals: Seq<U256>) -> Seq<u8> {
    u64_word(vals.len() as u64) + value_words(vals)
}

/// The `k`-th 32-byte argument word of calldata, counted after the 4-byte
/// selector.
pub open spec fn arg_word(data: Seq<u8>, k: int) -> Seq<u8> {
    data.subrange(4 + 32 * k, 4 + 32 * k + 32)
}

/// `w` reads back as the address `a`: a 32-byte word of twelve zero bytes
/// followed by the twenty bytes of `a`.
pub open spec fn holds_address(w: Seq<u8>, a: Address) -> bool {
    &&& w.len() == 32
    &&& forall|i: int| 0 <= i < 12 ==> w[i] == 0u8
    &&& w.subrange(12, 32) == a@
}

/// The word of an address reads back as that address, all twenty of its
/// bytes in place.
pub proof fn lemma_address_word_reads_back(a: Address)
    ensures
        holds_address(address_word(a), a),
{
    assert(address_word(a).subrange(12, 32) =~= a@);
}

/// The words of `n` addresses take `32 * n` bytes, and the `k`-th of them
/// reads back as the `k`-th address.
pub proof fn lemma_address_words_read_back(addrs: Seq<Address>)
    ensures
        address_words(addrs).len() == 32 * addrs.len(),
        forall|k: int|
            0 <= k < addrs.len() ==> holds_address(
                address_words(addrs).subrange(32 * k, 32 * k + 32),
                #[trigger] addrs[k],
            ),
    decreases addrs.len(),
{
    if addrs.len() > 0 {
        let rest = addrs.drop_last();
        lemma_address_words_read_back(rest);
        lemma_address_word_reads_back(addrs.last());
        let w = address_words(addrs);
        let n = rest.len() as int;
        assert forall|k: int| 0 <= k < addrs.len() implies holds_address(
            w.subrange(32 * k, 32 * k + 32),
            #[trigger] addrs[k],
        ) by {
            if k < n {
                assert(w.subrange(32 * k, 32 * k + 32) =~= address_words(rest).subrange(
                    32 * k,
                    32 * k + 32,
                ));
                assert(rest[k] == addrs[k]);
            } else {
                assert(w.subrange(32 * k, 32 * k + 32) =~= address_word(addrs.last()));
            }
        }
    }
}

/// The words of `n` values take `32 * n` bytes, and the `k`-th of them is
/// the full 32-byte big-endian `k`-th value.
pub proof fn lemma_value_words_read_back(vals: Seq<U256>)
    ensures
        value_words(vals).len() == 32 * vals.len(),
        forall|k: int|
            0 <= k < vals.len() ==> value_words(vals).subrange(32 * k, 32 * k + 32)
                == (#[trigger] vals[k])@,
    decreases vals.len(),
{
    if vals.len() > 0 {
        let rest = vals.drop_last();
        lemma_value_words_read_back(rest);
        let w = value_words(vals);
        let n = rest.len() as int;
        assert forall|k: int| 0 <= k < vals.len() implies w.subrange(32 * k, 32 * k + 32)
            == (#[trigger] vals[k])@ by {
            if k < n {
                assert(w.subrange(32 * k, 32 * k + 32) =~= value_words(rest).subrange(
                    32 * k,
                    32 * k + 32,
                ));
                assert(rest[k] == vals[k]);
            } else {
                assert(w.subrange(32 * k, 32 * k + 32) =~= vals.last()@);
            }
        }
    }
}

/// The tail of a `bytes` value: a length word reading back as the length,
/// the bytes themselves, then zeros up to a whole number of words.
pub proof fn lemma_bytes_tail_reads_back(b: Seq<u8>)
    requires
        b.len() <= u64::MAX,
    ensures
        bytes_tail(b).len() == 32 + b.len() + (32 - b.len() % 32) % 32,
        bytes_tail(b).len() % 32 == 0,
        be_value(bytes_tail(b).subrange(0, 32)) == b.len(),
        bytes_tail(b).subrange(32, 32 + b.len() as int) == b,
        forall|i: int| 32 + b.len() <= i < bytes_tail(b).len() ==> #[trigger] bytes_tail(b)[i] == 0u8,
{
    lemma_u64_word_value(b.len() as u64);
    let t = bytes_tail(b);
    assert(t.subrange(0, 32) =~= u64_word(b.len() as u64));
    assert(t.subrange(32, 32 + b.len() as int) =~= b);
    let n = b.len();
    assert((32 + n + (32 - n % 32) % 32) % 32 == 0) by (nonlinear_arith);
}

/// The selector of the function with canonical signature `signature`.
pub fn function_selector(signature: &str) -> (sel: Vec<u8>)
    ensures
        sel@ == selector(signature@),
        sel@.len() == 4,
{
    let digest = keccak256(signature.as_bytes());
    let mut sel: Vec<u8> = Vec::new();
    sel.push(digest[0]);
    sel.push(digest[1]);
    sel.push(digest[2]);
    sel.push(digest[3]);
    proof {
        assert(sel@ =~= selector(signature@));
    }
    sel
}

/// Append the bytes of `w`.
fn push_all(out: &mut Vec<u8>, w: &[u8])
    ensures
        final(out)@ == old(out)@ + w@,
{
    let mut i: usize = 0;
    while i < w.len()
        invariant
            0 <= i <= w@.len(),
            out@ == old(out)@ + w@.take(i as int),
        decreases w@.len() - i,
    {
        out.push(w[i]);
        proof {
            assert(w@.take(i + 1) =~= w@.take(i as int).push(w@[i as int]));
            assert(out@ =~= old(out)@ + w@.take(i + 1));
        }
        i = i + 1;
    }
    proof {
        assert(w@.take(w@.len() as int) =~= w@);
    }
}

/// Append the word of an address.
pub fn push_address_word(out: &mut Vec<u8>, a: &Address)
    ensures
        final(out)@ == old(out)@ + address_word(*a),
{
    let zeros = [0u8; 12];
    push_all(out, &zeros);
    push_all(out, &a.bytes);
    proof {
        assert(zeros@ =~= Seq::new(12, |i: int| 0u8));
        assert(final(out)@ =~= old(out)@ + address_word(*a));
    }
}

/// Append the word of a `u64`.
pub fn push_u64_word(out: &mut Vec<u8>, v: u64)
    ensures
        final(out)@ == old(out)@ + u64_word(v),
{
    let w = u64_to_word(v);
    push_all(out, &w);
}

/// Append the word of a 256-bit value.
pub fn push_value_word(out: &mut Vec<u8>, v: &U256)
    ensures
        final(out)@ == old(out)@ + v@,
{
    push_all(out, &v.be_bytes);
}

/// Append the tail of a dynamic `bytes` value.
pub fn push_bytes_tail(out: &mut Vec<u8>, b: &[u8])
    requires
        b@.len() <= u64::MAX,
    ensures
        final(out)@ == old(out)@ + bytes_tail(b@),
{
    push_u64_word(out, b.len() as u64);
    push_all(out, b);
    let rem = b.len() % 32;
    let pad = if rem == 0 { 0 } else { 32 - rem };
    let mut k: usize = 0;
    let ghost before = out@;
    while k < pad
        invariant
            0 <= k <= pad,
            pad < 32,
            out@ == before + Seq::new(k as nat, |i: int| 0u8),
        decreases pad - k,
    {
        out.push(0u8);
        proof {
            assert(out@ =~= before + Seq::new((k + 1) as nat, |i: int| 0u8));
        }
        k = k + 1;
    }
    proof {
        assert(zero_pad(b@.len()) =~= Seq::new(pad as nat, |i: int| 0u8));
        assert(final(out)@ =~= old(out)@ + bytes_tail(b@));
    }
}

/// Append the tail of a dynamic `address[]` value.
pub fn push_address_array_tail(out: &mut Vec<u8>, addrs: &[Address])
    requires
        addrs@.len() <= u64::MAX,
    ensures
        final(out)@ == old(out)@ + address_array_tail(addrs@),
        final(out)@.len() == old(out)@.len() + 32 + 32 * addrs@.len(),
        be_value(final(out)@.subrange(old(out)@.len() as int, old(out)@.len() + 32int))
            == addrs@.len(),
        forall|k: int|
            0 <= k < addrs@.len() ==> holds_address(
                final(out)@.subrange(old(out)@.len() + 32 + 32 * k, old(out)@.len() + 64 + 32 * k),
                #[trigger] addrs@[k],
            ),
{
    push_u64_word(out, addrs.len() as u64);
    let ghost before = out@;
    let mut i: usize = 0;
    while i < addrs.len()
        invariant
            0 <= i <= addrs@.len(),
            out@ == before + address_words(addrs@.take(i as int)),
        decreases addrs@.len() - i,
    {
        push_address_word(out, &addrs[i]);
        proof {
            assert(addrs@.take(i + 1).drop_last() =~= addrs@.take(i as int));
            assert(out@ =~= before + address_words(addrs@.take(i + 1)));
        }
        i = i + 1;
    }
    proof {
        assert(addrs@.take(addrs@.len() as int) =~= addrs@);
        assert(final(out)@ =~= old(out)@ + address_array_tail(addrs@));
        lemma_address_words_read_back(addrs@);
        lemma_u64_word_value(addrs@.len() as u64);
        let o = old(out)@.len() as int;
        assert(out@.subrange(o, o + 32) =~= u64_word(addrs@.len() as u64));
        assert forall|k: int| 0 <= k < addrs@.len() implies holds_address(
            out@.subrange(o + 32 + 32 * k, o + 64 + 32 * k),
            #[trigger] addrs@[k],
        ) by {
            assert(out@.subrange(o + 32 + 32 * k, o + 64 + 32 * k) =~= address_words(
                addrs@,
            ).subrange(32 * k, 32 * k + 32));
        }
    }
}

/// Append the tail of a dynamic `uint256[]` value.
pub fn push_value_array_tail(out: &mut Vec<u8>, vals: &[U256])
    requires
        vals@.len() <= u64::MAX,
    ensures
        final(out)@ == old(out)@ + value_array_tail(vals@),
        final(out)@.len() == old(out)@.len() + 32 + 32 * vals@.len(),
        be_value(final(out)@.subrange(old(out)@.len() as int, old(out)@.len() + 32int)) == vals@.len(),
        forall|k: int|
            0 <= k < vals@.len() ==> final(out)@.subrange(
                old(out)@.len() + 32 + 32 * k,
                old(out)@.len() + 64 + 32 * k,
            ) == (#[trigger] vals@[k])@,
{
    push_u64_word(out, vals.len() as u64);
    let ghost before = out@;
    let mut i: usize = 0;
    while i < vals.len()
        invariant
            0 <= i <= vals@.len(),
            out@ == before + value_words(vals@.take(i as int)),
        decreases vals@.len() - i,
    {
        push_value_word(out, &vals[i]);
        proof {
            assert(vals@.take(i + 1).drop_last() =~= vals@.take(i as int));
            assert(out@ =~= before + value_words(vals@.take(i + 1)));
        }
        i = i + 1;
    }
    proof {
        assert(vals@.take(vals@.len() as int) =~= vals@);
        assert(final(out)@ =~= old(out)@ + value_array_tail(vals@));
        lemma_value_words_read_back(vals@);
        lemma_u64_word_value(vals@.len() as u64);
        let o = old(out)@.len() as int;
        assert(out@.subrange(o, o + 32) =~= u64_word(vals@.len() as u64));
        assert forall|k: int| 0 <= k < vals@.len() implies out@.subrange(
            o + 32 + 32 * k,
            o + 64 + 32 * k,
        ) == (#[trigger] vals@[k])@ by {
            assert(out@.subrange(o + 32 + 32 * k, o + 64 + 32 * k) =~= value_words(vals@).subrange(
                32 * k,
                32 * k + 32,
            ));
        }
    }
}

} // verus!
