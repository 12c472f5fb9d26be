//! Account addresses and 256-bit words as the byte strings the chain uses.

use vstd::prelude::*;
use vstd::std_specs::cmp::PartialEqSpecImpl;
use vstd::string::*;

verus! {

/// A 20-byte account address.
#[derive(Clone, Copy, Debug)]
pub struct Address {
    pub bytes: [u8; 20],
}

impl View for Address {
    type V = Seq<u8>;

    open spec fn view(&self) -> Seq<u8> {
        self.bytes@
    }
}

/// Addresses with the same bytes are the same address.
pub proof fn lemma_address_view_eq(a: Address, b: Address)
    requires
        a@ == b@,
    ensures
        a == b,
{
    assert(a.bytes =~= b.bytes);
}

/// The lower-case hexadecimal digit for a nibble.
pub open spec fn hex_digit(n: u8) -> char {
    if n < 10 {
        ((n + 48) as u8) as char
    } else {
        ((n + 87) as u8) as char
    }
}

/// Lower-case hexadecimal rendering of bytes, two digits per byte, most
/// significant nibble first.
pub open spec fn hex_lower(bytes: Seq<u8>) -> Seq<char>
    decreases bytes.len(),
{
    if bytes.len() == 0 {
        Seq::empty()
    } else {
        hex_lower(bytes.drop_last()) + seq![
            hex_digit(bytes.last() / 16),
            hex_digit(bytes.last() % 16),
        ]
    }
}

/// The single-character string for a nibble's hexadecimal digit.
fn hex_digit_str(n: u8) -> (s: &'static str)
    requires
        n < 16,
    ensures
        s@ == seq![hex_digit(n)],
{
    proof {
        reveal_strlit("0");
        reveal_strlit("1");
        reveal_strlit("2");
        reveal_strlit("3");
        reveal_strlit("4");
        reveal_strlit("5");
        reveal_strlit("6");
        reveal_strlit("7");
        reveal_strlit("8");
        reveal_strlit("9");
        reveal_strlit("a");
        reveal_strlit("b");
        reveal_strlit("c");
        reveal_strlit("d");
        reveal_strlit("e");
        reveal_strlit("f");
    }
    match n {
        0 => "0",
        1 => "1",
        2 => "2",
        3 => "3",
        4 => "4",
        5 => "5",
        6 => "6",
        7 => "7",
        8 => "8",
        9 => "9",
        10 => "a",
        11 => "b",
        12 => "c",
        13 => "d",
        14 => "e",
        _ => "f",
    }
}

impl Address {
    /// The address with the given bytes.
    pub fn new(bytes: [u8; 20]) -> (a: Self)
        ensures
            a.bytes == bytes,
    {
        Address { bytes }
    }

    /// The all-zero address.
    pub fn zero() -> (a: Self)
        ensures
            a@ == Seq::new(20, |i: int| 0u8),
    {
        let a = Address { bytes: [0u8; 20] };
        proof {
            assert(a@ =~= Seq::new(20, |i: int| 0u8));
        }
        a
    }

    /// The address whose bytes are all zero but the last, which is `last`.
    pub fn with_last_byte(last: u8) -> (a: Self)
        ensures
            a@ == Seq::new(19, |i: int| 0u8).push(last),
    {
        let mut bytes = [0u8; 20];
        bytes[19] = last;
        let a = Address { bytes };
        proof {
            assert(a@ =~= Seq::new(19, |i: int| 0u8).push(last));
        }
        a
    }

    /// The address held in a 20-byte slice.
    pub fn from_slice(s: &[u8]) -> (a: Self)
        requires
            s@.len() == 20,
        ensures
            a@ == s@,
    {
        let mut bytes = [0u8; 20];
        let mut i: usize = 0;
        while i < 20
            invariant
                s@.len() == 20,
                0 <= i <= 20,
                forall|j: int| 0 <= j < i ==> bytes@[j] == s@[j],
            decreases 20 - i,
        {
            bytes[i] = s[i];
            i = i + 1;
        }
        let a = Address { bytes };
        proof {
            assert(a@ =~= s@);
        }
        a
    }

    /// The address as `0x` followed by forty lower-case hexadecimal digits.
    pub fn to_hex(&self) -> (s: String)
        ensures
            s@ == seq!['0', 'x'] + hex_lower(self@),
    {
        let mut s = String::from_str("0x");
        proof {
            reveal_strlit("0x");
            assert(self@.take(0) =~= Seq::<u8>::empty());
        }
        let mut i: usize = 0;
        while i < 20
            invariant
                0 <= i <= 20,
                s@ == seq!['0', 'x'] + hex_lower(self@.take(i as int)),
            decreases 20 - i,
        {
            let b = self.bytes[i];
            s.append(hex_digit_str(b / 16));
            s.append(hex_digit_str(b % 16));
            proof {
                assert(self@.take(i + 1).drop_last() =~= self@.take(i as int));
                assert(self@.take(i + 1).last() == b);
                assert(s@ =~= seq!['0', 'x'] + hex_lower(self@.take(i + 1)));
            }
            i = i + 1;
        }
        proof {
            assert(self@.take(20) =~= self@);
        }
        s
    }
}

/// Two addresses are equal when their bytes are.
fn bytes_equal(a: &[u8; 20], b: &[u8; 20]) -> (eq: bool)
    ensures
        eq == (a@ == b@),
{
    let mut i: usize = 0;
    while i < 20
        invariant
            0 <= i <= 20,
            forall|j: int| 0 <= j < i ==> a@[j] == b@[j],
        decreases 20 - i,
    {
        if a[i] != b[i] {
            return false;
        }
        i = i + 1;
    }
    proof {
        assert(a@ =~= b@);
    }
    true
}

impl PartialEq for Address {
    fn eq(&self, other: &Self) -> (eq: bool) {
        bytes_equal(&self.bytes, &other.bytes)
    }
}

impl PartialEqSpecImpl for Address {
    open spec fn obeys_eq_spec() -> bool {
        true
    }

    open spec fn eq_spec(&self, other: &Self) -> bool {
        self@ == other@
    }
}

impl Eq for Address {

}

/// An unsigned 256-bit integer held as its 32 big-endian bytes, as the chain
/// encodes it.
#[derive(Clone, Copy, Debug)]
pub struct U256 {
    pub be_bytes: [u8; 32],
}

impl View for U256 {
    type V = Seq<u8>;

    open spec fn view(&self) -> Seq<u8> {
        self.be_bytes@
    }
}

/// The 32-byte big-endian word of a `u64`: 24 zero bytes, then the eight
/// bytes of `v` from the most significant down.
pub open spec fn u64_word(v: u64) -> Seq<u8> {
    Seq::new(
        32,
        |i: int|
            if i < 24 {
                0u8
            } else {
                ((v >> ((31 - i) * 8) as u64) & 0xff) as u8
            },
    )
}

/// The number that big-endian bytes stand for, most significant byte first.
pub open spec fn be_value(bytes: Seq<u8>) -> nat
    decreases bytes.len(),
{
    if bytes.len() == 0 {
        0
    } else {
        be_value(bytes.drop_last()) * 256 + bytes.last() as nat
    }
}

/// One more low byte of a right shift: the shift by `s` is the shift by
/// `s + 8` followed by the byte at position `s`.
proof fn lemma_shift_step(v: u64, s: u64)
    requires
        s <= 56,
    ensures
        ((v >> (s + 8)) as nat) * 256 + (((v >> s) & 0xff) as nat) == (v >> s) as nat,
{
    assert(((v >> (s + 8)) << 8) | ((v >> s) & 0xff) == v >> s) by (bit_vector)
        requires
            s <= 56,
    ;
    assert(((v >> (s + 8)) << 8) == (v >> (s + 8)) * 256) by (bit_vector)
        requires
            s <= 56,
    ;
    assert(((v >> (s + 8)) << 8) & 0xff == 0) by (bit_vector);
    assert(((v >> (s + 8)) << 8) | ((v >> s) & 0xff) == ((v >> (s + 8)) << 8) + ((v >> s) & 0xff))
        by (bit_vector)
        requires
            s <= 56,
    ;
}

/// The first `k` bytes of the word of `v`, read as a number, are `v`
/// shifted right by the bytes after them.
proof fn lemma_u64_word_prefix_value(v: u64, k: int)
    requires
        0 <= k <= 32,
    ensures
        be_value(u64_word(v).take(k)) == if k <= 24 {
            0
        } else {
            (v >> ((32 - k) * 8) as u64) as nat
        },
    decreases k,
{
    let w = u64_word(v);
    if k > 0 {
        lemma_u64_word_prefix_value(v, k - 1);
        assert(w.take(k).drop_last() =~= w.take(k - 1));
        assert(w.take(k).last() == w[k - 1]);
        if k > 24 {
            let s: u64 = ((32 - k) * 8) as u64;
            lemma_shift_step(v, s);
            assert((v >> s) & 0xff < 256) by (bit_vector);
            assert(w[k - 1] == ((v >> s) & 0xff) as u8);
            assert(w[k - 1] as nat == ((v >> s) & 0xff) as nat);
            if k == 25 {
                assert(s == 56);
                assert(v >> 64u64 == 0) by (bit_vector);
                assert(be_value(w.take(k - 1)) == 0);
            } else {
                assert(((32 - (k - 1)) * 8) as u64 == s + 8);
                assert(be_value(w.take(k - 1)) == (v >> (s + 8)) as nat);
            }
            assert(be_value(w.take(k)) == be_value(w.take(k - 1)) * 256 + w[k - 1] as nat);
        }
    }
}

/// The word of a `u64` is its big-endian encoding: read back as a base-256
/// number it is `v` again.
pub proof fn lemma_u64_word_value(v: u64)
    ensures
        u64_word(v).len() == 32,
        be_value(u64_word(v)) == v,
{
    lemma_u64_word_prefix_value(v, 32);
    assert(u64_word(v).take(32) =~= u64_word(v));
    assert(v >> 0u64 == v) by (bit_vector);
}

/// The 32-byte big-endian word of `v`.
pub fn u64_to_word(v: u64) -> (w: [u8; 32])
    ensures
        w@ == u64_word(v),
{
    let mut w = [0u8; 32];
    let mut k: usize = 0;
    while k < 8
        invariant
            0 <= k <= 8,
            forall|i: int| 0 <= i < 24 ==> w@[i] == 0u8,
            forall|i: int| 24 <= i < 32 - k ==> w@[i] == 0u8,
            forall|i: int| 32 - k <= i < 32 ==> w@[i] == u64_word(v)[i],
        decreases 8 - k,
    {
        let shift: u64 = (k as u64) * 8;
        let byte = ((v >> shift) & 0xff) as u8;
        w[31 - k] = byte;
        proof {
            assert(((31 - (31 - k)) * 8) as u64 == shift);
        }
        k = k + 1;
    }
    proof {
        assert(w@ =~= u64_word(v));
    }
    w
}

impl U256 {
    /// The value held in 32 big-endian bytes.
    pub fn from_be_bytes(be_bytes: [u8; 32]) -> (v: Self)
        ensures
            v.be_bytes == be_bytes,
    {
        U256 { be_bytes }
    }

    /// The 256-bit value of a `u64`.
    pub fn from_u64(v: u64) -> (w: Self)
        ensures
            w@ == u64_word(v),
            be_value(w@) == v,
    {
        proof {
            lemma_u64_word_value(v);
        }
        U256 { be_bytes: u64_to_word(v) }
    }
}

} // verus!
