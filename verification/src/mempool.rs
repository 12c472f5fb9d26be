//! Mempool race detection: finds a watched borrower named in a competing
//! transaction's calldata.

use vstd::prelude::*;
use crate::address::Address;

verus! {

/// The address held in the low 20 bytes of the `k`-th 32-byte word of
/// `calldata`.
pub open spec fn word_address(calldata: Seq<u8>, k: int) -> Seq<u8> {
    calldata.subrange(32 * k + 12, 32 * k + 32)
}

/// The address read from a whole word of calldata is exactly the word's
/// bytes 12 to 32, all twenty of them: a word that is twelve zero bytes
/// followed by an address reads back as that address.
pub proof fn lemma_word_address_reads_low_twenty_bytes(calldata: Seq<u8>, k: int)
    requires
        0 <= k < calldata.len() / 32,
    ensures
        word_address(calldata, k).len() == 20,
        forall|i: int| 0 <= i < 20 ==> #[trigger] word_address(calldata, k)[i] == calldata[32 * k + 12 + i],
{
    assert(32 * k + 32 <= calldata.len()) by (nonlinear_arith)
        requires
            0 <= k < calldata.len() / 32,
    ;
}

/// The `k`-th whole word of `calldata` names a watched address, and no
/// earlier word does.
pub open spec fn is_first_hit(watched: Set<Seq<u8>>, calldata: Seq<u8>, k: int) -> bool {
    &&& 0 <= k < calldata.len() / 32
    &&& watched.contains(word_address(calldata, k))
    &&& forall|j: int| 0 <= j < k ==> !watched.contains(#[trigger] word_address(calldata, j))
}

/// The byte strings of a sequence of addresses.
pub open spec fn address_views(addrs: Seq<Address>) -> Seq<Seq<u8>> {
    addrs.map_values(|a: Address| a@)
}

/// Watches the borrowers we intend to liquidate.
pub struct RaceDetector {
    watched: Vec<Address>,
}

impl RaceDetector {
    /// Each watched address is held once.
    #[verifier::type_invariant]
    spec fn inv(self) -> bool {
        address_views(self.watched@).no_duplicates()
    }
}

impl View for RaceDetector {
    type V = Set<Seq<u8>>;

    /// The watched addresses.
    closed spec fn view(&self) -> Set<Seq<u8>> {
        address_views(self.watched@).to_set()
    }
}

impl RaceDetector {
    /// A detector tracking the given borrowers.
    pub fn new(watched: Vec<Address>) -> (d: Self)
        ensures
            d@ == address_views(watched@).to_set(),
    {
        let mut d = RaceDetector { watched: Vec::new() };
        proof {
            assert(d@ =~= Set::<Seq<u8>>::empty());
        }
        let mut i: usize = 0;
        while i < watched.len()
            invariant
                0 <= i <= watched@.len(),
                d@ == address_views(watched@.take(i as int)).to_set(),
            decreases watched@.len() - i,
        {
            d.track(watched[i]);
            proof {
                assert(address_views(watched@.take(i + 1)) =~= address_views(
                    watched@.take(i as int),
                ).push(watched@[i as int]@));
                address_views(watched@.take(i as int)).lemma_push_to_set_commute(
                    watched@[i as int]@,
                );
            }
            i = i + 1;
        }
        proof {
            assert(watched@.take(watched@.len() as int) =~= watched@);
        }
        d
    }

    /// Whether `borrower` is watched.
    pub fn is_watched(&self, borrower: &Address) -> (b: bool)
        ensures
            b == self@.contains(borrower@),
    {
        let mut i: usize = 0;
        while i < self.watched.len()
            invariant
                0 <= i <= self.watched@.len(),
                forall|j: int| 0 <= j < i ==> self.watched@[j]@ != borrower@,
            decreases self.watched@.len() - i,
        {
            if self.watched[i] == *borrower {
                proof {
                    assert(address_views(self.watched@)[i as int] == borrower@);
                }
                return true;
            }
            i = i + 1;
        }
        proof {
            if address_views(self.watched@).to_set().contains(borrower@) {
                let j = choose|j: int|
                    0 <= j < self.watched@.len() && address_views(self.watched@)[j] == borrower@;
                assert(self.watched@[j]@ == borrower@);
            }
        }
        false
    }

    /// Start tracking `borrower`.
    pub fn track(&mut self, borrower: Address)
        ensures
            final(self)@ == old(self)@.insert(borrower@),
    {
        proof {
            use_type_invariant(&*self);
        }
        if self.is_watched(&borrower) {
            proof {
                assert(self@.insert(borrower@) =~= self@);
            }
            return ;
        }
        let ghost prev = self.watched@;
        let mut watched: Vec<Address> = Vec::new();
        std::mem::swap(&mut watched, &mut self.watched);
        watched.push(borrower);
        proof {
            assert(address_views(watched@) =~= address_views(prev).push(borrower@));
            address_views(prev).lemma_push_to_set_commute(borrower@);
            assert(!address_views(prev).contains(borrower@));
            assert(address_views(watched@).no_duplicates());
        }
        self.watched = watched;
    }

    /// Number of watched borrowers.
    pub fn len(&self) -> (n: usize)
        ensures
            n == self@.len(),
    {
        proof {
            use_type_invariant(self);
            address_views(self.watched@).unique_seq_to_set();
        }
        self.watched.len()
    }

    /// Whether no borrower is watched.
    pub fn is_empty(&self) -> (b: bool)
        ensures
            b == (self@.len() == 0),
    {
        proof {
            use_type_invariant(self);
            address_views(self.watched@).unique_seq_to_set();
        }
        self.watched.len() == 0
    }

    /// Scan calldata word by word (ABI encodes addresses as 32-byte,
    /// left-padded words) and return the first watched borrower referenced.
    /// A trailing partial word is ignored.
    pub fn competing_borrower(&self, calldata: &[u8]) -> (hit: Option<Address>)
        ensures
            hit is None <==> forall|k: int|
                0 <= k < calldata@.len() / 32 ==> !self@.contains(
                    #[trigger] word_address(calldata@, k),
                ),
            hit matches Some(a) ==> exists|k: int|
                #[trigger] is_first_hit(self@, calldata@, k) && a@ == word_address(calldata@, k),
            forall|k: int|
                0 <= k < calldata@.len() / 32 && self@.contains(
                    #[trigger] calldata@.subrange(32 * k + 12, 32 * k + 32),
                ) ==> hit is Some,
            hit matches Some(a) ==> self@.contains(a@) && exists|k: int|
                0 <= k < calldata@.len() / 32 && a@ == #[trigger] calldata@.subrange(
                    32 * k + 12,
                    32 * k + 32,
                ) && forall|j: int|
                    0 <= j < k ==> !self@.contains(
                        #[trigger] calldata@.subrange(32 * j + 12, 32 * j + 32),
                    ),
    {
        let n = calldata.len();
        let words = n / 32;
        let mut k: usize = 0;
        while k < words
            invariant
                n == calldata@.len(),
                words == n / 32,
                0 <= k <= words,
                forall|j: int| 0 <= j < k ==> !self@.contains(#[trigger] word_address(calldata@, j)),
            decreases words - k,
        {
            proof {
                assert(32 * k + 32 <= n) by (nonlinear_arith)
                    requires
                        k < words,
                        words == n / 32,
                ;
            }
            let start = 32 * k + 12;
            let mut bytes = [0u8; 20];
            let mut i: usize = 0;
            while i < 20
                invariant
                    words == calldata@.len() / 32,
                    k < words,
                    start == 32 * k + 12,
                    0 <= i <= 20,
                    forall|j: int| 0 <= j < i ==> bytes@[j] == calldata@[start + j],
                decreases 20 - i,
            {
                bytes[i] = calldata[start + i];
                i = i + 1;
            }
            let addr = Address::new(bytes);
            proof {
                assert(addr@ =~= word_address(calldata@, k as int));
            }
            if self.is_watched(&addr) {
                proof {
                    assert(is_first_hit(self@, calldata@, k as int));
                    assert(addr@ == calldata@.subrange(32 * k + 12, 32 * k + 32));
                    assert forall|j: int| 0 <= j < k implies !self@.contains(
                        #[trigger] calldata@.subrange(32 * j + 12, 32 * j + 32),
                    ) by {
                        assert(!self@.contains(word_address(calldata@, j)));
                    }
                }
                return Some(addr);
            }
            k = k + 1;
        }
        proof {
            assert forall|j: int|
                0 <= j < calldata@.len() / 32 && self@.contains(
                    #[trigger] calldata@.subrange(32 * j + 12, 32 * j + 32),
                ) implies false by {
                assert(!self@.contains(word_address(calldata@, j)));
            }
        }
        None
    }
}

} // verus!
