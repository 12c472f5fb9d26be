//! Borrower discovery: the block-range planner that splits a backfill into
//! chunks small enough for one log query each.

use vstd::prelude::*;
use crate::address::Address;

verus! {

/// The last block of a chunk that starts at `start`: `chunk` blocks long, cut
/// short at `to`.
pub open spec fn chunk_end(start: int, to: int, chunk: int) -> int {
    if start + chunk - 1 < to {
        start + chunk - 1
    } else {
        to
    }
}

/// `ranges` splits the inclusive block range `[from, to]`, in order, into
/// consecutive chunks of `chunk` blocks, the last one cut short at `to`.
pub open spec fn is_chunk_plan(from: u64, to: u64, chunk: u64, ranges: Seq<(u64, u64)>) -> bool {
    &&& ranges.len() > 0
    &&& ranges[0].0 == from
    &&& forall|i: int|
        0 <= i < ranges.len() ==> (#[trigger] ranges[i]).1 == chunk_end(
            ranges[i].0 as int,
            to as int,
            chunk as int,
        )
    &&& forall|i: int| 0 <= i < ranges.len() - 1 ==> (#[trigger] ranges[i]).1 < to
    &&& forall|i: int| 0 < i < ranges.len() ==> (#[trigger] ranges[i]).0 == ranges[i - 1].1 + 1
    &&& ranges.last().1 == to
}

/// Block `b` lies in the inclusive range `r`.
pub open spec fn in_chunk(r: (u64, u64), b: u64) -> bool {
    r.0 <= b <= r.1
}

/// Some chunk of `ranges` holds block `b`.
pub open spec fn covers_block(ranges: Seq<(u64, u64)>, b: u64) -> bool {
    exists|i: int| 0 <= i < ranges.len() && #[trigger] in_chunk(ranges[i], b)
}

/// Chunks of a plan start no later than `to` and are non-empty.
proof fn lemma_chunk_plan_bounds(from: u64, to: u64, chunk: u64, ranges: Seq<(u64, u64)>, i: int)
    requires
        from <= to,
        chunk > 0,
        is_chunk_plan(from, to, chunk, ranges),
        0 <= i < ranges.len(),
    ensures
        ranges[i].0 <= ranges[i].1 <= to,
        ranges[i].1 - ranges[i].0 < chunk,
{
    if i > 0 {
        assert(ranges[i - 1].1 < to);
        assert(ranges[i].0 == ranges[i - 1].1 + 1);
    }
    assert(ranges[i].1 == chunk_end(ranges[i].0 as int, to as int, chunk as int));
}

/// Chunks of a plan are strictly increasing: an earlier chunk ends before a
/// later one starts.
proof fn lemma_chunk_plan_ordered(
    from: u64,
    to: u64,
    chunk: u64,
    ranges: Seq<(u64, u64)>,
    i: int,
    j: int,
)
    requires
        from <= to,
        chunk > 0,
        is_chunk_plan(from, to, chunk, ranges),
        0 <= i < j < ranges.len(),
    ensures
        ranges[i].1 < ranges[j].0,
    decreases j - i,
{
    assert(ranges[j].0 == ranges[j - 1].1 + 1);
    if i < j - 1 {
        lemma_chunk_plan_ordered(from, to, chunk, ranges, i, j - 1);
        lemma_chunk_plan_bounds(from, to, chunk, ranges, j - 1);
    }
}

/// Every block from `from` through the end of chunk `k` lies in one of the
/// chunks `0..=k`.
proof fn lemma_chunk_plan_covers_prefix(
    from: u64,
    to: u64,
    chunk: u64,
    ranges: Seq<(u64, u64)>,
    k: int,
    b: u64,
)
    requires
        from <= to,
        chunk > 0,
        is_chunk_plan(from, to, chunk, ranges),
        0 <= k < ranges.len(),
        from <= b <= ranges[k].1,
    ensures
        exists|i: int| 0 <= i <= k && #[trigger] in_chunk(ranges[i], b),
    decreases k,
{
    if k > 0 && b <= ranges[k - 1].1 {
        lemma_chunk_plan_covers_prefix(from, to, chunk, ranges, k - 1, b);
    } else if k > 0 {
        assert(ranges[k].0 == ranges[k - 1].1 + 1);
        assert(in_chunk(ranges[k], b));
    } else {
        assert(in_chunk(ranges[0], b));
    }
}

/// A chunk plan partitions its range: every block of `[from, to]` lies in
/// exactly one chunk, no chunk spans more than `chunk` blocks, and every
/// chunk but the last spans exactly `chunk` blocks.
pub proof fn lemma_chunk_plan_partitions(
    from: u64,
    to: u64,
    chunk: u64,
    ranges: Seq<(u64, u64)>,
)
    requires
        from <= to,
        chunk > 0,
        is_chunk_plan(from, to, chunk, ranges),
    ensures
        forall|i: int|
            0 <= i < ranges.len() ==> (#[trigger] ranges[i]).0 <= ranges[i].1 && ranges[i].1
                - ranges[i].0 < chunk,
        forall|b: u64| from <= b <= to ==> #[trigger] covers_block(ranges, b),
        forall|b: u64, i: int, j: int|
            0 <= i < ranges.len() && 0 <= j < ranges.len() && #[trigger] in_chunk(ranges[i], b)
                && #[trigger] in_chunk(ranges[j], b) ==> i == j,
        forall|i: int| 0 <= i < ranges.len() - 1 ==> (#[trigger] ranges[i]).1 - ranges[i].0 + 1 == chunk,
        ranges[0].0 == from,
        ranges.last().1 == to,
{
    assert forall|i: int| 0 <= i < ranges.len() - 1 implies (#[trigger] ranges[i]).1 - ranges[i].0 + 1
        == chunk by {
        assert(ranges[i].1 == chunk_end(ranges[i].0 as int, to as int, chunk as int));
    }
    assert forall|i: int| 0 <= i < ranges.len() implies (#[trigger] ranges[i]).0 <= ranges[i].1
        && ranges[i].1 - ranges[i].0 < chunk by {
        lemma_chunk_plan_bounds(from, to, chunk, ranges, i);
    }
    assert forall|b: u64| from <= b <= to implies #[trigger] covers_block(ranges, b) by {
        lemma_chunk_plan_covers_prefix(from, to, chunk, ranges, ranges.len() - 1, b);
    }
    assert forall|b: u64, i: int, j: int|
        0 <= i < ranges.len() && 0 <= j < ranges.len() && #[trigger] in_chunk(ranges[i], b)
            && #[trigger] in_chunk(ranges[j], b) implies i == j by {
        if i < j {
            lemma_chunk_plan_ordered(from, to, chunk, ranges, i, j);
        } else if j < i {
            lemma_chunk_plan_ordered(from, to, chunk, ranges, j, i);
        }
    }
}

/// Split `[from, to]` (inclusive) into chunks of at most `chunk` blocks; no
/// chunks when the range is inverted or `chunk` is zero.
pub fn plan_chunks(from: u64, to: u64, chunk: u64) -> (ranges: Vec<(u64, u64)>)
    ensures
        to < from || chunk == 0 ==> ranges@.len() == 0,
        from <= to && chunk > 0 ==> is_chunk_plan(from, to, chunk, ranges@),
{
    let mut ranges: Vec<(u64, u64)> = Vec::new();
    if to < from || chunk == 0 {
        return ranges;
    }
    let mut start = from;
    loop
        invariant_except_break
            from <= start <= to,
            chunk > 0,
            ranges@.len() == 0 ==> start == from,
            ranges@.len() > 0 ==> {
                &&& ranges@[0].0 == from
                &&& start == ranges@.last().1 + 1
            },
            forall|i: int|
                0 <= i < ranges@.len() ==> (#[trigger] ranges@[i]).1 == chunk_end(
                    ranges@[i].0 as int,
                    to as int,
                    chunk as int,
                ),
            forall|i: int| 0 <= i < ranges@.len() ==> (#[trigger] ranges@[i]).1 < to,
        invariant
            chunk > 0,
            forall|i: int| 0 < i < ranges@.len() ==> (#[trigger] ranges@[i]).0 == ranges@[i - 1].1 + 1,
        ensures
            is_chunk_plan(from, to, chunk, ranges@),
        decreases to - start,
    {
        let bumped = start.saturating_add(chunk - 1);
        let end = if bumped < to { bumped } else { to };
        let ghost prev = ranges@;
        ranges.push((start, end));
        proof {
            assert forall|i: int| 0 < i < ranges@.len() implies (#[trigger] ranges@[i]).0
                == ranges@[i - 1].1 + 1 by {
                if i < prev.len() {
                    assert(ranges@[i] == prev[i]);
                    assert(ranges@[i - 1] == prev[i - 1]);
                }
            }
        }
        if end >= to {
            break ;
        }
        start = end + 1;
    }
    ranges
}

/// `a` sorts before `b` in byte-wise lexicographic order: at the first
/// position where they differ, `a` holds the smaller byte.
pub open spec fn lex_lt(a: Seq<u8>, b: Seq<u8>) -> bool {
    exists|i: int| 0 <= i < a.len() && i < b.len() && a.take(i) == b.take(i) && #[trigger] a[i] < b[i]
}

/// Lexicographic order is transitive.
proof fn lemma_lex_lt_transitive(a: Seq<u8>, b: Seq<u8>, c: Seq<u8>)
    requires
        a.len() == b.len() == c.len(),
        lex_lt(a, b),
        lex_lt(b, c),
    ensures
        lex_lt(a, c),
{
    let i = choose|i: int| 0 <= i < a.len() && i < b.len() && a.take(i) == b.take(i) && #[trigger] a[i] < b[i];
    let j = choose|j: int| 0 <= j < b.len() && j < c.len() && b.take(j) == c.take(j) && #[trigger] b[j] < c[j];
    let k = if i < j { i } else { j };
    assert(a.take(k) =~= a.take(i).take(k));
    assert(b.take(k) =~= b.take(i).take(k));
    assert(b.take(k) =~= b.take(j).take(k));
    assert(c.take(k) =~= c.take(j).take(k));
    if i < j {
        assert(b.take(j)[i] == c.take(j)[i]);
    } else if j < i {
        assert(a.take(i)[j] == b.take(i)[j]);
    }
    assert(a[k] < c[k]);
}

/// Lexicographic order is irreflexive and asymmetric.
proof fn lemma_lex_lt_asymmetric(a: Seq<u8>, b: Seq<u8>)
    requires
        a.len() == b.len(),
        lex_lt(a, b),
    ensures
        !lex_lt(b, a),
        a != b,
{
    let i = choose|i: int| 0 <= i < a.len() && i < b.len() && a.take(i) == b.take(i) && #[trigger] a[i] < b[i];
    if lex_lt(b, a) {
        let j = choose|j: int| 0 <= j < b.len() && j < a.len() && b.take(j) == a.take(j) && #[trigger] b[j] < a[j];
        if i < j {
            assert(b.take(j)[i] == a.take(j)[i]);
        } else if j < i {
            assert(a.take(i)[j] == b.take(i)[j]);
        }
    }
}

/// Compare two addresses byte-wise: negative when `a` sorts first, zero when
/// they are the same, positive when `b` sorts first.
fn compare_addresses(a: &Address, b: &Address) -> (c: i8)
    ensures
        c < 0 ==> lex_lt(a@, b@),
        c == 0 ==> a@ == b@,
        c > 0 ==> lex_lt(b@, a@),
{
    let mut k: usize = 0;
    while k < 20
        invariant
            0 <= k <= 20,
            a@.take(k as int) == b@.take(k as int),
        decreases 20 - k,
    {
        if a.bytes[k] != b.bytes[k] {
            if a.bytes[k] < b.bytes[k] {
                proof {
                    assert(a@[k as int] < b@[k as int]);
                }
                return -1;
            } else {
                proof {
                    assert(b@.take(k as int) == a@.take(k as int));
                    assert(b@[k as int] < a@[k as int]);
                }
                return 1;
            }
        }
        proof {
            assert(a@.take(k + 1) =~= a@.take(k as int).push(a@[k as int]));
            assert(b@.take(k + 1) =~= b@.take(k as int).push(b@[k as int]));
        }
        k = k + 1;
    }
    proof {
        assert(a@ =~= a@.take(20));
        assert(b@ =~= b@.take(20));
    }
    0
}

/// The byte strings of a sequence of addresses.
pub open spec fn borrower_views(addrs: Seq<Address>) -> Seq<Seq<u8>> {
    addrs.map_values(|a: Address| a@)
}

/// `addrs` is in strictly ascending byte-wise order, so holds no address
/// twice.
pub open spec fn strictly_ascending(addrs: Seq<Address>) -> bool {
    forall|i: int, j: int| 0 <= i < j < addrs.len() ==> lex_lt(#[trigger] addrs[i]@, #[trigger] addrs[j]@)
}

/// The set of borrowers discovered so far, kept in ascending address order.
pub struct BorrowerSet {
    sorted: Vec<Address>,
}

impl BorrowerSet {
    /// Addresses are held once each, in ascending order.
    #[verifier::type_invariant]
    spec fn inv(self) -> bool {
        strictly_ascending(self.sorted@)
    }
}

impl View for BorrowerSet {
    type V = Set<Seq<u8>>;

    /// The discovered borrowers.
    closed spec fn view(&self) -> Set<Seq<u8>> {
        borrower_views(self.sorted@).to_set()
    }
}

impl BorrowerSet {
    /// An empty set.
    pub fn new() -> (s: Self)
        ensures
            s@ == Set::<Seq<u8>>::empty(),
    {
        let s = BorrowerSet { sorted: Vec::new() };
        proof {
            assert(s@ =~= Set::<Seq<u8>>::empty());
        }
        s
    }

    /// Add one borrower; adding one already present changes nothing.
    pub fn insert(&mut self, borrower: Address)
        ensures
            final(self)@ == old(self)@.insert(borrower@),
    {
        proof {
            use_type_invariant(&*self);
        }
        let n = self.sorted.len();
        let mut p: usize = 0;
        let mut c: i8 = 1;
        while p < n
            invariant_except_break
                forall|j: int| 0 <= j < p ==> lex_lt(#[trigger] self.sorted@[j]@, borrower@),
            invariant
                n == self.sorted@.len(),
                0 <= p <= n,
            ensures
                forall|j: int| 0 <= j < p ==> lex_lt(#[trigger] self.sorted@[j]@, borrower@),
                p < n ==> c >= 0,
                p < n && c == 0 ==> self.sorted@[p as int]@ == borrower@,
                p < n && c > 0 ==> lex_lt(borrower@, self.sorted@[p as int]@),
            decreases n - p,
        {
            c = compare_addresses(&self.sorted[p], &borrower);
            if c >= 0 {
                break ;
            }
            p = p + 1;
        }
        let ghost prev = self.sorted@;
        if p < n && c == 0 {
            proof {
                assert(borrower_views(prev)[p as int] == borrower@);
                assert(borrower_views(prev).to_set().insert(borrower@) =~= borrower_views(
                    prev,
                ).to_set());
            }
            return ;
        }
        let mut sorted: Vec<Address> = Vec::new();
        std::mem::swap(&mut sorted, &mut self.sorted);
        sorted.insert(p, borrower);
        proof {
            assert(p < n ==> lex_lt(borrower@, prev[p as int]@));
            assert forall|i: int, j: int| 0 <= i < j < sorted@.len() implies lex_lt(
                #[trigger] sorted@[i]@,
                #[trigger] sorted@[j]@,
            ) by {
                if j < p {
                    assert(sorted@[i] == prev[i] && sorted@[j] == prev[j]);
                } else if j == p {
                    assert(sorted@[i] == prev[i]);
                } else if i == p {
                    assert(sorted@[j] == prev[j - 1]);
                    if j - 1 > p {
                        lemma_lex_lt_transitive(borrower@, prev[p as int]@, prev[j - 1]@);
                    }
                } else if i < p {
                    assert(sorted@[i] == prev[i] && sorted@[j] == prev[j - 1]);
                } else {
                    assert(sorted@[i] == prev[i - 1] && sorted@[j] == prev[j - 1]);
                }
            }
            assert(borrower_views(sorted@) =~= borrower_views(prev).insert(p as int, borrower@));
            assert(borrower_views(sorted@).to_set() =~= borrower_views(prev).to_set().insert(
                borrower@,
            )) by {
                assert forall|x: Seq<u8>|
                    borrower_views(prev).to_set().insert(borrower@).contains(x) implies borrower_views(
                    sorted@,
                ).contains(x) by {
                    if x != borrower@ {
                        let k = choose|k: int|
                            0 <= k < prev.len() && borrower_views(prev)[k] == x;
                        if k < p {
                            assert(borrower_views(sorted@)[k] == x);
                        } else {
                            assert(borrower_views(sorted@)[k + 1] == x);
                        }
                    } else {
                        assert(borrower_views(sorted@)[p as int] == x);
                    }
                }
            }
        }
        self.sorted = sorted;
    }

    /// Add every borrower of a batch.
    pub fn insert_all(&mut self, batch: Vec<Address>)
        ensures
            final(self)@ == old(self)@.union(borrower_views(batch@).to_set()),
    {
        let mut i: usize = 0;
        while i < batch.len()
            invariant
                0 <= i <= batch@.len(),
                self@ == old(self)@.union(borrower_views(batch@.take(i as int)).to_set()),
            decreases batch@.len() - i,
        {
            self.insert(batch[i]);
            proof {
                assert(borrower_views(batch@.take(i + 1)) =~= borrower_views(
                    batch@.take(i as int),
                ).push(batch@[i as int]@));
                borrower_views(batch@.take(i as int)).lemma_push_to_set_commute(batch@[i as int]@);
                assert(self@ =~= old(self)@.union(borrower_views(batch@.take(i + 1)).to_set()));
            }
            i = i + 1;
        }
        proof {
            assert(batch@.take(batch@.len() as int) =~= batch@);
        }
    }

    /// Number of distinct borrowers.
    pub fn len(&self) -> (n: usize)
        ensures
            n == self@.len(),
    {
        proof {
            use_type_invariant(self);
            self.lemma_views_distinct();
            borrower_views(self.sorted@).unique_seq_to_set();
        }
        self.sorted.len()
    }

    /// The views of the held addresses are distinct.
    proof fn lemma_views_distinct(&self)
        requires
            strictly_ascending(self.sorted@),
        ensures
            borrower_views(self.sorted@).no_duplicates(),
    {
        assert forall|i: int, j: int|
            0 <= i < borrower_views(self.sorted@).len() && 0 <= j < borrower_views(self.sorted@).len()
                && i != j implies borrower_views(self.sorted@)[i] != borrower_views(self.sorted@)[j] by {
            if i < j {
                lemma_lex_lt_asymmetric(self.sorted@[i]@, self.sorted@[j]@);
            } else {
                lemma_lex_lt_asymmetric(self.sorted@[j]@, self.sorted@[i]@);
            }
        }
    }

    /// The borrowers in ascending address order, each once.
    pub fn into_sorted_vec(self) -> (addrs: Vec<Address>)
        ensures
            strictly_ascending(addrs@),
            borrower_views(addrs@).to_set() == self@,
    {
        proof {
            use_type_invariant(&self);
        }
        self.sorted
    }
}

} // verus!
