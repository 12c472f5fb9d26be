//! Health tiers of borrower positions, and the scanner that counts them and
//! picks out the liquidatable ones.

use vstd::prelude::*;

verus! {

/// Coarse health bucket used to prioritise scanning work.
#[derive(Debug, Clone, Copy, PartialEq, Eq, Structural)]
pub enum Health {
    /// Health factor below 1.0: liquidatable now.
    Hot,
    /// Close to the threshold; watch closely.
    Warm,
    /// Comfortably collateralised.
    Cold,
}

/// Number of positions per health tier.
#[derive(Debug, Clone, Copy, PartialEq, Eq, Structural)]
pub struct TierCounts {
    pub hot: usize,
    pub warm: usize,
    pub cold: usize,
}

impl Default for TierCounts {
    fn default() -> (c: Self)
        ensures
            c.hot == 0 && c.warm == 0 && c.cold == 0,
    {
        TierCounts { hot: 0, warm: 0, cold: 0 }
    }
}

/// Number of entries of `healths` in tier `tier`.
pub open spec fn tier_count(healths: Seq<Health>, tier: Health) -> nat
    decreases healths.len(),
{
    if healths.len() == 0 {
        0
    } else {
        tier_count(healths.drop_last(), tier) + if healths.last() == tier {
            1nat
        } else {
            0nat
        }
    }
}

/// Indices of the Hot entries of `healths`, in order.
pub open spec fn hot_indices(healths: Seq<Health>) -> Seq<int>
    decreases healths.len(),
{
    if healths.len() == 0 {
        Seq::empty()
    } else if healths.last() == Health::Hot {
        hot_indices(healths.drop_last()).push(healths.len() - 1)
    } else {
        hot_indices(healths.drop_last())
    }
}

/// The count of a tier is the number of entries equal to that tier: none in
/// an empty sequence, and appending an entry raises its own tier's count by
/// one and leaves every other tier's count as it was.
pub proof fn lemma_tier_count_counts_entries(healths: Seq<Health>, tier: Health, next: Health)
    ensures
        tier_count(healths, tier) == healths.filter(|h: Health| h == tier).len(),
        tier_count(Seq::<Health>::empty(), tier) == 0,
        tier_count(healths.push(next), tier) == tier_count(healths, tier) + if next == tier {
            1int
        } else {
            0int
        },
    decreases healths.len(),
{
    broadcast use Seq::lemma_filter_len_push;

    assert(healths.push(next).drop_last() =~= healths);
    if healths.len() == 0 {
        reveal(Seq::filter);
    } else {
        let rest = healths.drop_last();
        lemma_tier_count_counts_entries(rest, tier, healths.last());
        assert(rest.push(healths.last()) =~= healths);
    }
}

/// The tier counts never exceed the number of entries.
proof fn lemma_tier_count_bound(healths: Seq<Health>, tier: Health)
    ensures
        tier_count(healths, tier) <= healths.len(),
    decreases healths.len(),
{
    if healths.len() > 0 {
        lemma_tier_count_bound(healths.drop_last(), tier);
    }
}

/// The Hot indices pick out exactly the entries whose tier is Hot, each
/// once, in increasing order: the liquidatable positions are the Hot ones,
/// in input order.
pub proof fn lemma_hot_indices_exact(healths: Seq<Health>)
    ensures
        forall|k: int|
            0 <= k < hot_indices(healths).len() ==> 0 <= #[trigger] hot_indices(healths)[k]
                < healths.len() && healths[hot_indices(healths)[k]] == Health::Hot,
        forall|k: int, l: int|
            0 <= k < l < hot_indices(healths).len() ==> #[trigger] hot_indices(healths)[k]
                < #[trigger] hot_indices(healths)[l],
        forall|j: int|
            0 <= j < healths.len() && #[trigger] healths[j] == Health::Hot ==> hot_indices(
                healths,
            ).contains(j),
    decreases healths.len(),
{
    if healths.len() > 0 {
        let rest = healths.drop_last();
        lemma_hot_indices_exact(rest);
        let before = hot_indices(rest);
        assert forall|j: int| 0 <= j < healths.len() && #[trigger] healths[j] == Health::Hot implies hot_indices(
            healths,
        ).contains(j) by {
            if j < healths.len() - 1 {
                assert(rest[j] == healths[j]);
                let k = choose|k: int| 0 <= k < before.len() && before[k] == j;
                assert(hot_indices(healths)[k] == j);
            } else {
                assert(hot_indices(healths)[before.len() as int] == j);
            }
        }
    }
}

/// Health scanning over classified positions.
pub struct HealthScanner;

impl HealthScanner {
    /// Positions that are liquidatable right now: those whose health tier is
    /// Hot (health factor below 1.0), in order. `healths[i]` is the tier of
    /// `positions[i]`.
    pub fn liquidatable<'a, T>(positions: &'a [T], healths: &[Health]) -> (liq: Vec<&'a T>)
        requires
            positions@.len() == healths@.len(),
        ensures
            liq@.len() == hot_indices(healths@).len(),
            liq@.len() == tier_count(healths@, Health::Hot),
            forall|i: int|
                0 <= i < liq@.len() ==> *liq@[i] == positions@[#[trigger] hot_indices(
                    healths@,
                )[i]],
    {
        let mut liq: Vec<&'a T> = Vec::new();
        let mut i: usize = 0;
        while i < healths.len()
            invariant
                positions@.len() == healths@.len(),
                0 <= i <= healths@.len(),
                liq@.len() == hot_indices(healths@.take(i as int)).len(),
                forall|k: int|
                    0 <= k < liq@.len() ==> *liq@[k] == positions@[#[trigger] hot_indices(
                        healths@.take(i as int),
                    )[k]],
            decreases healths@.len() - i,
        {
            proof {
                assert(healths@.take(i + 1).drop_last() =~= healths@.take(i as int));
            }
            if healths[i] == Health::Hot {
                liq.push(&positions[i]);
            }
            i = i + 1;
        }
        proof {
            assert(healths@.take(healths@.len() as int) =~= healths@);
            lemma_tiers_partition_positions(healths@);
        }
        liq
    }

    /// Count positions per health tier, from their tiers.
    pub fn tier_counts(healths: &[Health]) -> (counts: TierCounts)
        ensures
            counts.hot == tier_count(healths@, Health::Hot),
            counts.warm == tier_count(healths@, Health::Warm),
            counts.cold == tier_count(healths@, Health::Cold),
            counts.hot == healths@.filter(|h: Health| h == Health::Hot).len(),
            counts.warm == healths@.filter(|h: Health| h == Health::Warm).len(),
            counts.cold == healths@.filter(|h: Health| h == Health::Cold).len(),
    {
        let mut counts = TierCounts::default();
        let mut i: usize = 0;
        while i < healths.len()
            invariant
                0 <= i <= healths@.len(),
                counts.hot == tier_count(healths@.take(i as int), Health::Hot),
                counts.warm == tier_count(healths@.take(i as int), Health::Warm),
                counts.cold == tier_count(healths@.take(i as int), Health::Cold),
            decreases healths@.len() - i,
        {
            proof {
                assert(healths@.take(i + 1).drop_last() =~= healths@.take(i as int));
                lemma_tier_count_bound(healths@.take(i as int), Health::Hot);
                lemma_tier_count_bound(healths@.take(i as int), Health::Warm);
                lemma_tier_count_bound(healths@.take(i as int), Health::Cold);
            }
            match healths[i] {
                Health::Hot => counts.hot = counts.hot + 1,
                Health::Warm => counts.warm = counts.warm + 1,
                Health::Cold => counts.cold = counts.cold + 1,
            }
            i = i + 1;
        }
        proof {
            assert(healths@.take(healths@.len() as int) =~= healths@);
            lemma_tier_count_counts_entries(healths@, Health::Hot, Health::Hot);
            lemma_tier_count_counts_entries(healths@, Health::Warm, Health::Hot);
            lemma_tier_count_counts_entries(healths@, Health::Cold, Health::Hot);
        }
        counts
    }
}

/// Every position falls in exactly one tier, and the liquidatable positions
/// are exactly the Hot ones: the tier counts add up to the number of
/// positions, and the liquidatable list is as long as the Hot count.
pub proof fn lemma_tiers_partition_positions(healths: Seq<Health>)
    ensures
        tier_count(healths, Health::Hot) + tier_count(healths, Health::Warm) + tier_count(
            healths,
            Health::Cold,
        ) == healths.len(),
        hot_indices(healths).len() == tier_count(healths, Health::Hot),
    decreases healths.len(),
{
    if healths.len() > 0 {
        lemma_tiers_partition_positions(healths.drop_last());
    }
}

} // verus!
