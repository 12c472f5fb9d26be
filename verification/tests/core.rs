use undertow::health::{Health, HealthScanner, TierCounts};
use undertow::queue::{take_batch, BatchConfig, Opportunity, OpportunityQueue};

fn opp(profit: i64) -> Opportunity<&'static str> {
    Opportunity {
        position: "test",
        profit_rank: profit,
    }
}

#[test]
fn pops_most_profitable_first() {
    let mut q = OpportunityQueue::new();
    q.push(opp(10));
    q.push(opp(100));
    q.push(opp(50));
    assert_eq!(q.len(), 3);
    assert_eq!(q.pop_best().unwrap().profit_rank, 100);
    assert_eq!(q.pop_best().unwrap().profit_rank, 50);
    assert_eq!(q.pop_best().unwrap().profit_rank, 10);
    assert!(q.is_empty());
}

#[test]
fn pop_best_on_empty_queue_is_none() {
    let mut q: OpportunityQueue<&'static str> = OpportunityQueue::new();
    assert!(q.pop_best().is_none());
    assert!(q.is_empty());
    assert_eq!(q.len(), 0);
}

#[test]
fn negative_profits_rank_below_positive() {
    let mut q = OpportunityQueue::new();
    q.push(opp(-5));
    q.push(opp(0));
    q.push(opp(-50));
    assert_eq!(q.pop_best().unwrap().profit_rank, 0);
    assert_eq!(q.pop_best().unwrap().profit_rank, -5);
    assert_eq!(q.pop_best().unwrap().profit_rank, -50);
}

#[test]
fn takes_best_first_up_to_cap() {
    let mut q = OpportunityQueue::new();
    for p in [10, 100, 50, 5] {
        q.push(opp(p));
    }
    let batch = take_batch(&mut q, 2);
    let profits: Vec<i64> = batch.iter().map(|o| o.profit_rank).collect();
    assert_eq!(profits, vec![100, 50]);
    assert_eq!(q.len(), 2); // remainder stays
}

#[test]
fn cap_larger_than_queue_drains_all() {
    let mut q = OpportunityQueue::new();
    q.push(opp(1));
    q.push(opp(2));
    assert_eq!(take_batch(&mut q, 10).len(), 2);
    assert!(q.is_empty());
}

#[test]
fn zero_cap_takes_nothing() {
    let mut q = OpportunityQueue::new();
    q.push(opp(7));
    assert!(take_batch(&mut q, 0).is_empty());
    assert_eq!(q.len(), 1);
}

#[test]
fn batch_config_default_cap() {
    assert_eq!(BatchConfig::default().max_per_cycle, 4);
}

#[test]
fn finds_liquidatable_and_counts_tiers() {
    // health factors 1.6, 0.888, 1.038, 0.8 fall in these tiers
    let positions = vec!["hf 1.6", "hf 0.888", "hf 1.038", "hf 0.8"];
    let healths = vec![Health::Cold, Health::Hot, Health::Warm, Health::Hot];
    let liq = HealthScanner::liquidatable(&positions, &healths);
    assert_eq!(liq.len(), 2);
    assert_eq!(liq, vec![&"hf 0.888", &"hf 0.8"]);

    let counts = HealthScanner::tier_counts(&healths);
    assert_eq!(
        counts,
        TierCounts {
            hot: 2,
            warm: 1,
            cold: 1
        }
    );
}

#[test]
fn empty_is_all_zero() {
    assert_eq!(HealthScanner::tier_counts(&[]), TierCounts::default());
    let none: Vec<&str> = Vec::new();
    assert!(HealthScanner::liquidatable(&none, &[]).is_empty());
}

#[test]
fn tier_counts_add_up_and_match_liquidatable() {
    let healths = vec![Health::Warm, Health::Hot, Health::Hot, Health::Cold, Health::Hot];
    let positions = vec![1, 2, 3, 4, 5];
    let counts = HealthScanner::tier_counts(&healths);
    assert_eq!(counts.hot + counts.warm + counts.cold, healths.len());
    assert_eq!(HealthScanner::liquidatable(&positions, &healths).len(), counts.hot);
    assert_eq!(HealthScanner::liquidatable(&positions, &healths), vec![&2, &3, &5]);
}

#[test]
fn batch_and_remainder_make_up_the_queue() {
    let mut q = OpportunityQueue::new();
    for p in [3, 9, 1, 9, 4] {
        q.push(opp(p));
    }
    let batch = take_batch(&mut q, 3);
    let ranks: Vec<i64> = batch.iter().map(|o| o.profit_rank).collect();
    assert_eq!(ranks, vec![9, 9, 4]);
    let mut rest = Vec::new();
    while let Some(o) = q.pop_best() {
        rest.push(o.profit_rank);
    }
    assert_eq!(rest, vec![3, 1]);
}
