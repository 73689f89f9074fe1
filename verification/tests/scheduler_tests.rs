use kago::models::Resources;
use kago::scheduler::{
    parse_scheduling_strategy, NodeCacheEntry, Scheduler, SchedulingStrategy,
};

fn two_nodes() -> Vec<NodeCacheEntry> {
    vec![
        NodeCacheEntry {
            name: "w1".to_string(),
            endpoint: "http://w1:8081".to_string(),
            available: Resources {
                cpu_millis: 1000,
                memory_mb: 1096,
            },
            capacity: Resources {
                cpu_millis: 4000,
                memory_mb: 4096,
            },
        },
        NodeCacheEntry {
            name: "w2".to_string(),
            endpoint: "http://w2:8081".to_string(),
            available: Resources {
                cpu_millis: 3500,
                memory_mb: 3596,
            },
            capacity: Resources {
                cpu_millis: 4000,
                memory_mb: 4096,
            },
        },
    ]
}

const REQ: Resources = Resources {
    cpu_millis: 500,
    memory_mb: 512,
};

#[test]
fn test_first_fit_picks_first_in_sorted_order() {
    let cache = two_nodes();
    let scheduler = Scheduler::new();
    assert_eq!(scheduler.strategy, SchedulingStrategy::FirstFit);
    assert_eq!(scheduler.select_node(&cache, &REQ), Some(0));
}

#[test]
fn test_best_fit_picks_tighter_node() {
    let cache = two_nodes();
    let scheduler = Scheduler::new().with_strategy(SchedulingStrategy::BestFit);
    assert_eq!(scheduler.score_best_fit(&cache[0], &REQ), 173);
    assert_eq!(scheduler.score_best_fit(&cache[1], &REQ), 49);
    assert_eq!(scheduler.select_node(&cache, &REQ), Some(0));
}

#[test]
fn test_least_allocated_picks_emptier_node() {
    let cache = two_nodes();
    let scheduler = Scheduler::new().with_strategy(SchedulingStrategy::LeastAllocated);
    assert_eq!(scheduler.score_least_allocated(&cache[0], &REQ), 26);
    assert_eq!(scheduler.score_least_allocated(&cache[1], &REQ), 150);
    assert_eq!(scheduler.select_node(&cache, &REQ), Some(1));
}

#[test]
fn test_balanced_picks_emptier_node() {
    let cache = two_nodes();
    let scheduler = Scheduler::new().with_strategy(SchedulingStrategy::Balanced);
    assert_eq!(scheduler.score_balanced(&cache[0], &REQ), 26);
    assert_eq!(scheduler.score_balanced(&cache[1], &REQ), 150);
    assert_eq!(scheduler.select_node(&cache, &REQ), Some(1));
}

#[test]
fn test_no_node_fits() {
    let cache = two_nodes();
    let scheduler = Scheduler::new();
    let huge = Resources {
        cpu_millis: 10_000,
        memory_mb: 10_000,
    };
    assert_eq!(scheduler.select_node(&cache, &huge), None);
}

#[test]
fn test_filter_skips_full_node() {
    let cache = two_nodes();
    let scheduler = Scheduler::new();
    let wide = Resources {
        cpu_millis: 2000,
        memory_mb: 2000,
    };
    // Only the second node has room; FirstFit must skip the first.
    assert_eq!(scheduler.select_node(&cache, &wide), Some(1));
}

#[test]
fn test_ties_keep_first_node() {
    let mut cache = two_nodes();
    // Make the second node identical to the first: every score ties, and
    // the earlier node must win under every strategy.
    cache[1].available = cache[0].available;
    for strategy in [
        SchedulingStrategy::FirstFit,
        SchedulingStrategy::BestFit,
        SchedulingStrategy::LeastAllocated,
        SchedulingStrategy::Balanced,
    ] {
        let scheduler = Scheduler::new().with_strategy(strategy);
        assert_eq!(scheduler.select_node(&cache, &REQ), Some(0));
    }
}

#[test]
fn test_reserve_and_release() {
    let mut entry = two_nodes().remove(0);
    entry.reserve(&REQ);
    assert_eq!(entry.available.cpu_millis, 500);
    assert_eq!(entry.available.memory_mb, 584);
    entry.release(&REQ);
    assert_eq!(entry.available.cpu_millis, 1000);
    assert_eq!(entry.available.memory_mb, 1096);
}

#[test]
fn test_parse_scheduling_strategy_names() {
    assert_eq!(
        parse_scheduling_strategy("first-fit"),
        Ok(SchedulingStrategy::FirstFit)
    );
    assert_eq!(
        parse_scheduling_strategy("FirstFit"),
        Ok(SchedulingStrategy::FirstFit)
    );
    assert_eq!(
        parse_scheduling_strategy("bin-packing"),
        Ok(SchedulingStrategy::BestFit)
    );
    assert_eq!(
        parse_scheduling_strategy("spread"),
        Ok(SchedulingStrategy::LeastAllocated)
    );
    assert_eq!(
        parse_scheduling_strategy("BALANCE"),
        Ok(SchedulingStrategy::Balanced)
    );
    assert_eq!(
        parse_scheduling_strategy("round-robin"),
        Err(
            "Unknown scheduling strategy 'round-robin'. Available: first-fit, best-fit, \
             least-allocated, balanced"
                .to_string()
        )
    );
}
