use std::collections::BTreeSet;

use sheep_shed::scan::compute_segment_count;
use sheep_shed::scan::partition_by_tattoo;
use sheep_shed::scan::ScanAccumulator;
use sheep_shed::sheep::Sheep;
use sheep_shed::sheep::Tattoo;
use sheep_shed::sheep::Weight;

fn sheep(id: u64, weight_ug: u64) -> Sheep {
    Sheep {
        tattoo: Tattoo(id),
        weight: Weight::from_ug(weight_ug),
    }
}

fn table() -> Vec<Sheep> {
    (0..57u64).map(|id| sheep(id * 13 + 5, 80_000_000_000 + id)).collect()
}

/// Scan the partition the way the engine would: one accumulator per
/// segment, then a merge across segments.
fn scan_partitioned(table: &Vec<Sheep>, segment_count: u64, count_only: bool) -> ScanAccumulator {
    let mut total = ScanAccumulator::new(count_only);
    for segment in partition_by_tattoo(table, segment_count) {
        let mut acc = ScanAccumulator::new(count_only);
        // each worker pages through its own segment; page size three here
        for page in segment.chunks(3) {
            let items = if count_only { None } else { Some(page.to_vec()) };
            acc.absorb_page(page.len(), items);
        }
        total.merge(acc);
    }
    total
}

fn tattoo_set(items: &[Sheep]) -> BTreeSet<u64> {
    items.iter().map(|s| s.tattoo.0).collect()
}

#[test]
fn segment_counts_sum_to_single_segment_count() {
    let table = table();
    let single = scan_partitioned(&table, 1, true).count;
    assert_eq!(single, table.len());
    for n in [2u64, 5, 17] {
        assert_eq!(scan_partitioned(&table, n, true).count, single);
    }
}

#[test]
fn segment_results_merge_to_single_segment_set() {
    let table = table();
    let single = scan_partitioned(&table, 1, false).items.unwrap();
    assert_eq!(tattoo_set(&single), tattoo_set(&table));
    for n in [2u64, 5, 17] {
        let merged = scan_partitioned(&table, n, false).items.unwrap();
        assert_eq!(tattoo_set(&merged), tattoo_set(&single));
        assert_eq!(merged.len(), single.len());
    }
}

#[test]
fn partition_is_disjoint_and_exhaustive() {
    let table = table();
    let parts = partition_by_tattoo(&table, 5);
    assert_eq!(parts.len(), 5);
    for (g, part) in parts.iter().enumerate() {
        for s in part {
            assert_eq!(s.tattoo.0 % 5, g as u64);
        }
    }
    let merged: usize = parts.iter().map(|p| p.len()).sum();
    assert_eq!(merged, table.len());
}

#[test]
fn segment_count_follows_sizing_heuristic() {
    // one segment per hundred thousand estimated records, at least one
    assert_eq!(compute_segment_count(0), 1);
    assert_eq!(compute_segment_count(99_999), 1);
    assert_eq!(compute_segment_count(100_000), 2);
    assert_eq!(compute_segment_count(1_000_000), 11);
    // capped at a million segments
    assert_eq!(compute_segment_count(u64::MAX), 1_000_000);
}

#[test]
fn accumulator_absorbs_pages_in_order() {
    let mut acc = ScanAccumulator::new(false);
    acc.absorb_page(2, Some(vec![sheep(1, 10), sheep(2, 11)]));
    acc.absorb_page(1, Some(vec![sheep(3, 12)]));
    assert_eq!(acc.count, 3);
    let ids: Vec<u64> = acc.items.unwrap().iter().map(|s| s.tattoo.0).collect();
    assert_eq!(ids, vec![1, 2, 3]);
}

#[test]
fn count_only_accumulator_keeps_no_items() {
    let mut acc = ScanAccumulator::new(true);
    acc.absorb_page(4, None);
    acc.absorb_page(2, None);
    assert_eq!(acc.count, 6);
    assert!(acc.items.is_none());
}
