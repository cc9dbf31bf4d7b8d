use vstd::prelude::*;
use vstd::seq_lib::group_seq_properties;
use vstd::seq_lib::lemma_multiset_commutative;

use crate::sheep::Sheep;

verus! {

/// How many parallel segments a full-table scan is fanned into: one segment
/// per hundred thousand estimated records, at least one, capped at a million.
/// The cap keeps a wildly stale estimate from spawning more workers than
/// pages.
pub open spec fn spec_segment_count(approx_table_size: u64) -> int {
    let c: int = 1 + approx_table_size / 100_000;
    if c < 1_000_000 {
        c
    } else {
        1_000_000
    }
}

/// Size the scan: the number of segment workers for an estimated table size.
pub fn compute_segment_count(approx_table_size: u64) -> (r: u64)
    ensures
        r == spec_segment_count(approx_table_size),
        1 <= r <= 1_000_000,
{
    let c: u64 = 1 + approx_table_size / 100_000;
    if c < 1_000_000 {
        c
    } else {
        1_000_000
    }
}

/// What one scan — a segment's, or the whole table's — has gathered so far:
/// a running count, and in full mode the records themselves.
pub struct ScanAccumulator {
    pub count: usize,
    pub items: Option<Vec<Sheep>>,
}

impl ScanAccumulator {
    /// An empty accumulator, counting only or gathering records.
    pub fn new(count_only: bool) -> (r: Self)
        ensures
            r.count == 0,
            count_only ==> r.items is None,
            !count_only ==> (r.items matches Some(v) && v@ == Seq::<Sheep>::empty()),
    {
        if count_only {
            ScanAccumulator { count: 0, items: None }
        } else {
            ScanAccumulator { count: 0, items: Some(Vec::new()) }
        }
    }

    /// Fold one page of backend results into the accumulator: the page's
    /// count is added, and its records, if the scan gathers records, are
    /// appended in page order.
    pub fn absorb_page(&mut self, page_count: usize, page_items: Option<Vec<Sheep>>)
        requires
            old(self).count + page_count <= usize::MAX,
            old(self).items is Some <==> page_items is Some,
        ensures
            final(self).count == old(self).count + page_count,
            match (old(self).items, page_items, final(self).items) {
                (Some(ov), Some(pv), Some(nv)) => nv@ == ov@ + pv@,
                (None, None, None) => true,
                _ => false,
            },
    {
        self.count = self.count + page_count;
        match page_items {
            Some(mut pv) => match &mut self.items {
                Some(v) => {
                    v.append(&mut pv);
                },
                None => {
                    proof {
                        assert(false);
                    }
                },
            },
            None => {},
        }
    }

    /// Join a finished segment's accumulator into the merged total: counts
    /// add up, record lists concatenate.
    pub fn merge(&mut self, segment: ScanAccumulator)
        requires
            old(self).count + segment.count <= usize::MAX,
            old(self).items is Some <==> segment.items is Some,
        ensures
            final(self).count == old(self).count + segment.count,
            match (old(self).items, segment.items, final(self).items) {
                (Some(ov), Some(pv), Some(nv)) => nv@ == ov@ + pv@,
                (None, None, None) => true,
                _ => false,
            },
    {
        self.absorb_page(segment.count, segment.items);
    }
}

/// The total length of a family of segments.
pub open spec fn sum_lens(segments: Seq<Seq<Sheep>>) -> int
    decreases segments.len(),
{
    if segments.len() == 0 {
        0
    } else {
        segments.first().len() + sum_lens(segments.drop_first())
    }
}

/// Flattening a family of segments yields as many records as the segments
/// hold together.
proof fn lemma_flatten_len(segments: Seq<Seq<Sheep>>)
    ensures
        segments.flatten().len() == sum_lens(segments),
    decreases segments.len(),
{
    if segments.len() > 0 {
        lemma_flatten_len(segments.drop_first());
    }
}

/// Scan merge correctness: however the table's records are split into
/// segments — any number of them, in any order, as long as every record
/// lands in exactly one segment — the summed per-segment counts equal the
/// table's count, and the concatenated per-segment results, read as a set,
/// are exactly the table's records.
pub proof fn lemma_scan_merge(segments: Seq<Seq<Sheep>>, table: Seq<Sheep>)
    requires
        segments.flatten().to_multiset() == table.to_multiset(),
    ensures
        sum_lens(segments) == table.len(),
        segments.flatten().to_set() == table.to_set(),
{
    broadcast use vstd::seq_lib::group_to_multiset_ensures;

    lemma_flatten_len(segments);
    assert(segments.flatten().len() == segments.flatten().to_multiset().len());
    assert(table.len() == table.to_multiset().len());
    assert(segments.flatten().to_set() =~= table.to_set()) by {
        assert forall|s: Sheep| #[trigger] segments.flatten().contains(s) implies table.contains(
            s,
        ) by {
            assert(segments.flatten().to_multiset().count(s) > 0);
        }
        assert forall|s: Sheep| #[trigger] table.contains(s) implies segments.flatten().contains(
            s,
        ) by {
            assert(table.to_multiset().count(s) > 0);
        }
    }
}

/// The per-residue partition of a record list: segment `g` gets the records
/// whose tattoo leaves remainder `g` modulo the segment count, in list
/// order. This is a disjoint and exhaustive split of the key space.
pub open spec fn spec_partition(records: Seq<Sheep>, segment_count: u64) -> Seq<Seq<Sheep>> {
    Seq::new(
        segment_count as nat,
        |g: int| records.filter(|s: Sheep| s.tattoo.0 % segment_count == g),
    )
}

/// A family of empty segments flattens to nothing.
proof fn lemma_flatten_all_empty(segments: Seq<Seq<Sheep>>)
    requires
        forall|g: int| 0 <= g < segments.len() ==> (#[trigger] segments[g]).len() == 0,
    ensures
        segments.flatten() =~= Seq::<Sheep>::empty(),
    decreases segments.len(),
{
    if segments.len() > 0 {
        assert(segments.first() =~= Seq::<Sheep>::empty());
        lemma_flatten_all_empty(segments.drop_first());
    }
}

/// Replacing one segment of a family by that segment with one more record
/// appended grows the flattened multiset by exactly that record.
proof fn lemma_flatten_multiset_push_one(
    x: Seq<Seq<Sheep>>,
    y: Seq<Seq<Sheep>>,
    c: int,
    e: Sheep,
)
    requires
        x.len() == y.len(),
        0 <= c < x.len(),
        x[c] == y[c].push(e),
        forall|i: int| 0 <= i < x.len() && i != c ==> x[i] == y[i],
    ensures
        x.flatten().to_multiset() =~= y.flatten().to_multiset().insert(e),
    decreases x.len(),
{
    broadcast use vstd::seq_lib::group_to_multiset_ensures;
    broadcast use vstd::multiset::group_multiset_axioms;

    lemma_multiset_commutative(x.first(), x.drop_first().flatten());
    lemma_multiset_commutative(y.first(), y.drop_first().flatten());
    if c == 0 {
        assert(x.drop_first() =~= y.drop_first());
        assert(x.first().to_multiset() =~= y.first().to_multiset().insert(e));
        assert(x.flatten().to_multiset() =~= y.flatten().to_multiset().insert(e));
    } else {
        assert(x.first() == y.first());
        lemma_flatten_multiset_push_one(x.drop_first(), y.drop_first(), c - 1, e);
        assert(x.flatten().to_multiset() =~= y.flatten().to_multiset().insert(e));
    }
}

/// The residue partition loses nothing and invents nothing: flattened back
/// together, the segments hold exactly the records that went in.
pub proof fn lemma_partition_is_partition(records: Seq<Sheep>, segment_count: u64)
    requires
        1 <= segment_count,
    ensures
        spec_partition(records, segment_count).flatten().to_multiset() == records.to_multiset(),
    decreases records.len(),
{
    broadcast use vstd::seq_lib::group_to_multiset_ensures;
    broadcast use group_seq_properties;

    let parts = spec_partition(records, segment_count);
    if records.len() == 0 {
        assert forall|g: int| 0 <= g < parts.len() implies parts[g] =~= Seq::<Sheep>::empty() by {
            reveal_with_fuel(Seq::filter, 2);
        }
        lemma_flatten_all_empty(parts);
        assert(parts.flatten().to_multiset() =~= records.to_multiset());
    } else {
        let head = records.drop_last();
        let e = records.last();
        let c = (e.tattoo.0 % segment_count) as int;
        lemma_partition_is_partition(head, segment_count);
        let hparts = spec_partition(head, segment_count);
        assert forall|g: int| 0 <= g < segment_count implies #[trigger] parts[g] == (if g == c {
            hparts[g].push(e)
        } else {
            hparts[g]
        }) by {
            reveal_with_fuel(Seq::filter, 1);
            let pred = |s: Sheep| s.tattoo.0 % segment_count == g;
            assert(records.filter(pred) == if pred(e) {
                head.filter(pred).push(e)
            } else {
                head.filter(pred)
            });
        }
        lemma_flatten_multiset_push_one(parts, hparts, c, e);
        assert(head.push(e) =~= records);
        assert(records.to_multiset() =~= head.to_multiset().insert(e));
        assert(parts.flatten().to_multiset() =~= records.to_multiset());
    }
}

/// Split records into segments by their tattoo's residue: the executable
/// counterpart of [`spec_partition`], segment by segment.
pub fn partition_by_tattoo(records: &Vec<Sheep>, segment_count: u64) -> (r: Vec<Vec<Sheep>>)
    requires
        1 <= segment_count,
        segment_count <= usize::MAX,
    ensures
        r@.len() == segment_count,
        forall|g: int| 0 <= g < segment_count ==> (#[trigger] r@[g])@ == spec_partition(
            records@,
            segment_count,
        )[g],
{
    let mut r: Vec<Vec<Sheep>> = Vec::new();
    let mut g: u64 = 0;
    while g < segment_count
        invariant
            g <= segment_count,
            r@.len() == g,
            forall|h: int| 0 <= h < g ==> (#[trigger] r@[h])@ == records@.filter(
                |s: Sheep| s.tattoo.0 % segment_count == h,
            ),
        decreases segment_count - g,
    {
        let mut seg: Vec<Sheep> = Vec::new();
        let mut i: usize = 0;
        while i < records.len()
            invariant
                i <= records@.len(),
                seg@ == records@.take(i as int).filter(
                    |s: Sheep| s.tattoo.0 % segment_count == g as int,
                ),
                1 <= segment_count,
            decreases records@.len() - i,
        {
            let s = records[i];
            proof {
                let pred = |s: Sheep| s.tattoo.0 % segment_count == g as int;
                assert(records@.take(i + 1).drop_last() =~= records@.take(i as int));
                assert(records@.take(i + 1).last() == records@[i as int]);
                reveal_with_fuel(Seq::filter, 1);
                assert(records@.take(i + 1).filter(pred) == if pred(records@[i as int]) {
                    records@.take(i as int).filter(pred).push(records@[i as int])
                } else {
                    records@.take(i as int).filter(pred)
                });
            }
            if s.tattoo.0 % segment_count == g {
                seg.push(s);
            }
            i = i + 1;
        }
        proof {
            assert(records@.take(records@.len() as int) =~= records@);
        }
        r.push(seg);
        g = g + 1;
    }
    proof {
        assert forall|gg: int| 0 <= gg < segment_count implies (#[trigger] r@[gg])@
            == spec_partition(records@, segment_count)[gg] by {
        }
    }
    r
}

} // verus!
