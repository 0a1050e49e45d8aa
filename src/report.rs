//! Totals over the tallied buckets, split between named regions and cells.
use vstd::prelude::*;
use crate::stats::{compare_keys, KeyOrder};

verus! {

/// Whether a bucket path is the name of a region wider than one cell.
pub open spec fn is_named_region(k: Seq<char>) -> bool {
    k == seq!['G', 'l', 'o', 'b', 'a', 'l'] || k == seq!['A', 'l', 'l'] || k == seq![
        'N',
        'o',
        'r',
        't',
        'h',
    ] || k == seq!['S', 'o', 'u', 't', 'h'] || k == seq!['E', 'a', 's', 't'] || k == seq![
        'W',
        'e',
        's',
        't',
    ] || k == seq!['N', 'E'] || k == seq!['N', 'W'] || k == seq!['S', 'E'] || k == seq!['S', 'W']
}

/// The sum of the counts of the entries whose path is (or, with `named`
/// false, is not) a named region.
pub open spec fn part_sum(e: Seq<(String, u64)>, named: bool) -> nat
    decreases e.len(),
{
    if e.len() == 0 {
        0
    } else {
        part_sum(e.drop_last(), named) + if is_named_region(e.last().0@) == named {
            e.last().1 as nat
        } else {
            0nat
        }
    }
}

/// The number of entries whose path is (or, with `named` false, is not) a
/// named region.
pub open spec fn part_count(e: Seq<(String, u64)>, named: bool) -> nat
    decreases e.len(),
{
    if e.len() == 0 {
        0
    } else {
        part_count(e.drop_last(), named) + if is_named_region(e.last().0@) == named {
            1nat
        } else {
            0nat
        }
    }
}

/// Totals over a list of bucket counts.
#[derive(Clone, Copy, Debug, PartialEq, Eq, Structural)]
pub struct Summary {
    /// The sum of all counts.
    pub total: u128,
    /// The sum of the counts under named regions.
    pub named_total: u128,
    /// How many buckets are named regions.
    pub named_buckets: u64,
    /// The sum of the counts under cell paths.
    pub cell_total: u128,
    /// How many buckets are cell paths.
    pub cell_buckets: u64,
}

/// Whether a path names a region wider than one cell.
pub fn named_region(k: &str) -> (r: bool)
    ensures
        r == is_named_region(k@),
{
    proof {
        reveal_strlit("Global");
        reveal_strlit("All");
        reveal_strlit("North");
        reveal_strlit("South");
        reveal_strlit("East");
        reveal_strlit("West");
        reveal_strlit("NE");
        reveal_strlit("NW");
        reveal_strlit("SE");
        reveal_strlit("SW");
        assert("Global"@ =~= seq!['G', 'l', 'o', 'b', 'a', 'l']);
        assert("All"@ =~= seq!['A', 'l', 'l']);
        assert("North"@ =~= seq!['N', 'o', 'r', 't', 'h']);
        assert("South"@ =~= seq!['S', 'o', 'u', 't', 'h']);
        assert("East"@ =~= seq!['E', 'a', 's', 't']);
        assert("West"@ =~= seq!['W', 'e', 's', 't']);
        assert("NE"@ =~= seq!['N', 'E']);
        assert("NW"@ =~= seq!['N', 'W']);
        assert("SE"@ =~= seq!['S', 'E']);
        assert("SW"@ =~= seq!['S', 'W']);
    }
    compare_keys(k, "Global") == KeyOrder::Equal || compare_keys(k, "All") == KeyOrder::Equal
        || compare_keys(k, "North") == KeyOrder::Equal || compare_keys(k, "South")
        == KeyOrder::Equal || compare_keys(k, "East") == KeyOrder::Equal || compare_keys(k, "West")
        == KeyOrder::Equal || compare_keys(k, "NE") == KeyOrder::Equal || compare_keys(k, "NW")
        == KeyOrder::Equal || compare_keys(k, "SE") == KeyOrder::Equal || compare_keys(k, "SW")
        == KeyOrder::Equal
}

/// Sums the counts of a list of buckets, in all and split between named
/// regions and cell paths.
pub fn summarize(entries: &Vec<(String, u64)>) -> (r: Summary)
    ensures
        r.named_total == part_sum(entries@, true),
        r.named_buckets == part_count(entries@, true),
        r.cell_total == part_sum(entries@, false),
        r.cell_buckets == part_count(entries@, false),
        r.total == r.named_total + r.cell_total,
        r.named_buckets + r.cell_buckets == entries@.len(),
{
    let mut named_total: u128 = 0;
    let mut named_buckets: u64 = 0;
    let mut cell_total: u128 = 0;
    let mut cell_buckets: u64 = 0;
    let mut i: usize = 0;
    while i < entries.len()
        invariant
            0 <= i <= entries@.len(),
            named_total == part_sum(entries@.subrange(0, i as int), true),
            cell_total == part_sum(entries@.subrange(0, i as int), false),
            named_buckets == part_count(entries@.subrange(0, i as int), true),
            cell_buckets == part_count(entries@.subrange(0, i as int), false),
            named_total + cell_total <= i * 0xffff_ffff_ffff_ffffnat,
            named_buckets + cell_buckets == i,
        decreases entries@.len() - i,
    {
        let ghost next = entries@.subrange(0, i + 1);
        proof {
            assert(next.drop_last() =~= entries@.subrange(0, i as int));
        }
        let c = entries[i].1;
        if named_region(entries[i].0.as_str()) {
            named_total = named_total + c as u128;
            named_buckets = named_buckets + 1;
        } else {
            cell_total = cell_total + c as u128;
            cell_buckets = cell_buckets + 1;
        }
        i = i + 1;
    }
    proof {
        assert(entries@.subrange(0, entries@.len() as int) =~= entries@);
    }
    Summary {
        total: named_total + cell_total,
        named_total,
        named_buckets,
        cell_total,
        cell_buckets,
    }
}

/// The whole-number average of `count` buckets that together hold `sum`,
/// rounded down; none for no buckets.
pub fn average(sum: u128, count: u64) -> (r: Option<u128>)
    ensures
        count == 0 <==> r is None,
        count > 0 ==> r == Some((sum / count as u128) as u128),
{
    if count == 0 {
        None
    } else {
        Some(sum / count as u128)
    }
}

} // verus!
