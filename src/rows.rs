//! Filing the rows of one row group under their bucket paths.
use vstd::prelude::*;
use vstd::string::*;
use crate::path::{bucket_path, hash_to_path, is_corner_hash};
use crate::region::{ascii_lower, quadrant_of, where_region, InvalidCharacter, Quadrant};
use crate::stats::StatsAggregator;

verus! {

/// One row of a geometry column, decoded, with the corners of its bounding
/// box encoded as geohashes.
pub enum Row {
    /// The row holds no value.
    Null,
    /// The bytes are not a geometry.
    DecodeFailed,
    /// A corner lies outside the latitude and longitude ranges.
    InvalidCoordinate,
    /// A kind of geometry that is not filed (a multi-polygon, a collection).
    Unsupported,
    /// A point, with the geohash of its position.
    Point(String),
    /// A line string, with the geohashes of its lower-left and upper-right corners.
    LineString(String, String),
    /// A polygon, with the geohashes of its lower-left and upper-right corners.
    Polygon(String, String),
}

/// What a row group's rows came to.
#[derive(Clone, Copy, Debug, PartialEq, Eq, Structural)]
pub struct RowTally {
    /// Rows counted under a bucket path.
    pub filed: u64,
    /// Rows left out.
    pub skipped: u64,
}

/// The bucket path of a row, if it is filed at all.
pub open spec fn row_path(row: Row) -> Option<Seq<char>> {
    match row {
        Row::Point(h) => if is_corner_hash(h@) {
            Some(bucket_path(h@, h@))
        } else {
            None
        },
        Row::LineString(a, b) | Row::Polygon(a, b) => if is_corner_hash(a@) && is_corner_hash(b@) {
            Some(bucket_path(a@, b@))
        } else {
            None
        },
        _ => None,
    }
}

/// The tally with one more count under `p`.
pub open spec fn bump(m: Map<Seq<char>, nat>, p: Seq<char>) -> Map<Seq<char>, nat> {
    m.insert(p, if m.contains_key(p) { m[p] + 1 } else { 1 })
}

/// The tally after filing the rows in order.
pub open spec fn tally_rows(m: Map<Seq<char>, nat>, rows: Seq<Row>) -> Map<Seq<char>, nat>
    decreases rows.len(),
{
    if rows.len() == 0 {
        m
    } else {
        let before = tally_rows(m, rows.drop_last());
        match row_path(rows.last()) {
            Some(p) => bump(before, p),
            None => before,
        }
    }
}

/// How many of the rows are filed.
pub open spec fn filed_count(rows: Seq<Row>) -> nat
    decreases rows.len(),
{
    if rows.len() == 0 {
        0
    } else {
        filed_count(rows.drop_last()) + if row_path(rows.last()) is Some {
            1nat
        } else {
            0nat
        }
    }
}

proof fn lemma_filed_count_bound(rows: Seq<Row>)
    ensures
        filed_count(rows) <= rows.len(),
    decreases rows.len(),
{
    if rows.len() > 0 {
        lemma_filed_count_bound(rows.drop_last());
    }
}

/// Whether a string is a usable corner geohash.
fn corner_hash_ok(h: &String) -> (r: bool)
    ensures
        r == is_corner_hash(h@),
{
    let s = h.as_str();
    if s.unicode_len() == 0 {
        return false;
    }
    match where_region(s.get_char(0)) {
        Ok(_) => {
            proof {
                crate::region::lemma_quadrants_partition_alphabet(h@[0]);
            }
            true
        },
        Err(_) => {
            proof {
                crate::region::lemma_quadrants_partition_alphabet(h@[0]);
            }
            false
        },
    }
}

/// The bucket path of a row: a point is a box with both corners in one
/// place; line strings and polygons are filed by their bounding box; other
/// rows, and rows whose corner geohashes are unusable, are not filed.
pub fn handle_geometry(row: &Row) -> (r: Option<String>)
    ensures
        r matches Some(p) ==> row_path(*row) == Some(p@),
        r is None ==> row_path(*row) is None,
{
    match row {
        Row::Point(h) => {
            if corner_hash_ok(h) {
                Some(hash_to_path(h.as_str(), h.as_str()))
            } else {
                None
            }
        },
        Row::LineString(a, b) | Row::Polygon(a, b) => {
            if corner_hash_ok(a) && corner_hash_ok(b) {
                Some(hash_to_path(a.as_str(), b.as_str()))
            } else {
                None
            }
        },
        _ => None,
    }
}

/// Files each row of a row group under its bucket path in `stats`, and says
/// how many rows were filed and how many were left out.
pub fn process_row_group(rows: &Vec<Row>, stats: &mut StatsAggregator) -> (r: RowTally)
    requires
        old(stats).wf(),
        old(stats).recorded() + rows@.len() <= u64::MAX,
    ensures
        final(stats).wf(),
        final(stats)@ == tally_rows(old(stats)@, rows@),
        r.filed == filed_count(rows@),
        r.filed + r.skipped == rows@.len(),
        final(stats).recorded() == old(stats).recorded() + r.filed,
{
    let ghost start = stats@;
    let ghost start_recorded = stats.recorded();
    let mut filed: u64 = 0;
    let mut skipped: u64 = 0;
    let mut i: usize = 0;
    while i < rows.len()
        invariant
            stats.wf(),
            0 <= i <= rows@.len(),
            start_recorded + rows@.len() <= u64::MAX,
            stats@ == tally_rows(start, rows@.subrange(0, i as int)),
            filed == filed_count(rows@.subrange(0, i as int)),
            filed + skipped == i,
            stats.recorded() == start_recorded + filed,
        decreases rows@.len() - i,
    {
        let ghost seen = rows@.subrange(0, i as int);
        let ghost next = rows@.subrange(0, i + 1);
        proof {
            assert(next.drop_last() =~= seen);
            lemma_filed_count_bound(seen);
        }
        match handle_geometry(&rows[i]) {
            Some(p) => {
                stats.increment(p);
                filed = filed + 1;
            },
            None => {
                skipped = skipped + 1;
            },
        }
        i = i + 1;
    }
    proof {
        assert(rows@.subrange(0, rows@.len() as int) =~= rows@);
    }
    RowTally { filed, skipped }
}


/// Whether a row is one that is never filed: empty, undecodable, out of
/// range or of an unsupported kind.
pub open spec fn is_skip_row(row: Row) -> bool {
    row is Null || row is DecodeFailed || row is InvalidCoordinate || row is Unsupported
}

/// A row that is never filed leaves the tally and the number of filed rows
/// as they were.
pub proof fn lemma_skip_row_changes_nothing(m: Map<Seq<char>, nat>, rows: Seq<Row>, row: Row)
    requires
        is_skip_row(row),
    ensures
        tally_rows(m, rows.push(row)) == tally_rows(m, rows),
        filed_count(rows.push(row)) == filed_count(rows),
{
    assert(rows.push(row).drop_last() =~= rows);
}

/// Every path that filing adds to a tally is the bucket path of one of the
/// filed rows, so rows that are never filed add no path.
pub proof fn lemma_new_paths_come_from_filed_rows(
    m: Map<Seq<char>, nat>,
    rows: Seq<Row>,
    k: Seq<char>,
)
    requires
        tally_rows(m, rows).contains_key(k),
        !m.contains_key(k),
    ensures
        exists|i: int| 0 <= i < rows.len() && row_path(rows[i]) == Some(k) && !is_skip_row(rows[i]),
    decreases rows.len(),
{
    let before = tally_rows(m, rows.drop_last());
    if before.contains_key(k) {
        lemma_new_paths_come_from_filed_rows(m, rows.drop_last(), k);
        let i = choose|i: int|
            0 <= i < rows.drop_last().len() && row_path(rows.drop_last()[i]) == Some(k)
                && !is_skip_row(rows.drop_last()[i]);
        assert(rows[i] == rows.drop_last()[i]);
    } else {
        assert(row_path(rows.last()) == Some(k));
        assert(rows.last() == rows[rows.len() - 1]);
    }
}


/// A polygon whose lower-left corner lies in the south-west quadrant and
/// whose upper-right corner lies in the north-east one is filed under "All",
/// whatever the rest of the two geohashes holds, unless its corners start
/// with '0' and 'z', which is the whole globe.
pub proof fn lemma_polygon_south_west_to_north_east_is_all(lower_left: String, upper_right: String)
    requires
        lower_left@.len() > 0,
        upper_right@.len() > 0,
        quadrant_of(lower_left@[0]) == Ok::<Quadrant, InvalidCharacter>(Quadrant::SW),
        quadrant_of(upper_right@[0]) == Ok::<Quadrant, InvalidCharacter>(Quadrant::NE),
        !(ascii_lower(lower_left@[0]) == '0' && ascii_lower(upper_right@[0]) == 'z'),
    ensures
        row_path(Row::Polygon(lower_left, upper_right)) == Some(seq!['A', 'l', 'l']),
{
    crate::region::lemma_quadrants_partition_alphabet(lower_left@[0]);
    crate::region::lemma_quadrants_partition_alphabet(upper_right@[0]);
}


/// Filing rows never removes a path nor lowers a count.
pub proof fn lemma_tally_only_grows(m: Map<Seq<char>, nat>, rows: Seq<Row>, k: Seq<char>)
    requires
        m.contains_key(k),
    ensures
        tally_rows(m, rows).contains_key(k),
        tally_rows(m, rows)[k] >= m[k],
    decreases rows.len(),
{
    if rows.len() > 0 {
        lemma_tally_only_grows(m, rows.drop_last(), k);
    }
}

} // verus!
