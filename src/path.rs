//! The bucket path of a box, from the geohashes of its two corners.
use vstd::prelude::*;
use vstd::string::*;
use crate::region::{ascii_lower, box_for, is_base32, shape_of, BoxShape, Quadrant};

verus! {

/// Whether `p` is the longest common prefix of `a` and `b`, compared and
/// written in ASCII lower case.
pub open spec fn is_common_prefix(p: Seq<char>, a: Seq<char>, b: Seq<char>) -> bool {
    &&& p.len() <= a.len()
    &&& p.len() <= b.len()
    &&& forall|i: int|
        0 <= i < p.len() ==> p[i] == ascii_lower(a[i]) && p[i] == ascii_lower(b[i])
    &&& (p.len() == a.len() || p.len() == b.len() || ascii_lower(a[p.len() as int])
        != ascii_lower(b[p.len() as int]))
}

/// The longest common prefix of `a` and `b` in ASCII lower case.
pub open spec fn common_prefix(a: Seq<char>, b: Seq<char>) -> Seq<char>
    decreases a.len(),
{
    if a.len() == 0 || b.len() == 0 || ascii_lower(a[0]) != ascii_lower(b[0]) {
        Seq::empty()
    } else {
        seq![ascii_lower(a[0])] + common_prefix(a.drop_first(), b.drop_first())
    }
}

/// A prefix with the defining properties is the common prefix.
proof fn lemma_common_prefix_unique(p: Seq<char>, a: Seq<char>, b: Seq<char>)
    requires
        is_common_prefix(p, a, b),
    ensures
        p == common_prefix(a, b),
    decreases a.len(),
{
    if p.len() > 0 {
        let (p1, a1, b1) = (p.drop_first(), a.drop_first(), b.drop_first());
        assert forall|i: int| 0 <= i < p1.len() implies p1[i] == ascii_lower(a1[i]) && p1[i]
            == ascii_lower(b1[i]) by {
            assert(p[i + 1] == ascii_lower(a[i + 1]));
            assert(p[i + 1] == ascii_lower(b[i + 1]));
        }
        assert(p[0] == ascii_lower(a[0]));
        assert(p[0] == ascii_lower(b[0]));
        lemma_common_prefix_unique(p1, a1, b1);
        assert(p =~= seq![p[0]] + p1);
    }
}

/// The characters of `p` joined by '/'.
pub open spec fn slash_path(p: Seq<char>) -> Seq<char>
    decreases p.len(),
{
    if p.len() <= 1 {
        p
    } else {
        slash_path(p.drop_last()) + seq!['/', p.last()]
    }
}

/// The name of a quadrant.
pub open spec fn quadrant_label(q: Quadrant) -> Seq<char> {
    match q {
        Quadrant::NE => seq!['N', 'E'],
        Quadrant::NW => seq!['N', 'W'],
        Quadrant::SE => seq!['S', 'E'],
        Quadrant::SW => seq!['S', 'W'],
    }
}

/// The name of a region wider than one cell.
pub open spec fn shape_label(s: BoxShape) -> Seq<char> {
    match s {
        BoxShape::SingleCell(c) => seq![c],
        BoxShape::Global => seq!['G', 'l', 'o', 'b', 'a', 'l'],
        BoxShape::All => seq!['A', 'l', 'l'],
        BoxShape::North => seq!['N', 'o', 'r', 't', 'h'],
        BoxShape::South => seq!['S', 'o', 'u', 't', 'h'],
        BoxShape::East => seq!['E', 'a', 's', 't'],
        BoxShape::West => seq!['W', 'e', 's', 't'],
        BoxShape::Within(q) => quadrant_label(q),
    }
}

/// Relies on String::push: the character is appended at the end.
#[verifier::external_body]
fn push_char(s: &mut String, c: char)
    ensures
        final(s)@ == old(s)@.push(c),
{
    s.push(c);
}

/// The longest common prefix of two strings, compared and returned in ASCII
/// lower case.
pub fn compair(left: &str, right: &str) -> (r: String)
    ensures
        r@ == common_prefix(left@, right@),
{
    let n = left.unicode_len();
    let m = right.unicode_len();
    let mut out = String::new();
    let mut i: usize = 0;
    let mut differs = false;
    while i < n && i < m && !differs
        invariant
            differs ==> i < n && i < m && ascii_lower(left@[i as int]) != ascii_lower(
                right@[i as int],
            ),
            n == left@.len(),
            m == right@.len(),
            i <= n,
            i <= m,
            out@.len() == i,
            forall|j: int|
                0 <= j < i ==> out@[j] == ascii_lower(left@[j]) && out@[j] == ascii_lower(
                    right@[j],
                ),
        decreases n - i + (if differs { 0int } else { 1int }),
    {
        let l = crate::region::lower_ascii(left.get_char(i));
        let r = crate::region::lower_ascii(right.get_char(i));
        if l != r {
            differs = true;
        } else {
            push_char(&mut out, l);
            i = i + 1;
        }
    }
    proof {
        lemma_common_prefix_unique(out@, left@, right@);
    }
    out
}

/// The name of a shape wider than one cell, as a string.
fn label_string(s: BoxShape) -> (r: String)
    requires
        !(s is SingleCell),
    ensures
        r@ == shape_label(s),
{
    let text = match s {
        BoxShape::Global => "Global",
        BoxShape::All => "All",
        BoxShape::North => "North",
        BoxShape::South => "South",
        BoxShape::East => "East",
        BoxShape::West => "West",
        BoxShape::Within(Quadrant::NE) => "NE",
        BoxShape::Within(Quadrant::NW) => "NW",
        BoxShape::Within(Quadrant::SE) => "SE",
        BoxShape::Within(Quadrant::SW) => "SW",
        BoxShape::SingleCell(_) => "",
    };
    proof {
        reveal_strlit("Global");
        reveal_strlit("All");
        reveal_strlit("North");
        reveal_strlit("South");
        reveal_strlit("East");
        reveal_strlit("West");
        reveal_strlit("NE");
        reveal_strlit("NW");
        reveal_strlit("SE");
        reveal_strlit("SW");
    }
    let r = String::from_str(text);
    proof {
        assert(r@ =~= shape_label(s));
    }
    r
}

/// The characters of a string joined by '/'.
fn join_slash(p: &str) -> (r: String)
    ensures
        r@ == slash_path(p@),
{
    let n = p.unicode_len();
    let mut out = String::new();
    let mut i: usize = 0;
    while i < n
        invariant
            n == p@.len(),
            i <= n,
            out@ == slash_path(p@.subrange(0, i as int)),
        decreases n - i,
    {
        let c = p.get_char(i);
        proof {
            let next = p@.subrange(0, i + 1);
            assert(next.drop_last() =~= p@.subrange(0, i as int));
            assert(next.last() == c);
        }
        if i > 0 {
            push_char(&mut out, '/');
        }
        push_char(&mut out, c);
        proof {
            if i == 0 {
                assert(out@ =~= p@.subrange(0, 1));
            } else {
                assert(out@ =~= slash_path(p@.subrange(0, i + 1)));
            }
        }
        i = i + 1;
    }
    proof {
        assert(p@.subrange(0, n as int) =~= p@);
    }
    out
}

/// The bucket path for a box whose corners have the two geohashes: the
/// shared prefix as a '/'-joined path when both start with the same
/// character, else the name of the region that the box spans.
pub open spec fn bucket_path(hash1: Seq<char>, hash2: Seq<char>) -> Seq<char> {
    match shape_of(hash1[0], hash2[0]) {
        Ok(BoxShape::SingleCell(_)) => slash_path(common_prefix(hash1, hash2)),
        Ok(s) => shape_label(s),
        Err(_) => Seq::empty(),
    }
}

/// Whether a string can stand as a corner geohash: it is not empty and it
/// starts with an alphabet character.
pub open spec fn is_corner_hash(h: Seq<char>) -> bool {
    h.len() > 0 && is_base32(h[0])
}

/// The bucket path of the box between two corner geohashes.
pub fn hash_to_path(hash1: &str, hash2: &str) -> (r: String)
    requires
        is_corner_hash(hash1@),
        is_corner_hash(hash2@),
    ensures
        r@ == bucket_path(hash1@, hash2@),
{
    let shape = box_for(hash1.get_char(0), hash2.get_char(0));
    match shape {
        Ok(BoxShape::SingleCell(_)) => {
            let prefix = compair(hash1, hash2);
            join_slash(prefix.as_str())
        },
        Ok(s) => label_string(s),
        Err(_) => String::new(),
    }
}


/// A string in ASCII lower case.
pub open spec fn lower_seq(h: Seq<char>) -> Seq<char> {
    h.map_values(|c: char| ascii_lower(c))
}

proof fn lemma_common_prefix_self(h: Seq<char>)
    ensures
        common_prefix(h, h) == lower_seq(h),
    decreases h.len(),
{
    if h.len() > 0 {
        lemma_common_prefix_self(h.drop_first());
        assert(lower_seq(h) =~= seq![ascii_lower(h[0])] + lower_seq(h.drop_first()));
    }
}

/// Both corners in one geohash give the whole geohash, in lower case, as a
/// '/'-joined path.
pub proof fn lemma_same_hash_full_path(h: Seq<char>)
    requires
        is_corner_hash(h),
    ensures
        bucket_path(h, h) == slash_path(lower_seq(h)),
{
    lemma_common_prefix_self(h);
}

} // verus!
