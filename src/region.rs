//! The four quadrants of the geohash alphabet and the shape of the box that
//! two leading geohash characters span.
use vstd::prelude::*;

verus! {

/// One of the four coarse quarters of the globe, named by the compass.
#[derive(Clone, Copy, Debug, PartialEq, Eq, Structural)]
pub enum Quadrant {
    NE,
    NW,
    SE,
    SW,
}

/// A character that is not in the geohash base32 alphabet.
#[derive(Clone, Copy, Debug, PartialEq, Eq, Structural)]
pub struct InvalidCharacter {
    pub c: char,
}

/// The ASCII lower-case form of a character; other characters are unchanged.
pub open spec fn ascii_lower(c: char) -> char {
    if 'A' <= c && c <= 'Z' {
        ((c as u32) + 32) as char
    } else {
        c
    }
}

/// Relies on char::to_ascii_lowercase: 'A'..='Z' become 'a'..='z', every other
/// character is returned as it is.
#[verifier::external_body]
pub(crate) fn lower_ascii(c: char) -> (r: char)
    ensures
        r == ascii_lower(c),
{
    c.to_ascii_lowercase()
}


/// Whether a lower-case character lies in the given quadrant's set. The first
/// character of a geohash tells which half of the globe by latitude and which
/// half by longitude the point lies in.
pub open spec fn in_quadrant(q: Quadrant, c: char) -> bool {
    match q {
        Quadrant::NE => c == 'u' || c == 'v' || c == 'y' || c == 'z' || c == 's' || c == 't'
            || c == 'w' || c == 'x',
        Quadrant::NW => c == 'b' || c == 'c' || c == 'f' || c == 'g' || c == '8' || c == '9'
            || c == 'd' || c == 'e',
        Quadrant::SE => c == 'k' || c == 'm' || c == 'q' || c == 'r' || c == 'h' || c == 'j'
            || c == 'n' || c == 'p',
        Quadrant::SW => c == '2' || c == '3' || c == '6' || c == '7' || c == '0' || c == '1'
            || c == '4' || c == '5',
    }
}

/// The geohash base32 alphabet: the digits and the lower-case letters but
/// a, i, l and o, read without regard to ASCII case.
pub open spec fn is_base32(c: char) -> bool {
    let l = ascii_lower(c);
    ('0' <= l && l <= '9') || ('b' <= l && l <= 'h') || l == 'j' || l == 'k' || l == 'm'
        || l == 'n' || ('p' <= l && l <= 'z')
}

/// The quadrant of a geohash character, read without regard to ASCII case.
pub open spec fn quadrant_of(c: char) -> Result<Quadrant, InvalidCharacter> {
    let l = ascii_lower(c);
    if in_quadrant(Quadrant::NE, l) {
        Ok(Quadrant::NE)
    } else if in_quadrant(Quadrant::NW, l) {
        Ok(Quadrant::NW)
    } else if in_quadrant(Quadrant::SE, l) {
        Ok(Quadrant::SE)
    } else if in_quadrant(Quadrant::SW, l) {
        Ok(Quadrant::SW)
    } else {
        Err(InvalidCharacter { c })
    }
}

/// The four quadrant sets are disjoint and together they are exactly the
/// base32 alphabet, so each alphabet character has one quadrant and every
/// other character has none.
pub proof fn lemma_quadrants_partition_alphabet(c: char)
    ensures
        is_base32(c) <==> exists|q: Quadrant| in_quadrant(q, ascii_lower(c)),
        forall|q1: Quadrant, q2: Quadrant|
            in_quadrant(q1, ascii_lower(c)) && in_quadrant(q2, ascii_lower(c)) ==> q1 == q2,
        is_base32(c) <==> quadrant_of(c) is Ok,
        quadrant_of(c) is Ok ==> in_quadrant(quadrant_of(c)->Ok_0, ascii_lower(c)),
{
    let l = ascii_lower(c);
    if is_base32(c) {
        if in_quadrant(Quadrant::NE, l) {
        } else if in_quadrant(Quadrant::NW, l) {
        } else if in_quadrant(Quadrant::SE, l) {
        } else {
            assert(in_quadrant(Quadrant::SW, l));
        }
    }
}

/// Which quadrant a geohash character falls in, without regard to ASCII case.
pub fn where_region(hash_code: char) -> (r: Result<Quadrant, InvalidCharacter>)
    ensures
        r == quadrant_of(hash_code),
{
    let l = lower_ascii(hash_code);
    match l {
        'u' | 'v' | 'y' | 'z' | 's' | 't' | 'w' | 'x' => Ok(Quadrant::NE),
        'b' | 'c' | 'f' | 'g' | '8' | '9' | 'd' | 'e' => Ok(Quadrant::NW),
        'k' | 'm' | 'q' | 'r' | 'h' | 'j' | 'n' | 'p' => Ok(Quadrant::SE),
        '2' | '3' | '6' | '7' | '0' | '1' | '4' | '5' => Ok(Quadrant::SW),
        _ => Err(InvalidCharacter { c: hash_code }),
    }
}


/// What part of the globe a box spans, judged from the first geohash
/// character of its lower-left and of its upper-right corner.
#[derive(Clone, Copy, Debug, PartialEq, Eq, Structural)]
pub enum BoxShape {
    /// Both corners start with this (lower-case) character.
    SingleCell(char),
    /// The corners start with the first and the last alphabet symbols.
    Global,
    /// The box spans all four quadrants.
    All,
    North,
    South,
    East,
    West,
    /// The box stays within one quadrant.
    Within(Quadrant),
}

/// The shape of the box between a lower-left and an upper-right corner
/// character. Equal characters give a single cell, '0' with 'z' the globe,
/// and otherwise the pair of quadrants decides. A quadrant pair that no
/// lower-left / upper-right ordering produces falls back to the lower-left
/// quadrant.
pub open spec fn shape_of(bottom_left: char, top_right: char) -> Result<BoxShape, InvalidCharacter> {
    let bl = ascii_lower(bottom_left);
    let tr = ascii_lower(top_right);
    if bl == tr {
        Ok(BoxShape::SingleCell(bl))
    } else if bl == '0' && tr == 'z' {
        Ok(BoxShape::Global)
    } else {
        match (quadrant_of(bl), quadrant_of(tr)) {
            (Err(e), _) => Err(e),
            (_, Err(e)) => Err(e),
            (Ok(qb), Ok(qt)) => Ok(
                if qb == Quadrant::SW && qt == Quadrant::NE {
                    BoxShape::All
                } else if qb == Quadrant::SE && qt == Quadrant::NE {
                    BoxShape::East
                } else if qb == Quadrant::SW && qt == Quadrant::NW {
                    BoxShape::West
                } else if qb == Quadrant::NW && qt == Quadrant::NE {
                    BoxShape::North
                } else if qb == Quadrant::SW && qt == Quadrant::SE {
                    BoxShape::South
                } else {
                    BoxShape::Within(qb)
                },
            ),
        }
    }
}

/// The shape of the box spanned by two corner characters.
pub fn box_for(bottom_left: char, top_right: char) -> (r: Result<BoxShape, InvalidCharacter>)
    ensures
        r == shape_of(bottom_left, top_right),
{
    let bl = lower_ascii(bottom_left);
    let tr = lower_ascii(top_right);
    if bl == tr {
        return Ok(BoxShape::SingleCell(bl));
    }
    if bl == '0' && tr == 'z' {
        return Ok(BoxShape::Global);
    }
    let qb = match where_region(bl) {
        Ok(q) => q,
        Err(e) => return Err(e),
    };
    let qt = match where_region(tr) {
        Ok(q) => q,
        Err(e) => return Err(e),
    };
    let shape = match (qb, qt) {
        (Quadrant::SW, Quadrant::NE) => BoxShape::All,
        (Quadrant::SE, Quadrant::NE) => BoxShape::East,
        (Quadrant::SW, Quadrant::NW) => BoxShape::West,
        (Quadrant::NW, Quadrant::NE) => BoxShape::North,
        (Quadrant::SW, Quadrant::SE) => BoxShape::South,
        _ => BoxShape::Within(qb),
    };
    Ok(shape)
}

/// Two equal corner characters of the alphabet give a single cell that
/// carries the character.
pub proof fn lemma_same_corner_is_single_cell(c: char)
    requires
        is_base32(c),
    ensures
        shape_of(c, c) == Ok::<BoxShape, InvalidCharacter>(BoxShape::SingleCell(ascii_lower(c))),
{
}

/// The alphabet's first and last symbols give the whole globe.
pub proof fn lemma_first_and_last_are_global()
    ensures
        shape_of('0', 'z') == Ok::<BoxShape, InvalidCharacter>(BoxShape::Global),
{
}

/// Corner characters from the quadrant pairs that a box can span give the
/// named region: south-west to north-east is all, south-east to north-east
/// the east, south-west to north-west the west, north-west to north-east the
/// north and south-west to south-east the south.
pub proof fn lemma_quadrant_pairs(bottom_left: char, top_right: char)
    requires
        is_base32(bottom_left),
        is_base32(top_right),
        !(ascii_lower(bottom_left) == '0' && ascii_lower(top_right) == 'z'),
    ensures
        quadrant_of(bottom_left) == Ok::<Quadrant, InvalidCharacter>(Quadrant::SW)
            && quadrant_of(top_right) == Ok::<Quadrant, InvalidCharacter>(Quadrant::NE)
            ==> shape_of(bottom_left, top_right) == Ok::<BoxShape, InvalidCharacter>(BoxShape::All),
        quadrant_of(bottom_left) == Ok::<Quadrant, InvalidCharacter>(Quadrant::SE)
            && quadrant_of(top_right) == Ok::<Quadrant, InvalidCharacter>(Quadrant::NE)
            ==> shape_of(bottom_left, top_right) == Ok::<BoxShape, InvalidCharacter>(BoxShape::East),
        quadrant_of(bottom_left) == Ok::<Quadrant, InvalidCharacter>(Quadrant::SW)
            && quadrant_of(top_right) == Ok::<Quadrant, InvalidCharacter>(Quadrant::NW)
            ==> shape_of(bottom_left, top_right) == Ok::<BoxShape, InvalidCharacter>(BoxShape::West),
        quadrant_of(bottom_left) == Ok::<Quadrant, InvalidCharacter>(Quadrant::NW)
            && quadrant_of(top_right) == Ok::<Quadrant, InvalidCharacter>(Quadrant::NE)
            ==> shape_of(bottom_left, top_right) == Ok::<BoxShape, InvalidCharacter>(BoxShape::North),
        quadrant_of(bottom_left) == Ok::<Quadrant, InvalidCharacter>(Quadrant::SW)
            && quadrant_of(top_right) == Ok::<Quadrant, InvalidCharacter>(Quadrant::SE)
            ==> shape_of(bottom_left, top_right) == Ok::<BoxShape, InvalidCharacter>(BoxShape::South),
{
}

} // verus!
