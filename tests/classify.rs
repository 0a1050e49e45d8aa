use geohash_depth::hash_to_path;
use geohash_depth::path::compair;
use geohash_depth::region::{box_for, where_region, BoxShape, InvalidCharacter, Quadrant};

const ALPHABET: &str = "0123456789bcdefghjkmnpqrstuvwxyz";

#[test]
fn every_alphabet_character_has_one_quadrant() {
    let mut seen = [0usize; 4];
    for c in ALPHABET.chars() {
        let q = where_region(c).expect("alphabet character");
        let slot = match q {
            Quadrant::NE => 0,
            Quadrant::NW => 1,
            Quadrant::SE => 2,
            Quadrant::SW => 3,
        };
        seen[slot] += 1;
        assert_eq!(where_region(c.to_ascii_uppercase()), Ok(q));
    }
    assert_eq!(seen, [8, 8, 8, 8]);
}

#[test]
fn quadrant_sets_match_the_globe() {
    for c in "uvyzstwx".chars() {
        assert_eq!(where_region(c), Ok(Quadrant::NE));
    }
    for c in "bcfg89de".chars() {
        assert_eq!(where_region(c), Ok(Quadrant::NW));
    }
    for c in "kmqrhjnp".chars() {
        assert_eq!(where_region(c), Ok(Quadrant::SE));
    }
    for c in "23670145".chars() {
        assert_eq!(where_region(c), Ok(Quadrant::SW));
    }
}

#[test]
fn characters_outside_the_alphabet_are_rejected() {
    for c in ['a', 'i', 'l', 'o', 'A', '/', ' '] {
        assert_eq!(where_region(c), Err(InvalidCharacter { c }));
    }
}

#[test]
fn same_corner_is_single_cell() {
    for c in ALPHABET.chars() {
        assert_eq!(box_for(c, c), Ok(BoxShape::SingleCell(c)));
        assert_eq!(box_for(c.to_ascii_uppercase(), c), Ok(BoxShape::SingleCell(c)));
    }
}

#[test]
fn first_and_last_symbols_are_global() {
    assert_eq!(box_for('0', 'z'), Ok(BoxShape::Global));
    assert_eq!(box_for('0', 'Z'), Ok(BoxShape::Global));
}

#[test]
fn quadrant_pairs_give_named_regions() {
    // one representative per quadrant: SW '2', SE 'k', NW 'b', NE 'u'
    assert_eq!(box_for('2', 'u'), Ok(BoxShape::All));
    assert_eq!(box_for('k', 'u'), Ok(BoxShape::East));
    assert_eq!(box_for('2', 'b'), Ok(BoxShape::West));
    assert_eq!(box_for('b', 'u'), Ok(BoxShape::North));
    assert_eq!(box_for('2', 'k'), Ok(BoxShape::South));
}

#[test]
fn same_quadrant_pairs_stay_within() {
    assert_eq!(box_for('u', 'v'), Ok(BoxShape::Within(Quadrant::NE)));
    assert_eq!(box_for('b', 'c'), Ok(BoxShape::Within(Quadrant::NW)));
    assert_eq!(box_for('k', 'm'), Ok(BoxShape::Within(Quadrant::SE)));
    assert_eq!(box_for('2', '3'), Ok(BoxShape::Within(Quadrant::SW)));
}

#[test]
fn unreachable_pairs_fall_back_to_lower_left() {
    assert_eq!(box_for('u', '2'), Ok(BoxShape::Within(Quadrant::NE)));
    assert_eq!(box_for('k', 'b'), Ok(BoxShape::Within(Quadrant::SE)));
}

#[test]
fn box_with_invalid_corner_is_rejected() {
    assert_eq!(box_for('a', 'u'), Err(InvalidCharacter { c: 'a' }));
    assert_eq!(box_for('u', 'o'), Err(InvalidCharacter { c: 'o' }));
}

#[test]
fn same_hash_gives_full_path() {
    assert_eq!(hash_to_path("ezs42", "ezs42"), "e/z/s/4/2");
    assert_eq!(hash_to_path("e", "e"), "e");
    assert_eq!(hash_to_path("zzzzzzzzzzzz", "zzzzzzzzzzzz"), "z/z/z/z/z/z/z/z/z/z/z/z");
}

#[test]
fn common_prefix_path() {
    assert_eq!(hash_to_path("ezs42", "ezs40"), "e/z/s/4");
    assert_eq!(hash_to_path("ezs42", "e0000"), "e");
    assert_eq!(hash_to_path("ezs42", "ezs4"), "e/z/s/4");
}

#[test]
fn path_is_case_insensitive_and_lower_case() {
    assert_eq!(hash_to_path("EZS42", "ezs40"), "e/z/s/4");
    assert_eq!(compair("EzS", "eZs4"), "ezs");
    assert_eq!(compair("", "abc"), "");
}

#[test]
fn wide_boxes_get_region_names() {
    assert_eq!(hash_to_path("2zzzz", "u0000"), "All");
    assert_eq!(hash_to_path("00000", "zzzzz"), "Global");
    assert_eq!(hash_to_path("k1234", "u5678"), "East");
    assert_eq!(hash_to_path("21234", "b5678"), "West");
    assert_eq!(hash_to_path("b1234", "u5678"), "North");
    assert_eq!(hash_to_path("21234", "k5678"), "South");
    assert_eq!(hash_to_path("u1234", "v5678"), "NE");
    assert_eq!(hash_to_path("b1234", "c5678"), "NW");
    assert_eq!(hash_to_path("k1234", "m5678"), "SE");
    assert_eq!(hash_to_path("21234", "35678"), "SW");
}
