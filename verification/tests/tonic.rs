use chord_charts::tonic::{
    tonality_default_sharp, tonality_to_u8, tonic_to_u8, u8_to_tonic, u8_to_tonic_html,
};

#[test]
fn tonic_natural_notes() {
    assert_eq!(tonic_to_u8("C"), Some(0));
    assert_eq!(tonic_to_u8("D"), Some(2));
    assert_eq!(tonic_to_u8("E"), Some(4));
    assert_eq!(tonic_to_u8("F"), Some(5));
    assert_eq!(tonic_to_u8("G"), Some(7));
    assert_eq!(tonic_to_u8("A"), Some(9));
    assert_eq!(tonic_to_u8("B"), Some(11));
}

#[test]
fn tonic_accidentals_wrap_around() {
    assert_eq!(tonic_to_u8("C#"), Some(1));
    assert_eq!(tonic_to_u8("Db"), Some(1));
    assert_eq!(tonic_to_u8("Bb"), Some(10));
    assert_eq!(tonic_to_u8("B#"), Some(0));
    assert_eq!(tonic_to_u8("Cb"), Some(11));
}

#[test]
fn tonic_ignores_other_second_characters() {
    assert_eq!(tonic_to_u8("Em"), Some(4));
    assert_eq!(tonic_to_u8("G7"), Some(7));
    assert_eq!(tonic_to_u8("A##"), Some(10));
}

#[test]
fn tonic_rejects_non_notes() {
    assert_eq!(tonic_to_u8(""), None);
    assert_eq!(tonic_to_u8("H"), None);
    assert_eq!(tonic_to_u8("c"), None);
    assert_eq!(tonic_to_u8("#C"), None);
}

#[test]
fn tonality_major_and_minor() {
    assert_eq!(tonality_to_u8("G"), Some(7));
    assert_eq!(tonality_to_u8("g"), Some(7));
    assert_eq!(tonality_to_u8("Am"), Some(0));
    assert_eq!(tonality_to_u8("am"), Some(0));
    assert_eq!(tonality_to_u8("Em"), Some(7));
    assert_eq!(tonality_to_u8("f#"), Some(6));
}

#[test]
fn tonality_reads_in_upper_case() {
    // The name is read in upper case, so a `b` after the letter becomes `B`
    // and is no flat.
    assert_eq!(tonality_to_u8("Bb"), Some(11));
    // The minor mark must be the second character.
    assert_eq!(tonality_to_u8("C#m"), Some(1));
}

#[test]
fn tonality_rejects_non_notes() {
    assert_eq!(tonality_to_u8(""), None);
    assert_eq!(tonality_to_u8("x"), None);
    assert_eq!(tonality_to_u8("m"), None);
}

#[test]
fn default_sharp_tonalities() {
    assert!(!tonality_default_sharp(5));
    assert!(!tonality_default_sharp(10));
    assert!(!tonality_default_sharp(3));
    assert!(!tonality_default_sharp(8));
    assert!(tonality_default_sharp(0));
    assert!(tonality_default_sharp(1));
    assert!(tonality_default_sharp(7));
    assert!(tonality_default_sharp(17));
}

#[test]
fn names_of_pitch_classes() {
    assert_eq!(u8_to_tonic(1, true), "C#");
    assert_eq!(u8_to_tonic(1, false), "Db");
    assert_eq!(u8_to_tonic(13, true), "C#");
    assert_eq!(u8_to_tonic(10, false), "Bb");
    assert_eq!(u8_to_tonic(255, true), "D#");
    assert_eq!(u8_to_tonic(0, false), "C");
}

#[test]
fn html_names_of_pitch_classes() {
    assert_eq!(u8_to_tonic_html(3, false), "E<sup>b</sup>");
    assert_eq!(u8_to_tonic_html(3, true), "D<sup>#</sup>");
    assert_eq!(u8_to_tonic_html(4, true), "E");
    assert_eq!(u8_to_tonic_html(22, false), "B<sup>b</sup>");
}

#[test]
fn names_read_back_as_their_pitch_class() {
    for n in 0u8..12 {
        assert_eq!(tonic_to_u8(u8_to_tonic(n, true)), Some(n));
        assert_eq!(tonic_to_u8(u8_to_tonic(n, false)), Some(n));
        assert_eq!(tonality_to_u8(u8_to_tonic(n, true)), Some(n));
    }
}

#[test]
fn minor_tonality_is_relative_major() {
    for (name, major) in [("Cm", 3u8), ("Dm", 5), ("Em", 7), ("Fm", 8), ("Gm", 10), ("Am", 0), ("Bm", 2)] {
        assert_eq!(tonality_to_u8(name), Some(major));
    }
}

#[test]
fn html_names_raise_the_accidental() {
    for n in 0u8..12 {
        for sharp in [true, false] {
            let name = u8_to_tonic(n, sharp);
            let expected = if name.len() < 2 {
                name.to_string()
            } else {
                format!("{}<sup>{}</sup>", &name[..1], &name[1..])
            };
            assert_eq!(u8_to_tonic_html(n, sharp), expected);
        }
    }
}
