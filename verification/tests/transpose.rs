use chord_charts::data::{Bar, Chord, ChordItem, Line, Section, Song, SonglistEntry};

fn chord(root: u8, bass: u8) -> ChordItem<'static> {
    ChordItem::Chord(Chord { root, bass, min: false, ext: vec![], time: None })
}

fn roots(items: &[ChordItem]) -> Vec<u8> {
    items
        .iter()
        .map(|x| match x {
            ChordItem::Chord(c) => c.root,
            _ => 255,
        })
        .collect()
}

fn sample_song() -> Song<'static> {
    Song {
        name: "Sample",
        tonic: 7,
        sections: vec![Section {
            id: "V",
            name: "Verse",
            delta_tonic: 0,
            lines: vec![
                Line::Hr,
                Line::Lyric(vec![Bar::Bar(vec!["la la"]), Bar::Empty]),
                Line::Chord(vec![Bar::Bar(vec![vec![chord(7, 7), ChordItem::Nonmusic("x2")]]), Bar::Empty]),
                Line::Compound(vec![Bar::Bar(vec![(vec![chord(2, 6), ChordItem::Melody(vec![7, 11])], "sing")])]),
            ],
        }],
        names: vec![(String::from("V"), 0)],
        orders: vec![],
    }
}

fn chord_line_roots(song: &Song) -> Vec<u8> {
    match &song.sections[0].lines[2] {
        Line::Chord(bars) => match &bars[0] {
            Bar::Bar(blocks) => roots(&blocks[0]),
            Bar::Empty => vec![],
        },
        _ => vec![],
    }
}

fn compound_items<'a>(song: &'a Song<'static>) -> &'a Vec<ChordItem<'static>> {
    match &song.sections[0].lines[3] {
        Line::Compound(bars) => match &bars[0] {
            Bar::Bar(blocks) => &blocks[0].0,
            Bar::Empty => panic!("expected a bar"),
        },
        _ => panic!("expected a compound line"),
    }
}

#[test]
fn transpose_chord_item() {
    let mut c = chord(11, 4);
    c.mut_transpose(3);
    match c {
        ChordItem::Chord(c) => {
            assert_eq!(c.root, 2);
            assert_eq!(c.bass, 7);
        },
        _ => panic!("expected a chord"),
    }
}

#[test]
fn transpose_melody_item() {
    let mut m = ChordItem::Melody(vec![0, 11, 5]);
    m.mut_transpose(1);
    match m {
        ChordItem::Melody(v) => assert_eq!(v, vec![1, 0, 6]),
        _ => panic!("expected a melody"),
    }
}

#[test]
fn transpose_leaves_other_items() {
    let mut n = ChordItem::Nonmusic("N.C.");
    n.mut_transpose(5);
    assert!(matches!(n, ChordItem::Nonmusic("N.C.")));
    let mut p = ChordItem::ParensOpen;
    p.mut_transpose(5);
    assert!(matches!(p, ChordItem::ParensOpen));
}

#[test]
fn transpose_large_values_reduce_to_pitch_classes() {
    let mut c = chord(200, 40);
    c.mut_transpose(55);
    match c {
        ChordItem::Chord(c) => {
            assert_eq!(c.root, 255 % 12);
            assert_eq!(c.bass, 95 % 12);
        },
        _ => panic!("expected a chord"),
    }
}

#[test]
fn mut_chords_reaches_chord_and_compound_lines_only() {
    let mut song = sample_song();
    song.mut_chords(&|x: ChordItem<'static>| match x {
        ChordItem::Chord(_) => ChordItem::ParensOpen,
        other => other,
    });
    match &song.sections[0].lines[2] {
        Line::Chord(bars) => match &bars[0] {
            Bar::Bar(blocks) => {
                assert!(matches!(blocks[0][0], ChordItem::ParensOpen));
                assert!(matches!(blocks[0][1], ChordItem::Nonmusic("x2")));
            },
            Bar::Empty => panic!("expected a bar"),
        },
        _ => panic!("expected a chord line"),
    }
    let items = compound_items(&song);
    assert!(matches!(items[0], ChordItem::ParensOpen));
    assert!(matches!(items[1], ChordItem::Melody(_)));
    match &song.sections[0].lines[1] {
        Line::Lyric(bars) => match &bars[0] {
            Bar::Bar(t) => assert_eq!(t, &vec!["la la"]),
            Bar::Empty => panic!("expected a bar"),
        },
        _ => panic!("expected a lyric line"),
    }
    assert_eq!(song.name, "Sample");
    assert_eq!(song.tonic, 7);
}

#[test]
fn transpose_whole_song() {
    let mut song = sample_song();
    song.transpose(5);
    assert_eq!(chord_line_roots(&song), vec![0, 255]);
    let items = compound_items(&song);
    match &items[0] {
        ChordItem::Chord(c) => {
            assert_eq!(c.root, 7);
            assert_eq!(c.bass, 11);
        },
        _ => panic!("expected a chord"),
    }
    match &items[1] {
        ChordItem::Melody(v) => assert_eq!(v, &vec![0, 4]),
        _ => panic!("expected a melody"),
    }
    assert_eq!(song.tonic, 7);
}

#[test]
fn transpositions_compose() {
    let mut a = sample_song();
    a.transpose(5);
    a.transpose(9);
    let mut b = sample_song();
    b.transpose((5 + 9) % 12);
    assert_eq!(chord_line_roots(&a), chord_line_roots(&b));
    assert_eq!(roots(compound_items(&a)), roots(compound_items(&b)));
}

#[test]
fn transposition_is_undone_by_its_complement() {
    let mut song = sample_song();
    song.transpose(4);
    song.transpose(8);
    assert_eq!(chord_line_roots(&song), vec![7, 255]);
    match &compound_items(&song)[1] {
        ChordItem::Melody(v) => assert_eq!(v, &vec![7, 11]),
        _ => panic!("expected a melody"),
    }
}

#[test]
fn entry_tonality_moves_tonic_chord() {
    let mut song = sample_song();
    let entry = SonglistEntry { id_file: String::from("sample"), tonic: Some(0), order: None };
    song.transpose_for_entry(&entry);
    // The tonic chord G becomes C.
    assert_eq!(chord_line_roots(&song), vec![0, 255]);
    assert_eq!(song.tonic, 7);
}

#[test]
fn entry_without_tonality_leaves_song() {
    let mut song = sample_song();
    let entry = SonglistEntry { id_file: String::from("sample"), tonic: None, order: None };
    song.transpose_for_entry(&entry);
    assert_eq!(chord_line_roots(&song), vec![7, 255]);
}

#[test]
fn transposability_checks() {
    let song = sample_song();
    assert!(song.is_transposable(244));
    let mut high = sample_song();
    high.sections[0].lines.push(Line::Chord(vec![Bar::Bar(vec![vec![ChordItem::Melody(vec![3, 250])]])]));
    assert!(high.is_transposable(5));
    assert!(!high.is_transposable(6));
    let entry = SonglistEntry { id_file: String::from("s"), tonic: Some(2), order: None };
    assert!(song.can_transpose_for_entry(&entry));
    let none = SonglistEntry { id_file: String::from("s"), tonic: None, order: None };
    assert!(high.can_transpose_for_entry(&none));
    let mut low = sample_song();
    low.tonic = 20;
    assert!(!low.can_transpose_for_entry(&entry));
}
