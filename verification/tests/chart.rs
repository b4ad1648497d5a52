use chord_charts::chart::{
    check_song_tree,
    mk_chord_block_item, mk_chord_symbol, mk_melody, mk_song, mk_song_line, mk_song_section,
};
use chord_charts::data::{Bar, ChordExt, ChordItem, Line};
use chord_charts::shb::Rule;
use chord_charts::tree::Pair;

fn leaf<'i>(rule: Rule, text: &'i str) -> Pair<'i, Rule> {
    Pair::leaf(rule, text)
}

fn node<'i>(rule: Rule, text: &'i str, inner: Vec<Pair<'i, Rule>>) -> Pair<'i, Rule> {
    Pair::new(rule, text, inner)
}

fn chord<'i>(root: &'i str) -> Pair<'i, Rule> {
    node(Rule::chord, root, vec![leaf(Rule::root, root)])
}

fn chord_block<'i>(items: Vec<Pair<'i, Rule>>) -> Pair<'i, Rule> {
    node(Rule::chord_block, "", items)
}

fn block<'i>(parts: Vec<Pair<'i, Rule>>) -> Pair<'i, Rule> {
    node(Rule::block, "", parts)
}

fn bar<'i>(blocks: Vec<Pair<'i, Rule>>) -> Pair<'i, Rule> {
    node(Rule::bar, "", blocks)
}

fn empty_bar<'i>() -> Pair<'i, Rule> {
    node(Rule::bar, "", vec![leaf(Rule::empty_block, ".")])
}

#[test]
fn chord_with_minor_extension_and_bass() {
    let tree = node(
        Rule::chord,
        "Am7/G",
        vec![
            leaf(Rule::root, "A"),
            leaf(Rule::min, "m"),
            node(Rule::ext, "7", vec![leaf(Rule::ext_keywords, "7")]),
            node(Rule::bass, "/G", vec![leaf(Rule::root, "G")]),
        ],
    );
    let c = mk_chord_symbol(&tree);
    assert_eq!(c.root, 9);
    assert_eq!(c.bass, 7);
    assert!(c.min);
    assert!(c.time.is_none());
    assert_eq!(c.ext.len(), 1);
    assert!(matches!(c.ext[0], ChordExt::Keyword("7")));
}

#[test]
fn chord_bass_defaults_to_root() {
    let c = mk_chord_symbol(&node(Rule::chord, "F#", vec![leaf(Rule::root, "F#")]));
    assert_eq!(c.root, 6);
    assert_eq!(c.bass, 6);
    assert!(!c.min);
    assert!(c.ext.is_empty());
}

#[test]
fn chord_alterations_lose_parentheses() {
    let tree = node(
        Rule::chord,
        "C7(b9)x",
        vec![
            leaf(Rule::root, "C"),
            node(
                Rule::ext,
                "7(b9)x",
                vec![leaf(Rule::ext_keywords, "7"), leaf(Rule::ext_alt, "(b9)"), leaf(Rule::ext_unk_text, "x")],
            ),
            node(Rule::ext, "((#11))", vec![leaf(Rule::ext_alt, "((#11))"), leaf(Rule::ext_alt, "()")]),
        ],
    );
    let c = mk_chord_symbol(&tree);
    assert_eq!(c.ext.len(), 5);
    assert!(matches!(c.ext[0], ChordExt::Keyword("7")));
    assert!(matches!(c.ext[1], ChordExt::Alteration("b9")));
    assert!(matches!(c.ext[2], ChordExt::Unknown("x")));
    assert!(matches!(c.ext[3], ChordExt::Alteration("#11")));
    assert!(matches!(c.ext[4], ChordExt::Alteration("")));
}

#[test]
fn melody_takes_its_roots() {
    let tree = node(
        Rule::melody,
        "[C E Bb]",
        vec![leaf(Rule::root, "C"), leaf(Rule::EOI, ""), leaf(Rule::root, "E"), leaf(Rule::root, "Bb")],
    );
    assert_eq!(mk_melody(&tree), vec![0, 4, 10]);
}

#[test]
fn chord_block_items() {
    let tree = chord_block(vec![
        leaf(Rule::parens, "("),
        chord("D"),
        leaf(Rule::parens, ")"),
        leaf(Rule::nonchord, "x2"),
        node(Rule::melody, "", vec![leaf(Rule::root, "G")]),
    ]);
    let items = mk_chord_block_item(&tree);
    assert_eq!(items.len(), 5);
    assert!(matches!(items[0], ChordItem::ParensOpen));
    match &items[1] {
        ChordItem::Chord(c) => assert_eq!(c.root, 2),
        _ => panic!("expected a chord"),
    }
    assert!(matches!(items[2], ChordItem::ParensClose));
    assert!(matches!(items[3], ChordItem::Nonmusic("x2")));
    match &items[4] {
        ChordItem::Melody(v) => assert_eq!(v, &vec![7]),
        _ => panic!("expected a melody"),
    }
}

#[test]
fn lyric_line() {
    let tree = node(
        Rule::line,
        "",
        vec![
            bar(vec![block(vec![leaf(Rule::lyric_block, "Hello ")]), block(vec![leaf(Rule::lyric_block, "dear")])]),
            empty_bar(),
            bar(vec![block(vec![leaf(Rule::lyric_block, "world")])]),
        ],
    );
    match mk_song_line(&tree) {
        Line::Lyric(bars) => {
            assert_eq!(bars.len(), 3);
            match &bars[0] {
                Bar::Bar(texts) => assert_eq!(texts, &vec!["Hello ", "dear"]),
                Bar::Empty => panic!("expected a bar"),
            }
            assert!(matches!(bars[1], Bar::Empty));
            match &bars[2] {
                Bar::Bar(texts) => assert_eq!(texts, &vec!["world"]),
                Bar::Empty => panic!("expected a bar"),
            }
        },
        _ => panic!("expected a lyric line"),
    }
}

#[test]
fn chord_line() {
    let tree = node(
        Rule::line,
        "",
        vec![
            bar(vec![block(vec![chord_block(vec![chord("C")])]), block(vec![chord_block(vec![chord("G")])])]),
            empty_bar(),
        ],
    );
    match mk_song_line(&tree) {
        Line::Chord(bars) => {
            assert_eq!(bars.len(), 2);
            match &bars[0] {
                Bar::Bar(blocks) => {
                    assert_eq!(blocks.len(), 2);
                    assert!(matches!(&blocks[1][0], ChordItem::Chord(c) if c.root == 7));
                },
                Bar::Empty => panic!("expected a bar"),
            }
            assert!(matches!(bars[1], Bar::Empty));
        },
        _ => panic!("expected a chord line"),
    }
}

#[test]
fn compound_line() {
    let tree = node(
        Rule::line,
        "",
        vec![
            bar(vec![
                block(vec![chord_block(vec![chord("A")]), leaf(Rule::lyric_block, "Sing ")]),
                block(vec![leaf(Rule::lyric_block, "along")]),
            ]),
            empty_bar(),
            bar(vec![block(vec![chord_block(vec![chord("E")])])]),
        ],
    );
    match mk_song_line(&tree) {
        Line::Compound(bars) => {
            assert_eq!(bars.len(), 3);
            match &bars[0] {
                Bar::Bar(blocks) => {
                    assert_eq!(blocks.len(), 2);
                    assert!(matches!(&blocks[0].0[0], ChordItem::Chord(c) if c.root == 9));
                    assert_eq!(blocks[0].1, "Sing ");
                    assert!(blocks[1].0.is_empty());
                    assert_eq!(blocks[1].1, "along");
                },
                Bar::Empty => panic!("expected a bar"),
            }
            assert!(matches!(bars[1], Bar::Empty));
            match &bars[2] {
                Bar::Bar(blocks) => {
                    assert_eq!(blocks[0].1, "");
                    assert_eq!(blocks[0].0.len(), 1);
                },
                Bar::Empty => panic!("expected a bar"),
            }
        },
        _ => panic!("expected a compound line"),
    }
}

#[test]
fn section_with_head_rule_and_line() {
    let tree = node(
        Rule::section,
        "",
        vec![
            node(Rule::section_head, "", vec![leaf(Rule::section_id, "V1"), leaf(Rule::section_name, "Verse")]),
            leaf(Rule::line_br, "---"),
            node(Rule::line, "", vec![bar(vec![block(vec![leaf(Rule::lyric_block, "la")])])]),
        ],
    );
    let s = mk_song_section(&tree);
    assert_eq!(s.id, "V1");
    assert_eq!(s.name, "Verse");
    assert_eq!(s.delta_tonic, 0);
    assert_eq!(s.lines.len(), 2);
    assert!(matches!(s.lines[0], Line::Hr));
    assert!(matches!(s.lines[1], Line::Lyric(_)));
}

#[test]
fn section_head_without_name() {
    let tree = node(Rule::section, "", vec![node(Rule::section_head, "", vec![leaf(Rule::section_id, "C")])]);
    let s = mk_song_section(&tree);
    assert_eq!(s.id, "C");
    assert_eq!(s.name, "");
    assert!(s.lines.is_empty());
}

fn meta<'i>(id: &'i str, val: &'i str) -> Pair<'i, Rule> {
    node(Rule::meta_line, "", vec![leaf(Rule::meta_id, id), leaf(Rule::meta_value, val)])
}

fn section<'i>(id: &'i str, lines: usize) -> Pair<'i, Rule> {
    let mut inner = vec![node(Rule::section_head, "", vec![leaf(Rule::section_id, id)])];
    for _ in 0..lines {
        inner.push(leaf(Rule::line_br, "---"));
    }
    node(Rule::section, "", inner)
}

#[test]
fn song_with_meta_and_sections() {
    let tree = vec![node(
        Rule::song,
        "",
        vec![
            node(Rule::meta_section, "", vec![meta("name", "Blue Song"), meta("tonic", "Eb"), meta("author", "me")]),
            section("V", 2),
            section("C", 1),
            section("V", 0),
            section("C", 3),
            leaf(Rule::EOI, ""),
        ],
    )];
    let song = mk_song(&tree);
    assert_eq!(song.name, "Blue Song");
    assert_eq!(song.tonic, 3);
    assert_eq!(song.sections.len(), 2);
    assert_eq!(song.sections[0].id, "V");
    assert_eq!(song.sections[0].lines.len(), 2);
    assert_eq!(song.sections[1].id, "C");
    assert_eq!(song.sections[1].lines.len(), 1);
    assert_eq!(song.names, vec![(String::from("V"), 0), (String::from("C"), 1)]);
    assert!(song.orders.is_empty());
}

#[test]
fn song_keeps_tonic_when_value_is_no_note() {
    let tree = vec![node(
        Rule::song,
        "",
        vec![node(Rule::meta_section, "", vec![meta("tonic", "G"), meta("tonic", "xyz")])],
    )];
    let song = mk_song(&tree);
    assert_eq!(song.tonic, 7);
    assert_eq!(song.name, "");
    assert!(song.sections.is_empty());
}

#[test]
fn empty_chart_gives_empty_song() {
    let tree: Vec<Pair<Rule>> = vec![];
    let song = mk_song(&tree);
    assert_eq!(song.name, "");
    assert_eq!(song.tonic, 0);
    assert!(song.sections.is_empty());
    assert!(song.names.is_empty());
}

#[test]
fn tree_checks_accept_grammar_shapes() {
    let tree = vec![node(
        Rule::song,
        "",
        vec![
            node(Rule::meta_section, "", vec![meta("name", "x")]),
            node(
                Rule::section,
                "",
                vec![
                    node(Rule::section_head, "", vec![leaf(Rule::section_id, "V")]),
                    node(Rule::line, "", vec![bar(vec![block(vec![chord_block(vec![chord("C")])])])]),
                ],
            ),
            leaf(Rule::EOI, ""),
        ],
    )];
    assert!(check_song_tree(&tree));
}

#[test]
fn tree_checks_reject_other_shapes() {
    // A meta line without a value.
    let tree = vec![node(
        Rule::song,
        "",
        vec![node(Rule::meta_section, "", vec![node(Rule::meta_line, "", vec![leaf(Rule::meta_id, "name")])])],
    )];
    assert!(!check_song_tree(&tree));
    // A chord whose root names no note.
    let tree = vec![node(
        Rule::song,
        "",
        vec![node(
            Rule::section,
            "",
            vec![node(Rule::line, "", vec![bar(vec![block(vec![chord_block(vec![chord("H")])])])])],
        )],
    )];
    assert!(!check_song_tree(&tree));
    // A line with neither lyrics nor chords.
    let tree = vec![node(Rule::song, "", vec![node(Rule::section, "", vec![node(Rule::line, "", vec![empty_bar()])])])];
    assert!(!check_song_tree(&tree));
    // A node that no chart holds at the top.
    let tree = vec![node(Rule::song, "", vec![leaf(Rule::root, "C")])];
    assert!(!check_song_tree(&tree));
}

#[test]
fn first_pass_stops_once_lyrics_and_chords_are_met() {
    // After a block with both chords and lyrics, the first pass looks at no
    // further block; the bar that starts with an empty block is left out of
    // the line, so what it holds is never read.
    let line = node(
        Rule::line,
        "",
        vec![
            bar(vec![block(vec![chord_block(vec![chord("G")]), leaf(Rule::lyric_block, "la")])]),
            bar(vec![leaf(Rule::empty_block, "."), block(vec![leaf(Rule::root, "x")])]),
        ],
    );
    let tree = vec![node(Rule::song, "", vec![node(Rule::section, "", vec![line])])];
    assert!(check_song_tree(&tree));
    let song = mk_song(&tree);
    match &song.sections[0].lines[0] {
        Line::Compound(bars) => {
            assert_eq!(bars.len(), 2);
            assert!(matches!(bars[1], Bar::Empty));
        },
        _ => panic!("expected a compound line"),
    }
}
