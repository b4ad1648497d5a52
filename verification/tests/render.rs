use chord_charts::data::{Chord, ChordItem, Time};
use chord_charts::render::{antecedes_parens, keyword_style, shows_bass, time_mark, KeywordStyle, TimeMark};

#[test]
fn time_marks() {
    assert_eq!(time_mark(&Time { beat: 1, num: 3, den: 0 }), TimeMark::Beat);
    assert_eq!(time_mark(&Time { beat: 2, num: 1, den: 2 }), TimeMark::Star);
    assert_eq!(time_mark(&Time { beat: 2, num: 3, den: 4 }), TimeMark::Fraction);
    assert_eq!(time_mark(&Time { beat: 2, num: 2, den: 2 }), TimeMark::Fraction);
}

#[test]
fn keyword_styles() {
    assert_eq!(keyword_style("maj"), KeywordStyle::Delta);
    assert_eq!(keyword_style("Maj"), KeywordStyle::Delta);
    assert_eq!(keyword_style("M"), KeywordStyle::Delta);
    assert_eq!(keyword_style("sus4"), KeywordStyle::Compact);
    assert_eq!(keyword_style("7"), KeywordStyle::Compact);
    assert_eq!(keyword_style("13"), KeywordStyle::Compact);
    assert_eq!(keyword_style("dim"), KeywordStyle::Plain);
    assert_eq!(keyword_style(""), KeywordStyle::Plain);
}

#[test]
fn bass_shown_only_when_it_differs() {
    let c = Chord { root: 0, bass: 7, min: false, ext: vec![], time: None };
    assert!(shows_bass(&c));
    let c = Chord { root: 7, bass: 7, min: true, ext: vec![], time: None };
    assert!(!shows_bass(&c));
}

#[test]
fn space_left_out_before_closing_parenthesis() {
    let block = vec![ChordItem::ParensOpen, ChordItem::Nonmusic("x"), ChordItem::ParensClose];
    assert!(!antecedes_parens(&block, 0));
    assert!(antecedes_parens(&block, 1));
    assert!(!antecedes_parens(&block, 2));
    assert!(!antecedes_parens(&block, 7));
}
