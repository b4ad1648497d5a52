//! The choices that the HTML pages of a song make about how to show a
//! chord: how its time mark reads, how a keyword extension is set, whether
//! the bass is written, and where a chord block leaves out a space.

use vstd::prelude::*;
use crate::data::{Chord, ChordItem, Time};
use crate::text::str_eq;

verus! {

/// What follows the beat of a time mark.
#[derive(Debug, Clone, Copy, PartialEq, Eq, Structural)]
pub enum TimeMark {
    /// Nothing (the denominator is 0).
    Beat,
    /// A star, for one half.
    Star,
    /// The numerator over the denominator.
    Fraction,
}

/// How a time mark is shown.
pub open spec fn time_mark_of(t: Time) -> TimeMark {
    if t.den == 0 {
        TimeMark::Beat
    } else if t.den == 2 && t.num == 1 {
        TimeMark::Star
    } else {
        TimeMark::Fraction
    }
}

/// Chooses how a time mark is shown.
pub fn time_mark(t: &Time) -> (res: TimeMark)
    ensures
        res == time_mark_of(*t),
{
    if t.den == 0 {
        TimeMark::Beat
    } else if t.den == 2 && t.num == 1 {
        TimeMark::Star
    } else {
        TimeMark::Fraction
    }
}

/// How a keyword extension is set.
#[derive(Debug, Clone, Copy, PartialEq, Eq, Structural)]
pub enum KeywordStyle {
    /// As a triangle: the major seventh.
    Delta,
    /// In a compact span: suspensions, additions and tensions.
    Compact,
    /// As it is written.
    Plain,
}

/// The keywords written as a triangle.
pub open spec fn is_major_keyword(s: Seq<char>) -> bool {
    s == "M"@ || s == "Maj"@ || s == "maj"@
}

/// The keywords set in a compact span.
pub open spec fn is_compact_keyword(s: Seq<char>) -> bool {
    ||| s == "sus4"@
    ||| s == "sus2"@
    ||| s == "add4"@
    ||| s == "add2"@
    ||| s == "13"@
    ||| s == "11"@
    ||| s == "7"@
    ||| s == "9"@
}

pub open spec fn keyword_style_of(s: Seq<char>) -> KeywordStyle {
    if is_major_keyword(s) {
        KeywordStyle::Delta
    } else if is_compact_keyword(s) {
        KeywordStyle::Compact
    } else {
        KeywordStyle::Plain
    }
}

/// Chooses how a keyword extension is set.
pub fn keyword_style(s: &str) -> (res: KeywordStyle)
    ensures
        res == keyword_style_of(s@),
{
    if str_eq(s, "M") || str_eq(s, "Maj") || str_eq(s, "maj") {
        KeywordStyle::Delta
    } else if str_eq(s, "sus4") || str_eq(s, "sus2") || str_eq(s, "add4") || str_eq(s, "add2")
        || str_eq(s, "13") || str_eq(s, "11") || str_eq(s, "7") || str_eq(s, "9") {
        KeywordStyle::Compact
    } else {
        KeywordStyle::Plain
    }
}

/// Whether a chord is written with its bass: when the bass is not the root.
pub fn shows_bass(c: &Chord) -> (res: bool)
    ensures
        res == (c.bass != c.root),
{
    c.bass != c.root
}

/// Whether the item after position `i` of a chord block is a closing
/// parenthesis, so that no space is written after item `i`.
pub fn antecedes_parens(block: &Vec<ChordItem>, i: usize) -> (res: bool)
    ensures
        res == (i + 1 < block@.len() && block@[i + 1] is ParensClose),
{
    if i < block.len() && i + 1 < block.len() {
        match &block[i + 1] {
            ChordItem::ParensClose => true,
            _ => false,
        }
    } else {
        false
    }
}

} // verus!
