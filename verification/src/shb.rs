//! The rules of the grammar of song charts.

use vstd::prelude::*;

verus! {

/// A rule of the song chart grammar.
#[allow(non_camel_case_types)]
#[derive(Debug, Clone, Copy, PartialEq, Eq, Structural)]
pub enum Rule {
    /// A whole chart.
    song,
    /// A block of `id: value` lines giving the song's name and tonic.
    meta_section,
    meta_line,
    meta_id,
    meta_value,
    /// A section: its head, then its lines.
    section,
    /// The id of a section, then optionally its name.
    section_head,
    section_id,
    section_name,
    /// A horizontal rule.
    line_br,
    /// A line of bars.
    line,
    /// A bar: an empty block, or blocks.
    bar,
    /// A block: lyrics, a chord block, or both.
    block,
    lyric_block,
    chord_block,
    empty_block,
    /// A chord symbol.
    chord,
    root,
    min,
    ext,
    ext_keywords,
    ext_alt,
    ext_unk_text,
    bass,
    /// A melody: note roots.
    melody,
    /// Text in a chord block that is not music.
    nonchord,
    /// An opening or closing parenthesis in a chord block.
    parens,
    EOI,
}

} // verus!
