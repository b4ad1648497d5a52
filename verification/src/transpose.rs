//! Transposition: moving every chord and melody of a song by a number of
//! semitones, and the laws it obeys.

use vstd::prelude::*;
use crate::data::{
    Bar, BarModel, ChordItem, ChordItemModel, ChordModel, Line, LineModel, Section, SectionModel, Song,
    SongModel, SonglistEntry,
};

verus! {

// ------------------------------------------------------------------------
// Transposition

/// A pitch class moved up by `am` semitones, modulo 12.
pub open spec fn transpose_pc(v: u8, am: u8) -> u8 {
    ((v + am) % 12) as u8
}

/// Whether moving every pitch of an item up by `am` stays within a byte
/// before the reduction modulo 12.
pub open spec fn can_transpose(item: ChordItemModel, am: u8) -> bool {
    match item {
        ChordItemModel::Chord(c) => c.root + am <= u8::MAX && c.bass + am <= u8::MAX,
        ChordItemModel::Melody(notes) => forall|i: int| 0 <= i < notes.len() ==> #[trigger] notes[i] + am <= u8::MAX,
        _ => true,
    }
}

/// An item with the root and bass of its chord, or every note of its
/// melody, moved up by `am` semitones modulo 12; other items are unchanged.
pub open spec fn transposed(item: ChordItemModel, am: u8) -> ChordItemModel {
    match item {
        ChordItemModel::Chord(c) => ChordItemModel::Chord(
            ChordModel {
                root: transpose_pc(c.root, am),
                bass: transpose_pc(c.bass, am),
                min: c.min,
                ext: c.ext,
                time: c.time,
            },
        ),
        ChordItemModel::Melody(notes) => ChordItemModel::Melody(
            notes.map_values(|n: u8| transpose_pc(n, am)),
        ),
        _ => item,
    }
}

fn transpose_notes(notes: &mut Vec<u8>, am: u8)
    requires
        forall|i: int| 0 <= i < old(notes)@.len() ==> old(notes)@[i] + am <= u8::MAX,
    ensures
        final(notes)@ == old(notes)@.map_values(|n: u8| transpose_pc(n, am)),
{
    let ghost orig = notes@;
    let mut i: usize = 0;
    while i < notes.len()
        invariant
            notes@.len() == orig.len(),
            forall|k: int| 0 <= k < orig.len() ==> orig[k] + am <= u8::MAX,
            0 <= i <= notes@.len(),
            forall|k: int| 0 <= k < i ==> notes@[k] == transpose_pc(orig[k], am),
            forall|k: int| i <= k < notes@.len() ==> notes@[k] == orig[k],
        decreases notes@.len() - i,
    {
        let v = notes[i];
        assert(v == orig[i as int]);
        notes.set(i, (v + am) % 12);
        i = i + 1;
    }
    assert(notes@ =~= orig.map_values(|n: u8| transpose_pc(n, am)));
}

impl<'i> ChordItem<'i> {
    /// Moves the pitches of this item up by `am` semitones, modulo 12.
    pub fn mut_transpose(&mut self, am: u8)
        requires
            can_transpose(old(self).deep_view(), am),
        ensures
            final(self).deep_view() == transposed(old(self).deep_view(), am),
    {
        match self {
            ChordItem::Chord(chord_item) => {
                chord_item.bass = (chord_item.bass + am) % 12;
                chord_item.root = (chord_item.root + am) % 12;
            },
            ChordItem::Melody(notes) => {
                transpose_notes(notes, am);
            },
            _ => {},
        }
    }
}


// ------------------------------------------------------------------------
// Applying a function to every chord item of a song

/// `f` may be called on every item of a chord block.
pub open spec fn items_accepted<'i, F: Fn(ChordItem<'i>) -> ChordItem<'i>>(items: Seq<ChordItem<'i>>, f: F) -> bool {
    forall|k: int| 0 <= k < items.len() ==> call_requires(f, (#[trigger] items[k],))
}

/// `f` may be called on every chord item of a bar of a chord line.
pub open spec fn chord_bar_accepted<'i, F: Fn(ChordItem<'i>) -> ChordItem<'i>>(bar: Bar<Vec<ChordItem<'i>>>, f: F) -> bool {
    match bar {
        Bar::Empty => true,
        Bar::Bar(blocks) => forall|j: int| 0 <= j < blocks@.len() ==> items_accepted(#[trigger] blocks@[j]@, f),
    }
}

/// `f` may be called on every chord item of a bar of a compound line.
pub open spec fn compound_bar_accepted<'i, F: Fn(ChordItem<'i>) -> ChordItem<'i>>(
    bar: Bar<(Vec<ChordItem<'i>>, &'i str)>,
    f: F,
) -> bool {
    match bar {
        Bar::Empty => true,
        Bar::Bar(blocks) => forall|j: int| 0 <= j < blocks@.len() ==> items_accepted(#[trigger] blocks@[j].0@, f),
    }
}

/// `f` may be called on every chord item of a line.
pub open spec fn line_accepted<'i, F: Fn(ChordItem<'i>) -> ChordItem<'i>>(line: Line<'i>, f: F) -> bool {
    match line {
        Line::Hr => true,
        Line::Lyric(_) => true,
        Line::Chord(bars) => forall|b: int| 0 <= b < bars@.len() ==> chord_bar_accepted(#[trigger] bars@[b], f),
        Line::Compound(bars) => forall|b: int| 0 <= b < bars@.len() ==> compound_bar_accepted(#[trigger] bars@[b], f),
    }
}

/// `f` may be called on every chord item of a section.
pub open spec fn section_accepted<'i, F: Fn(ChordItem<'i>) -> ChordItem<'i>>(section: Section<'i>, f: F) -> bool {
    forall|l: int| 0 <= l < section.lines@.len() ==> line_accepted(#[trigger] section.lines@[l], f)
}

/// `f` may be called on every chord item of a song.
pub open spec fn song_accepted<'i, F: Fn(ChordItem<'i>) -> ChordItem<'i>>(song: Song<'i>, f: F) -> bool {
    forall|s: int| 0 <= s < song.sections@.len() ==> section_accepted(#[trigger] song.sections@[s], f)
}

/// `b` holds, at the place of each item of `a`, what `f` returns for it.
pub open spec fn items_mapped<'i, F: Fn(ChordItem<'i>) -> ChordItem<'i>>(
    a: Seq<ChordItem<'i>>,
    b: Seq<ChordItem<'i>>,
    f: F,
) -> bool {
    &&& a.len() == b.len()
    &&& forall|k: int| 0 <= k < a.len() ==> call_ensures(f, (a[k],), #[trigger] b[k])
}

pub open spec fn chord_bar_mapped<'i, F: Fn(ChordItem<'i>) -> ChordItem<'i>>(
    a: Bar<Vec<ChordItem<'i>>>,
    b: Bar<Vec<ChordItem<'i>>>,
    f: F,
) -> bool {
    match (a, b) {
        (Bar::Empty, Bar::Empty) => true,
        (Bar::Bar(x), Bar::Bar(y)) => {
            &&& x@.len() == y@.len()
            &&& forall|j: int| 0 <= j < x@.len() ==> items_mapped(x@[j]@, #[trigger] y@[j]@, f)
        },
        _ => false,
    }
}

pub open spec fn compound_bar_mapped<'i, F: Fn(ChordItem<'i>) -> ChordItem<'i>>(
    a: Bar<(Vec<ChordItem<'i>>, &'i str)>,
    b: Bar<(Vec<ChordItem<'i>>, &'i str)>,
    f: F,
) -> bool {
    match (a, b) {
        (Bar::Empty, Bar::Empty) => true,
        (Bar::Bar(x), Bar::Bar(y)) => {
            &&& x@.len() == y@.len()
            &&& forall|j: int|
                0 <= j < x@.len() ==> items_mapped(x@[j].0@, (#[trigger] y@[j]).0@, f) && x@[j].1@ == y@[j].1@
        },
        _ => false,
    }
}

/// `b` is the line `a` with each chord item replaced by what `f` returns
/// for it, and everything else equal.
pub open spec fn line_mapped<'i, F: Fn(ChordItem<'i>) -> ChordItem<'i>>(a: Line<'i>, b: Line<'i>, f: F) -> bool {
    match (a, b) {
        (Line::Hr, Line::Hr) => true,
        (Line::Lyric(x), Line::Lyric(y)) => x.deep_view() == y.deep_view(),
        (Line::Chord(x), Line::Chord(y)) => {
            &&& x@.len() == y@.len()
            &&& forall|k: int| 0 <= k < x@.len() ==> chord_bar_mapped(x@[k], #[trigger] y@[k], f)
        },
        (Line::Compound(x), Line::Compound(y)) => {
            &&& x@.len() == y@.len()
            &&& forall|k: int| 0 <= k < x@.len() ==> compound_bar_mapped(x@[k], #[trigger] y@[k], f)
        },
        _ => false,
    }
}

pub open spec fn section_mapped<'i, F: Fn(ChordItem<'i>) -> ChordItem<'i>>(a: Section<'i>, b: Section<'i>, f: F) -> bool {
    &&& a.id@ == b.id@
    &&& a.name@ == b.name@
    &&& a.delta_tonic == b.delta_tonic
    &&& a.lines@.len() == b.lines@.len()
    &&& forall|l: int| 0 <= l < a.lines@.len() ==> line_mapped(a.lines@[l], #[trigger] b.lines@[l], f)
}

/// `b` is the song `a` with each chord item replaced by what `f` returns
/// for it, and everything else equal.
pub open spec fn song_mapped<'i, F: Fn(ChordItem<'i>) -> ChordItem<'i>>(a: Song<'i>, b: Song<'i>, f: F) -> bool {
    &&& a.name@ == b.name@
    &&& a.tonic == b.tonic
    &&& a.names.deep_view() == b.names.deep_view()
    &&& a.orders.deep_view() == b.orders.deep_view()
    &&& a.sections@.len() == b.sections@.len()
    &&& forall|s: int| 0 <= s < a.sections@.len() ==> section_mapped(a.sections@[s], #[trigger] b.sections@[s], f)
}

fn map_items<'i, F: Fn(ChordItem<'i>) -> ChordItem<'i>>(items: &mut Vec<ChordItem<'i>>, f: &F)
    requires
        items_accepted(old(items)@, *f),
    ensures
        items_mapped(old(items)@, final(items)@, *f),
{
    let ghost orig = items@;
    let mut i: usize = 0;
    while i < items.len()
        invariant
            items@.len() == orig.len(),
            0 <= i <= items@.len(),
            items_accepted(orig, *f),
            forall|k: int| 0 <= k < i ==> call_ensures(*f, (orig[k],), #[trigger] items@[k]),
            forall|k: int| i <= k < items@.len() ==> items@[k] == orig[k],
        decreases items@.len() - i,
    {
        let mut item = ChordItem::ParensOpen;
        std::mem::swap(&mut item, &mut items[i]);
        assert(call_requires(*f, (orig[i as int],)));
        let mapped = f(item);
        items.set(i, mapped);
        i = i + 1;
    }
}

fn map_chord_blocks<'i, F: Fn(ChordItem<'i>) -> ChordItem<'i>>(blocks: &mut Vec<Vec<ChordItem<'i>>>, f: &F)
    requires
        forall|j: int| 0 <= j < old(blocks)@.len() ==> items_accepted(#[trigger] old(blocks)@[j]@, *f),
    ensures
        final(blocks)@.len() == old(blocks)@.len(),
        forall|j: int| 0 <= j < old(blocks)@.len() ==> items_mapped(old(blocks)@[j]@, #[trigger] final(blocks)@[j]@, *f),
{
    let ghost orig = blocks@;
    let mut i: usize = 0;
    while i < blocks.len()
        invariant
            blocks@.len() == orig.len(),
            0 <= i <= blocks@.len(),
            forall|j: int| 0 <= j < orig.len() ==> items_accepted(#[trigger] orig[j]@, *f),
            forall|j: int| 0 <= j < i ==> items_mapped(orig[j]@, #[trigger] blocks@[j]@, *f),
            forall|j: int| i <= j < blocks@.len() ==> blocks@[j] == orig[j],
        decreases blocks@.len() - i,
    {
        assert(items_accepted(orig[i as int]@, *f));
        map_items(&mut blocks[i], f);
        i = i + 1;
    }
}

fn map_compound_blocks<'i, F: Fn(ChordItem<'i>) -> ChordItem<'i>>(
    blocks: &mut Vec<(Vec<ChordItem<'i>>, &'i str)>,
    f: &F,
)
    requires
        forall|j: int| 0 <= j < old(blocks)@.len() ==> items_accepted(#[trigger] old(blocks)@[j].0@, *f),
    ensures
        final(blocks)@.len() == old(blocks)@.len(),
        forall|j: int|
            0 <= j < old(blocks)@.len() ==> items_mapped(old(blocks)@[j].0@, (#[trigger] final(blocks)@[j]).0@, *f)
                && old(blocks)@[j].1@ == final(blocks)@[j].1@,
{
    let ghost orig = blocks@;
    let mut i: usize = 0;
    while i < blocks.len()
        invariant
            blocks@.len() == orig.len(),
            0 <= i <= blocks@.len(),
            forall|j: int| 0 <= j < orig.len() ==> items_accepted(#[trigger] orig[j].0@, *f),
            forall|j: int|
                0 <= j < i ==> items_mapped(orig[j].0@, (#[trigger] blocks@[j]).0@, *f) && orig[j].1@ == blocks@[j].1@,
            forall|j: int| i <= j < blocks@.len() ==> blocks@[j] == orig[j],
        decreases blocks@.len() - i,
    {
        assert(items_accepted(orig[i as int].0@, *f));
        map_items(&mut blocks[i].0, f);
        i = i + 1;
    }
}


fn map_chord_bars<'i, F: Fn(ChordItem<'i>) -> ChordItem<'i>>(bars: &mut Vec<Bar<Vec<ChordItem<'i>>>>, f: &F)
    requires
        forall|b: int| 0 <= b < old(bars)@.len() ==> chord_bar_accepted(#[trigger] old(bars)@[b], *f),
    ensures
        final(bars)@.len() == old(bars)@.len(),
        forall|b: int| 0 <= b < old(bars)@.len() ==> chord_bar_mapped(old(bars)@[b], #[trigger] final(bars)@[b], *f),
{
    let ghost orig = bars@;
    let mut i: usize = 0;
    while i < bars.len()
        invariant
            bars@.len() == orig.len(),
            0 <= i <= bars@.len(),
            forall|b: int| 0 <= b < orig.len() ==> chord_bar_accepted(#[trigger] orig[b], *f),
            forall|b: int| 0 <= b < i ==> chord_bar_mapped(orig[b], #[trigger] bars@[b], *f),
            forall|b: int| i <= b < bars@.len() ==> bars@[b] == orig[b],
        decreases bars@.len() - i,
    {
        assert(chord_bar_accepted(orig[i as int], *f));
        match &mut bars[i] {
            Bar::Bar(blocks) => map_chord_blocks(blocks, f),
            Bar::Empty => {},
        }
        i = i + 1;
    }
}

fn map_compound_bars<'i, F: Fn(ChordItem<'i>) -> ChordItem<'i>>(
    bars: &mut Vec<Bar<(Vec<ChordItem<'i>>, &'i str)>>,
    f: &F,
)
    requires
        forall|b: int| 0 <= b < old(bars)@.len() ==> compound_bar_accepted(#[trigger] old(bars)@[b], *f),
    ensures
        final(bars)@.len() == old(bars)@.len(),
        forall|b: int| 0 <= b < old(bars)@.len() ==> compound_bar_mapped(old(bars)@[b], #[trigger] final(bars)@[b], *f),
{
    let ghost orig = bars@;
    let mut i: usize = 0;
    while i < bars.len()
        invariant
            bars@.len() == orig.len(),
            0 <= i <= bars@.len(),
            forall|b: int| 0 <= b < orig.len() ==> compound_bar_accepted(#[trigger] orig[b], *f),
            forall|b: int| 0 <= b < i ==> compound_bar_mapped(orig[b], #[trigger] bars@[b], *f),
            forall|b: int| i <= b < bars@.len() ==> bars@[b] == orig[b],
        decreases bars@.len() - i,
    {
        assert(compound_bar_accepted(orig[i as int], *f));
        match &mut bars[i] {
            Bar::Bar(blocks) => map_compound_blocks(blocks, f),
            Bar::Empty => {},
        }
        i = i + 1;
    }
}

fn map_lines<'i, F: Fn(ChordItem<'i>) -> ChordItem<'i>>(lines: &mut Vec<Line<'i>>, f: &F)
    requires
        forall|l: int| 0 <= l < old(lines)@.len() ==> line_accepted(#[trigger] old(lines)@[l], *f),
    ensures
        final(lines)@.len() == old(lines)@.len(),
        forall|l: int| 0 <= l < old(lines)@.len() ==> line_mapped(old(lines)@[l], #[trigger] final(lines)@[l], *f),
{
    let ghost orig = lines@;
    let mut i: usize = 0;
    while i < lines.len()
        invariant
            lines@.len() == orig.len(),
            0 <= i <= lines@.len(),
            forall|l: int| 0 <= l < orig.len() ==> line_accepted(#[trigger] orig[l], *f),
            forall|l: int| 0 <= l < i ==> line_mapped(orig[l], #[trigger] lines@[l], *f),
            forall|l: int| i <= l < lines@.len() ==> lines@[l] == orig[l],
        decreases lines@.len() - i,
    {
        assert(line_accepted(orig[i as int], *f));
        match &mut lines[i] {
            Line::Chord(c_line) => map_chord_bars(c_line, f),
            Line::Compound(co_line) => map_compound_bars(co_line, f),
            Line::Hr => {},
            Line::Lyric(_) => {},
        }
        i = i + 1;
    }
}

impl<'i> Song<'i> {
    /// Replaces every chord item of the song, in chord lines and in
    /// compound lines, by what `f` returns for it; lyric lines, rules and
    /// everything else stay as they are.
    #[verifier::spinoff_prover]
    pub fn mut_chords<F: Fn(ChordItem<'i>) -> ChordItem<'i>>(&mut self, f: &F)
        requires
            song_accepted(*old(self), *f),
        ensures
            song_mapped(*old(self), *final(self), *f),
    {
        let ghost orig = self.sections@;
        let mut i: usize = 0;
        while i < self.sections.len()
            invariant
                self.sections@.len() == orig.len(),
                0 <= i <= self.sections@.len(),
                forall|s: int| 0 <= s < orig.len() ==> section_accepted(#[trigger] orig[s], *f),
                forall|s: int| 0 <= s < i ==> section_mapped(orig[s], #[trigger] self.sections@[s], *f),
                forall|s: int| i <= s < self.sections@.len() ==> self.sections@[s] == orig[s],
                self.name == old(self).name,
                self.tonic == old(self).tonic,
                self.names == old(self).names,
                self.orders == old(self).orders,
                orig == old(self).sections@,
            decreases self.sections@.len() - i,
        {
            assert(section_accepted(orig[i as int], *f));
            map_lines(&mut self.sections[i].lines, f);
            i = i + 1;
        }
    }
}


// ------------------------------------------------------------------------
// Transposition of a whole song

/// Every item of a chord block, transposed.
pub open spec fn items_transposed(items: Seq<ChordItemModel>, am: u8) -> Seq<ChordItemModel> {
    items.map_values(|x: ChordItemModel| transposed(x, am))
}

pub open spec fn chord_bar_transposed(bar: BarModel<Seq<ChordItemModel>>, am: u8) -> BarModel<Seq<ChordItemModel>> {
    match bar {
        BarModel::Empty => BarModel::Empty,
        BarModel::Bar(blocks) => BarModel::Bar(blocks.map_values(|b: Seq<ChordItemModel>| items_transposed(b, am))),
    }
}

pub open spec fn compound_bar_transposed(
    bar: BarModel<(Seq<ChordItemModel>, Seq<char>)>,
    am: u8,
) -> BarModel<(Seq<ChordItemModel>, Seq<char>)> {
    match bar {
        BarModel::Empty => BarModel::Empty,
        BarModel::Bar(blocks) => BarModel::Bar(
            blocks.map_values(|b: (Seq<ChordItemModel>, Seq<char>)| (items_transposed(b.0, am), b.1)),
        ),
    }
}

/// A line with every chord item transposed by `am`.
pub open spec fn line_transposed(line: LineModel, am: u8) -> LineModel {
    match line {
        LineModel::Hr => LineModel::Hr,
        LineModel::Lyric(bars) => LineModel::Lyric(bars),
        LineModel::Chord(bars) => LineModel::Chord(
            bars.map_values(|b: BarModel<Seq<ChordItemModel>>| chord_bar_transposed(b, am)),
        ),
        LineModel::Compound(bars) => LineModel::Compound(
            bars.map_values(|b: BarModel<(Seq<ChordItemModel>, Seq<char>)>| compound_bar_transposed(b, am)),
        ),
    }
}

/// A section with every chord item transposed by `am`.
pub open spec fn section_transposed(section: SectionModel, am: u8) -> SectionModel {
    SectionModel {
        id: section.id,
        name: section.name,
        delta_tonic: section.delta_tonic,
        lines: section.lines.map_values(|l: LineModel| line_transposed(l, am)),
    }
}

/// A song with every chord item transposed by `am`; its tonic, names and
/// lyrics are unchanged.
pub open spec fn song_transposed(song: SongModel, am: u8) -> SongModel {
    SongModel {
        name: song.name,
        tonic: song.tonic,
        sections: song.sections.map_values(|s: SectionModel| section_transposed(s, am)),
        names: song.names,
        orders: song.orders,
    }
}

/// Every item of a chord block may be transposed by `am`.
pub open spec fn items_transposable(items: Seq<ChordItemModel>, am: u8) -> bool {
    forall|k: int| 0 <= k < items.len() ==> can_transpose(#[trigger] items[k], am)
}

pub open spec fn line_transposable(line: LineModel, am: u8) -> bool {
    match line {
        LineModel::Chord(bars) => forall|b: int, j: int|
            0 <= b < bars.len() && (#[trigger] bars[b]) is Bar && 0 <= j < bars[b]->Bar_0.len()
                ==> items_transposable(#[trigger] bars[b]->Bar_0[j], am),
        LineModel::Compound(bars) => forall|b: int, j: int|
            0 <= b < bars.len() && (#[trigger] bars[b]) is Bar && 0 <= j < bars[b]->Bar_0.len()
                ==> items_transposable((#[trigger] bars[b]->Bar_0[j]).0, am),
        _ => true,
    }
}

/// Every chord item of a song may be transposed by `am` without leaving
/// the range of a byte.
pub open spec fn song_transposable(song: SongModel, am: u8) -> bool {
    forall|s: int, l: int|
        0 <= s < song.sections.len() && 0 <= l < song.sections[s].lines.len()
            ==> line_transposable(#[trigger] song.sections[s].lines[l], am)
}


/// Every call of `f` transposes its argument by `am`.
pub open spec fn transposes_by<'i, F: Fn(ChordItem<'i>) -> ChordItem<'i>>(f: F, am: u8) -> bool {
    &&& forall|x: ChordItem<'i>| can_transpose(x.deep_view(), am) ==> #[trigger] call_requires(f, (x,))
    &&& forall|x: ChordItem<'i>, y: ChordItem<'i>|
        #[trigger] call_ensures(f, (x,), y) ==> y.deep_view() == transposed(x.deep_view(), am)
}

proof fn lemma_items_transposed<'i, F: Fn(ChordItem<'i>) -> ChordItem<'i>>(
    a: Vec<ChordItem<'i>>,
    b: Vec<ChordItem<'i>>,
    f: F,
    am: u8,
)
    requires
        items_mapped(a@, b@, f),
        transposes_by(f, am),
    ensures
        b.deep_view() == items_transposed(a.deep_view(), am),
{
    assert forall|k: int| 0 <= k < b@.len() implies b.deep_view()[k] == items_transposed(a.deep_view(), am)[k] by {
        assert(call_ensures(f, (a@[k],), b@[k]));
    }
    assert(b.deep_view() =~= items_transposed(a.deep_view(), am));
}

proof fn lemma_items_accepted<'i, F: Fn(ChordItem<'i>) -> ChordItem<'i>>(a: Vec<ChordItem<'i>>, f: F, am: u8)
    requires
        items_transposable(a.deep_view(), am),
        transposes_by(f, am),
    ensures
        items_accepted(a@, f),
{
    assert forall|k: int| 0 <= k < a@.len() implies call_requires(f, (#[trigger] a@[k],)) by {
        assert(can_transpose(a.deep_view()[k], am));
    }
}

#[verifier::spinoff_prover]
proof fn lemma_line_transposed<'i, F: Fn(ChordItem<'i>) -> ChordItem<'i>>(a: Line<'i>, b: Line<'i>, f: F, am: u8)
    requires
        line_mapped(a, b, f),
        transposes_by(f, am),
    ensures
        b.deep_view() == line_transposed(a.deep_view(), am),
{
    match (a, b) {
        (Line::Chord(x), Line::Chord(y)) => {
            assert forall|k: int| 0 <= k < y@.len() implies y.deep_view()[k]
                == chord_bar_transposed(x.deep_view()[k], am) by {
                assert(chord_bar_mapped(x@[k], y@[k], f));
                match (x@[k], y@[k]) {
                    (Bar::Bar(xb), Bar::Bar(yb)) => {
                        assert forall|j: int| 0 <= j < yb@.len() implies yb.deep_view()[j]
                            == items_transposed(xb.deep_view()[j], am) by {
                            assert(items_mapped(xb@[j]@, yb@[j]@, f));
                            lemma_items_transposed(xb@[j], yb@[j], f, am);
                        }
                        assert(yb.deep_view() =~= xb.deep_view().map_values(
                            |bl: Seq<ChordItemModel>| items_transposed(bl, am),
                        ));
                    },
                    _ => {},
                }
            }
            assert(y.deep_view() =~= x.deep_view().map_values(
                |bar: BarModel<Seq<ChordItemModel>>| chord_bar_transposed(bar, am),
            ));
        },
        (Line::Compound(x), Line::Compound(y)) => {
            assert forall|k: int| 0 <= k < y@.len() implies y.deep_view()[k]
                == compound_bar_transposed(x.deep_view()[k], am) by {
                assert(compound_bar_mapped(x@[k], y@[k], f));
                match (x@[k], y@[k]) {
                    (Bar::Bar(xb), Bar::Bar(yb)) => {
                        assert forall|j: int| 0 <= j < yb@.len() implies yb.deep_view()[j]
                            == (items_transposed(xb.deep_view()[j].0, am), xb.deep_view()[j].1) by {
                            assert(items_mapped(xb@[j].0@, yb@[j].0@, f));
                            lemma_items_transposed(xb@[j].0, yb@[j].0, f, am);
                        }
                        assert(yb.deep_view() =~= xb.deep_view().map_values(
                            |bl: (Seq<ChordItemModel>, Seq<char>)| (items_transposed(bl.0, am), bl.1),
                        ));
                    },
                    _ => {},
                }
            }
            assert(y.deep_view() =~= x.deep_view().map_values(
                |bar: BarModel<(Seq<ChordItemModel>, Seq<char>)>| compound_bar_transposed(bar, am),
            ));
        },
        _ => {},
    }
}

#[verifier::spinoff_prover]
proof fn lemma_line_accepted<'i, F: Fn(ChordItem<'i>) -> ChordItem<'i>>(a: Line<'i>, f: F, am: u8)
    requires
        line_transposable(a.deep_view(), am),
        transposes_by(f, am),
    ensures
        line_accepted(a, f),
{
    match a {
        Line::Chord(x) => {
            assert forall|k: int| 0 <= k < x@.len() implies chord_bar_accepted(#[trigger] x@[k], f) by {
                match x@[k] {
                    Bar::Bar(xb) => {
                        assert forall|j: int| 0 <= j < xb@.len() implies items_accepted(#[trigger] xb@[j]@, f) by {
                            assert(x.deep_view()[k] is Bar);
                            assert(items_transposable(x.deep_view()[k]->Bar_0[j], am));
                            lemma_items_accepted(xb@[j], f, am);
                        }
                    },
                    _ => {},
                }
            }
        },
        Line::Compound(x) => {
            assert forall|k: int| 0 <= k < x@.len() implies compound_bar_accepted(#[trigger] x@[k], f) by {
                match x@[k] {
                    Bar::Bar(xb) => {
                        assert forall|j: int| 0 <= j < xb@.len() implies items_accepted(#[trigger] xb@[j].0@, f) by {
                            assert(x.deep_view()[k] is Bar);
                            assert(items_transposable(x.deep_view()[k]->Bar_0[j].0, am));
                            lemma_items_accepted(xb@[j].0, f, am);
                        }
                    },
                    _ => {},
                }
            }
        },
        _ => {},
    }
}

proof fn lemma_song_transposed<'i, F: Fn(ChordItem<'i>) -> ChordItem<'i>>(a: Song<'i>, b: Song<'i>, f: F, am: u8)
    requires
        song_mapped(a, b, f),
        transposes_by(f, am),
    ensures
        b.deep_view() == song_transposed(a.deep_view(), am),
{
    assert forall|s: int| 0 <= s < b.sections@.len() implies b.deep_view().sections[s]
        == section_transposed(a.deep_view().sections[s], am) by {
        let x = a.sections@[s];
        let y = b.sections@[s];
        assert(section_mapped(x, y, f));
        assert forall|l: int| 0 <= l < y.lines@.len() implies y.lines.deep_view()[l]
            == line_transposed(x.lines.deep_view()[l], am) by {
            assert(line_mapped(x.lines@[l], y.lines@[l], f));
            lemma_line_transposed(x.lines@[l], y.lines@[l], f, am);
        }
        assert(y.lines.deep_view() =~= x.lines.deep_view().map_values(|l: LineModel| line_transposed(l, am)));
    }
    assert(b.deep_view().sections =~= a.deep_view().sections.map_values(
        |s: SectionModel| section_transposed(s, am),
    ));
}

proof fn lemma_song_accepted<'i, F: Fn(ChordItem<'i>) -> ChordItem<'i>>(a: Song<'i>, f: F, am: u8)
    requires
        song_transposable(a.deep_view(), am),
        transposes_by(f, am),
    ensures
        song_accepted(a, f),
{
    assert forall|s: int| 0 <= s < a.sections@.len() implies section_accepted(#[trigger] a.sections@[s], f) by {
        let x = a.sections@[s];
        assert forall|l: int| 0 <= l < x.lines@.len() implies line_accepted(#[trigger] x.lines@[l], f) by {
            assert(line_transposable(a.deep_view().sections[s].lines[l], am));
            lemma_line_accepted(x.lines@[l], f, am);
        }
    }
}

impl<'i> Song<'i> {
    /// Transposes every chord and melody of the song by `am` semitones.
    pub fn transpose(&mut self, am: u8)
        requires
            song_transposable(old(self).deep_view(), am),
        ensures
            final(self).deep_view() == song_transposed(old(self).deep_view(), am),
    {
        let f = |x: ChordItem<'i>| -> (y: ChordItem<'i>)
            requires
                can_transpose(x.deep_view(), am),
            ensures
                y.deep_view() == transposed(x.deep_view(), am),
            {
                let mut x = x;
                x.mut_transpose(am);
                x
            };
        proof {
            assert(transposes_by(f, am));
            lemma_song_accepted(*self, f, am);
        }
        let ghost before = *self;
        self.mut_chords(&f);
        proof {
            lemma_song_transposed(before, *self, f, am);
        }
    }
}


// ------------------------------------------------------------------------
// Laws of transposition

/// Every pitch of an item is a pitch class, below 12.
pub open spec fn item_normalized(x: ChordItemModel) -> bool {
    match x {
        ChordItemModel::Chord(c) => c.root < 12 && c.bass < 12,
        ChordItemModel::Melody(notes) => forall|i: int| 0 <= i < notes.len() ==> notes[i] < 12,
        _ => true,
    }
}

pub open spec fn items_normalized(items: Seq<ChordItemModel>) -> bool {
    forall|k: int| 0 <= k < items.len() ==> item_normalized(#[trigger] items[k])
}

pub open spec fn line_normalized(line: LineModel) -> bool {
    match line {
        LineModel::Chord(bars) => forall|b: int, j: int|
            0 <= b < bars.len() && (#[trigger] bars[b]) is Bar && 0 <= j < bars[b]->Bar_0.len()
                ==> items_normalized(#[trigger] bars[b]->Bar_0[j]),
        LineModel::Compound(bars) => forall|b: int, j: int|
            0 <= b < bars.len() && (#[trigger] bars[b]) is Bar && 0 <= j < bars[b]->Bar_0.len()
                ==> items_normalized((#[trigger] bars[b]->Bar_0[j]).0),
        _ => true,
    }
}

pub open spec fn section_normalized(section: SectionModel) -> bool {
    forall|l: int| 0 <= l < section.lines.len() ==> line_normalized(#[trigger] section.lines[l])
}

/// Every pitch of every chord and melody of the song is a pitch class,
/// below 12.
pub open spec fn song_normalized(song: SongModel) -> bool {
    forall|s: int| 0 <= s < song.sections.len() ==> section_normalized(#[trigger] song.sections[s])
}

proof fn lemma_pc_compose(v: u8, a: u8, b: u8)
    ensures
        transpose_pc(transpose_pc(v, a), b) == transpose_pc(v, ((a + b) % 12) as u8),
        transpose_pc(v, a) < 12,
        v < 12 ==> transpose_pc(v, 0) == v,
{
    let x = v as int + a as int;
    vstd::arithmetic::div_mod::lemma_add_mod_noop(x, b as int, 12);
    vstd::arithmetic::div_mod::lemma_add_mod_noop_right(v as int, a as int + b as int, 12);
    vstd::arithmetic::div_mod::lemma_mod_twice(b as int, 12);
    assert((x % 12 + b as int) % 12 == ((x % 12) % 12 + (b as int) % 12) % 12) by {
        vstd::arithmetic::div_mod::lemma_add_mod_noop(x % 12, b as int, 12);
        vstd::arithmetic::div_mod::lemma_mod_twice(x, 12);
    }
    assert((x + b as int) == v as int + (a as int + b as int));
    if v < 12 {
        vstd::arithmetic::div_mod::lemma_small_mod(v as nat, 12);
    }
}

proof fn lemma_item_compose(x: ChordItemModel, a: u8, b: u8)
    ensures
        transposed(transposed(x, a), b) == transposed(x, ((a + b) % 12) as u8),
        item_normalized(transposed(x, a)),
        item_normalized(x) ==> transposed(x, 0) == x,
{
    match x {
        ChordItemModel::Chord(c) => {
            lemma_pc_compose(c.root, a, b);
            lemma_pc_compose(c.bass, a, b);
        },
        ChordItemModel::Melody(notes) => {
            assert forall|i: int| 0 <= i < notes.len() implies transpose_pc(transpose_pc(notes[i], a), b)
                == transpose_pc(notes[i], ((a + b) % 12) as u8) && transpose_pc(notes[i], a) < 12 && (notes[i]
                < 12 ==> transpose_pc(notes[i], 0) == notes[i]) by {
                lemma_pc_compose(notes[i], a, b);
            }
            assert(notes.map_values(|n: u8| transpose_pc(n, a)).map_values(|n: u8| transpose_pc(n, b))
                =~= notes.map_values(|n: u8| transpose_pc(n, ((a + b) % 12) as u8)));
            if item_normalized(x) {
                assert(notes.map_values(|n: u8| transpose_pc(n, 0)) =~= notes);
            }
        },
        _ => {},
    }
}

proof fn lemma_items_compose(s: Seq<ChordItemModel>, a: u8, b: u8)
    ensures
        items_transposed(items_transposed(s, a), b) == items_transposed(s, ((a + b) % 12) as u8),
        items_normalized(items_transposed(s, a)),
        items_normalized(s) ==> items_transposed(s, 0) == s,
{
    assert forall|k: int| 0 <= k < s.len() implies transposed(transposed(s[k], a), b) == transposed(
        s[k],
        ((a + b) % 12) as u8,
    ) && item_normalized(transposed(s[k], a)) && (item_normalized(s[k]) ==> transposed(s[k], 0) == s[k]) by {
        lemma_item_compose(s[k], a, b);
    }
    assert(items_transposed(items_transposed(s, a), b) =~= items_transposed(s, ((a + b) % 12) as u8));
    if items_normalized(s) {
        assert(items_transposed(s, 0) =~= s);
    }
}

#[verifier::spinoff_prover]
proof fn lemma_line_compose(line: LineModel, a: u8, b: u8)
    ensures
        line_transposed(line_transposed(line, a), b) == line_transposed(line, ((a + b) % 12) as u8),
        line_normalized(line_transposed(line, a)),
        line_normalized(line) ==> line_transposed(line, 0) == line,
{
    let c = ((a + b) % 12) as u8;
    match line {
        LineModel::Chord(bars) => {
            assert forall|k: int| 0 <= k < bars.len() implies chord_bar_transposed(
                chord_bar_transposed(bars[k], a),
                b,
            ) == chord_bar_transposed(bars[k], c) && (line_normalized(line) ==> chord_bar_transposed(bars[k], 0)
                == bars[k]) by {
                match bars[k] {
                    BarModel::Bar(blocks) => {
                        assert forall|j: int| 0 <= j < blocks.len() implies items_transposed(
                            items_transposed(blocks[j], a),
                            b,
                        ) == items_transposed(blocks[j], c) && (line_normalized(line) ==> items_transposed(
                            blocks[j],
                            0,
                        ) == blocks[j]) by {
                            lemma_items_compose(blocks[j], a, b);
                            if line_normalized(line) {
                                assert(items_normalized(bars[k]->Bar_0[j]));
                            }
                        }
                        assert(blocks.map_values(|bl: Seq<ChordItemModel>| items_transposed(bl, a)).map_values(
                            |bl: Seq<ChordItemModel>| items_transposed(bl, b),
                        ) =~= blocks.map_values(|bl: Seq<ChordItemModel>| items_transposed(bl, c)));
                        if line_normalized(line) {
                            assert(blocks.map_values(|bl: Seq<ChordItemModel>| items_transposed(bl, 0)) =~= blocks);
                        }
                    },
                    _ => {},
                }
            }
            let t = line_transposed(line, a);
            assert forall|k: int, j: int|
                0 <= k < bars.len() && (#[trigger] t->Chord_0[k]) is Bar && 0 <= j < t->Chord_0[k]->Bar_0.len()
                    implies items_normalized(#[trigger] t->Chord_0[k]->Bar_0[j]) by {
                lemma_items_compose(bars[k]->Bar_0[j], a, b);
            }
            assert(bars.map_values(|bar: BarModel<Seq<ChordItemModel>>| chord_bar_transposed(bar, a)).map_values(
                |bar: BarModel<Seq<ChordItemModel>>| chord_bar_transposed(bar, b),
            ) =~= bars.map_values(|bar: BarModel<Seq<ChordItemModel>>| chord_bar_transposed(bar, c)));
            if line_normalized(line) {
                assert(bars.map_values(|bar: BarModel<Seq<ChordItemModel>>| chord_bar_transposed(bar, 0)) =~= bars);
            }
        },
        LineModel::Compound(bars) => {
            assert forall|k: int| 0 <= k < bars.len() implies compound_bar_transposed(
                compound_bar_transposed(bars[k], a),
                b,
            ) == compound_bar_transposed(bars[k], c) && (line_normalized(line) ==> compound_bar_transposed(
                bars[k],
                0,
            ) == bars[k]) by {
                match bars[k] {
                    BarModel::Bar(blocks) => {
                        assert forall|j: int| 0 <= j < blocks.len() implies items_transposed(
                            items_transposed(blocks[j].0, a),
                            b,
                        ) == items_transposed(blocks[j].0, c) && (line_normalized(line) ==> items_transposed(
                            blocks[j].0,
                            0,
                        ) == blocks[j].0) by {
                            lemma_items_compose(blocks[j].0, a, b);
                            if line_normalized(line) {
                                assert(items_normalized(bars[k]->Bar_0[j].0));
                            }
                        }
                        assert(blocks.map_values(
                            |bl: (Seq<ChordItemModel>, Seq<char>)| (items_transposed(bl.0, a), bl.1),
                        ).map_values(|bl: (Seq<ChordItemModel>, Seq<char>)| (items_transposed(bl.0, b), bl.1))
                            =~= blocks.map_values(
                            |bl: (Seq<ChordItemModel>, Seq<char>)| (items_transposed(bl.0, c), bl.1),
                        ));
                        if line_normalized(line) {
                            assert(blocks.map_values(
                                |bl: (Seq<ChordItemModel>, Seq<char>)| (items_transposed(bl.0, 0), bl.1),
                            ) =~= blocks);
                        }
                    },
                    _ => {},
                }
            }
            let t = line_transposed(line, a);
            assert forall|k: int, j: int|
                0 <= k < bars.len() && (#[trigger] t->Compound_0[k]) is Bar && 0 <= j
                    < t->Compound_0[k]->Bar_0.len() implies items_normalized(
                (#[trigger] t->Compound_0[k]->Bar_0[j]).0,
            ) by {
                lemma_items_compose(bars[k]->Bar_0[j].0, a, b);
            }
            assert(bars.map_values(
                |bar: BarModel<(Seq<ChordItemModel>, Seq<char>)>| compound_bar_transposed(bar, a),
            ).map_values(|bar: BarModel<(Seq<ChordItemModel>, Seq<char>)>| compound_bar_transposed(bar, b))
                =~= bars.map_values(
                |bar: BarModel<(Seq<ChordItemModel>, Seq<char>)>| compound_bar_transposed(bar, c),
            ));
            if line_normalized(line) {
                assert(bars.map_values(
                    |bar: BarModel<(Seq<ChordItemModel>, Seq<char>)>| compound_bar_transposed(bar, 0),
                ) =~= bars);
            }
        },
        _ => {},
    }
}

/// Transposing by `a` and then by `b` is transposing by `a + b`, modulo 12;
/// and a transposed song holds pitch classes only.
#[verifier::spinoff_prover]
pub proof fn lemma_transpose_compose(song: SongModel, a: u8, b: u8)
    ensures
        song_transposed(song_transposed(song, a), b) == song_transposed(song, ((a + b) % 12) as u8),
        song_normalized(song_transposed(song, a)),
{
    let c = ((a + b) % 12) as u8;
    assert forall|s: int| 0 <= s < song.sections.len() implies section_transposed(
        section_transposed(song.sections[s], a),
        b,
    ) == section_transposed(song.sections[s], c) && section_normalized(
        section_transposed(song.sections[s], a),
    ) by {
        let lines = song.sections[s].lines;
        assert forall|l: int| 0 <= l < lines.len() implies line_transposed(line_transposed(lines[l], a), b)
            == line_transposed(lines[l], c) && line_normalized(line_transposed(lines[l], a)) by {
            lemma_line_compose(lines[l], a, b);
        }
        assert(lines.map_values(|l: LineModel| line_transposed(l, a)).map_values(
            |l: LineModel| line_transposed(l, b),
        ) =~= lines.map_values(|l: LineModel| line_transposed(l, c)));
    }
    assert(song_transposed(song_transposed(song, a), b).sections =~= song_transposed(song, c).sections);
}

/// Transposing a song that holds pitch classes only by 0 leaves it as it
/// is.
pub proof fn lemma_transpose_zero(song: SongModel)
    requires
        song_normalized(song),
    ensures
        song_transposed(song, 0) == song,
{
    assert forall|s: int| 0 <= s < song.sections.len() implies section_transposed(song.sections[s], 0)
        == song.sections[s] by {
        let lines = song.sections[s].lines;
        assert(section_normalized(song.sections[s]));
        assert forall|l: int| 0 <= l < lines.len() implies line_transposed(lines[l], 0) == lines[l] by {
            assert(line_normalized(lines[l]));
            lemma_line_compose(lines[l], 0, 0);
        }
        assert(lines.map_values(|l: LineModel| line_transposed(l, 0)) =~= lines);
    }
    assert(song_transposed(song, 0).sections =~= song.sections);
}

/// Transposing a song that holds pitch classes only by `a` and then by the
/// complement of `a` to an octave gives the song back.
pub proof fn lemma_transpose_undo(song: SongModel, a: u8)
    requires
        song_normalized(song),
    ensures
        song_transposed(song_transposed(song, a), ((12 - a % 12) % 12) as u8) == song,
{
    lemma_transpose_compose(song, a, ((12 - a % 12) % 12) as u8);
    assert(((a + ((12 - a % 12) % 12) as u8) % 12) as u8 == 0);
    lemma_transpose_zero(song);
}


/// A song that holds pitch classes only can be transposed by any amount
/// up to 244 semitones without leaving the range of a byte.
pub proof fn lemma_normalized_transposable(song: SongModel, am: u8)
    requires
        song_normalized(song),
        am <= 244,
    ensures
        song_transposable(song, am),
{
    assert forall|s: int, l: int|
        0 <= s < song.sections.len() && 0 <= l < song.sections[s].lines.len() implies line_transposable(
        #[trigger] song.sections[s].lines[l],
        am,
    ) by {
        assert(section_normalized(song.sections[s]));
        assert(line_normalized(song.sections[s].lines[l]));
    }
}

/// `q` is a pitch class that lies `am` semitones above `p`, counted
/// modulo 12.
pub open spec fn pitch_moved(p: u8, q: u8, am: u8) -> bool {
    q < 12 && (p as int + am as int - q as int) % 12 == 0
}

/// `y` is the item `x` with each of its pitches moved up by `am`
/// semitones: a chord keeps its quality, extensions and time mark and
/// moves its root and bass; a melody keeps its length and moves each note;
/// any other item is left as it is.
pub open spec fn item_moved(x: ChordItemModel, y: ChordItemModel, am: u8) -> bool {
    match x {
        ChordItemModel::Chord(c) => y is Chord && pitch_moved(c.root, y->Chord_0.root, am) && pitch_moved(
            c.bass,
            y->Chord_0.bass,
            am,
        ) && y->Chord_0.min == c.min && y->Chord_0.ext == c.ext && y->Chord_0.time == c.time,
        ChordItemModel::Melody(notes) => y is Melody && y->Melody_0.len() == notes.len() && forall|i: int|
            0 <= i < notes.len() ==> pitch_moved(notes[i], #[trigger] y->Melody_0[i], am),
        _ => y == x,
    }
}

/// `b` is the chord block `a` with each item moved up by `am` semitones.
pub open spec fn items_moved(a: Seq<ChordItemModel>, b: Seq<ChordItemModel>, am: u8) -> bool {
    a.len() == b.len() && forall|k: int| 0 <= k < a.len() ==> item_moved(a[k], #[trigger] b[k], am)
}

/// `b` is the line `a` with each chord block moved up by `am` semitones:
/// the same kind of line with the same bars and blocks, and the same
/// lyrics.
pub open spec fn line_moved(a: LineModel, b: LineModel, am: u8) -> bool {
    match a {
        LineModel::Hr => b is Hr,
        LineModel::Lyric(_) => b == a,
        LineModel::Chord(bars) => b is Chord && b->Chord_0.len() == bars.len() && forall|i: int|
            0 <= i < bars.len() ==> {
                let (x, y) = (bars[i], #[trigger] b->Chord_0[i]);
                &&& x is Empty ==> y is Empty
                &&& x is Bar ==> y is Bar && y->Bar_0.len() == x->Bar_0.len() && forall|j: int|
                    0 <= j < x->Bar_0.len() ==> items_moved(x->Bar_0[j], #[trigger] y->Bar_0[j], am)
            },
        LineModel::Compound(bars) => b is Compound && b->Compound_0.len() == bars.len() && forall|i: int|
            0 <= i < bars.len() ==> {
                let (x, y) = (bars[i], #[trigger] b->Compound_0[i]);
                &&& x is Empty ==> y is Empty
                &&& x is Bar ==> y is Bar && y->Bar_0.len() == x->Bar_0.len() && forall|j: int|
                    0 <= j < x->Bar_0.len() ==> items_moved(x->Bar_0[j].0, (#[trigger] y->Bar_0[j]).0, am)
                        && y->Bar_0[j].1 == x->Bar_0[j].1
            },
    }
}

proof fn lemma_pitch_moved(p: u8, am: u8)
    ensures
        pitch_moved(p, transpose_pc(p, am), am),
{
    let x = p as int + am as int;
    vstd::arithmetic::div_mod::lemma_fundamental_div_mod(x, 12);
    vstd::arithmetic::div_mod::lemma_mod_multiples_basic(x / 12, 12);
    assert(x - x % 12 == 12 * (x / 12));
    assert((x / 12) * 12 == 12 * (x / 12)) by (nonlinear_arith);
}

proof fn lemma_items_moved(a: Seq<ChordItemModel>, am: u8)
    ensures
        items_moved(a, items_transposed(a, am), am),
{
    assert forall|k: int| 0 <= k < a.len() implies item_moved(a[k], #[trigger] items_transposed(a, am)[k], am) by {
        match a[k] {
            ChordItemModel::Chord(c) => {
                lemma_pitch_moved(c.root, am);
                lemma_pitch_moved(c.bass, am);
            },
            ChordItemModel::Melody(notes) => {
                let moved = notes.map_values(|n: u8| transpose_pc(n, am));
                assert forall|i: int| 0 <= i < notes.len() implies pitch_moved(notes[i], #[trigger] moved[i], am) by {
                    lemma_pitch_moved(notes[i], am);
                }
            },
            _ => {},
        }
    }
}

/// Transposing a song by `am` changes nothing but pitches, and moves each
/// of them: every line keeps its kind, bars, blocks and lyrics, every
/// section its id, name and lines, the song its name, tonic and section
/// registry; and every chord root, bass and melody note becomes the pitch
/// class `am` semitones above it, modulo 12.
#[verifier::spinoff_prover]
pub proof fn lemma_transpose_moves_pitches(song: SongModel, am: u8)
    ensures
        ({
            let t = song_transposed(song, am);
            &&& t.name == song.name && t.tonic == song.tonic && t.names == song.names && t.orders == song.orders
            &&& t.sections.len() == song.sections.len()
            &&& forall|s: int|
                0 <= s < song.sections.len() ==> {
                    let (x, y) = (song.sections[s], #[trigger] t.sections[s]);
                    &&& y.id == x.id && y.name == x.name && y.delta_tonic == x.delta_tonic
                    &&& y.lines.len() == x.lines.len()
                    &&& forall|l: int| 0 <= l < x.lines.len() ==> line_moved(x.lines[l], #[trigger] y.lines[l], am)
                }
        }),
{
    let t = song_transposed(song, am);
    assert forall|s: int| 0 <= s < song.sections.len() implies {
        let (x, y) = (song.sections[s], #[trigger] t.sections[s]);
        forall|l: int| 0 <= l < x.lines.len() ==> line_moved(x.lines[l], #[trigger] y.lines[l], am)
    } by {
        let x = song.sections[s];
        let y = t.sections[s];
        assert forall|l: int| 0 <= l < x.lines.len() implies line_moved(x.lines[l], #[trigger] y.lines[l], am) by {
            let line = x.lines[l];
            assert(y.lines[l] == line_transposed(line, am));
            match line {
                LineModel::Chord(bars) => {
                    let tb = bars.map_values(|b: BarModel<Seq<ChordItemModel>>| chord_bar_transposed(b, am));
                    assert forall|i: int| 0 <= i < bars.len() && bars[i] is Bar implies forall|j: int|
                        0 <= j < bars[i]->Bar_0.len() ==> items_moved(
                            bars[i]->Bar_0[j],
                            #[trigger] tb[i]->Bar_0[j],
                            am,
                        ) by {
                        assert forall|j: int| 0 <= j < bars[i]->Bar_0.len() implies items_moved(
                            bars[i]->Bar_0[j],
                            #[trigger] tb[i]->Bar_0[j],
                            am,
                        ) by {
                            lemma_items_moved(bars[i]->Bar_0[j], am);
                        }
                    }
                },
                LineModel::Compound(bars) => {
                    let tb = bars.map_values(
                        |b: BarModel<(Seq<ChordItemModel>, Seq<char>)>| compound_bar_transposed(b, am),
                    );
                    assert forall|i: int| 0 <= i < bars.len() && bars[i] is Bar implies forall|j: int|
                        0 <= j < bars[i]->Bar_0.len() ==> items_moved(
                            bars[i]->Bar_0[j].0,
                            (#[trigger] tb[i]->Bar_0[j]).0,
                            am,
                        ) by {
                        assert forall|j: int| 0 <= j < bars[i]->Bar_0.len() implies items_moved(
                            bars[i]->Bar_0[j].0,
                            (#[trigger] tb[i]->Bar_0[j]).0,
                            am,
                        ) by {
                            lemma_items_moved(bars[i]->Bar_0[j].0, am);
                        }
                    }
                },
                _ => {},
            }
        }
    }
}

// ------------------------------------------------------------------------
// Songs in a song list

/// The number of semitones, below 12, that takes a song in `tonic` to the
/// tonality `tonality`.
pub open spec fn delta_to(tonic: u8, tonality: u8) -> u8 {
    ((tonality + 12 - tonic) % 12) as u8
}

/// What a song becomes in a song list: transposed from its tonic to the
/// entry's tonality when the entry gives one, unchanged otherwise.
pub open spec fn song_for_entry(song: SongModel, tonality: Option<u8>) -> SongModel {
    match tonality {
        Some(t) => song_transposed(song, delta_to(song.tonic, t)),
        None => song,
    }
}

impl<'i> Song<'i> {
    /// Transposes the song from its tonic to the tonality that a song list
    /// entry gives, if it gives one; the song's tonic field is left as it
    /// is.
    pub fn transpose_for_entry(&mut self, entry: &SonglistEntry)
        requires
            entry.tonic matches Some(t) ==> {
                &&& old(self).tonic <= t + 12 <= u8::MAX
                &&& song_transposable(old(self).deep_view(), delta_to(old(self).tonic, t))
            },
        ensures
            final(self).deep_view() == song_for_entry(old(self).deep_view(), entry.tonic),
    {
        if let Some(tonality) = entry.tonic {
            let delta = (tonality + 12 - self.tonic) % 12;
            self.transpose(delta);
        }
    }
}

/// For a song whose tonic is a pitch class, the transposition for an entry
/// with a tonality moves the tonic to that tonality.
pub proof fn lemma_entry_moves_tonic(tonic: u8, tonality: u8)
    requires
        tonic < 12,
        tonality < 12,
    ensures
        transpose_pc(tonic, delta_to(tonic, tonality)) == tonality,
{
    let d = (tonality + 12 - tonic) % 12;
    assert(d == tonality + 12 - tonic || d == tonality - tonic);
}


// ------------------------------------------------------------------------
// Checking that a transposition stays within a byte

proof fn lemma_melody_not_transposable(notes: Seq<u8>, i: int, am: u8)
    requires
        0 <= i < notes.len(),
        notes[i] + am > u8::MAX,
    ensures
        !can_transpose(ChordItemModel::Melody(notes), am),
{
    let m = ChordItemModel::Melody(notes);
    assert(m matches ChordItemModel::Melody(ns) && ns == notes);
    assert(can_transpose(m, am) ==> notes[i] + am <= u8::MAX);
}

fn item_can_transpose(item: &ChordItem, am: u8) -> (res: bool)
    ensures
        res == can_transpose(item.deep_view(), am),
{
    match item {
        ChordItem::Chord(c) => c.root <= u8::MAX - am && c.bass <= u8::MAX - am,
        ChordItem::Melody(notes) => {
            let mut i: usize = 0;
            while i < notes.len()
                invariant
                    0 <= i <= notes@.len(),
                    item.deep_view() == ChordItemModel::Melody(notes@),
                    forall|k: int| 0 <= k < i ==> notes@[k] + am <= u8::MAX,
                decreases notes@.len() - i,
            {
                if notes[i] > u8::MAX - am {
                    proof {
                        lemma_melody_not_transposable(notes@, i as int, am);
                    }
                    return false;
                }
                i = i + 1;
            }
            true
        },
        _ => true,
    }
}

fn items_can_transpose(items: &Vec<ChordItem>, am: u8) -> (res: bool)
    ensures
        res == items_transposable(items.deep_view(), am),
{
    let mut k: usize = 0;
    while k < items.len()
        invariant
            0 <= k <= items@.len(),
            forall|j: int| 0 <= j < k ==> can_transpose(#[trigger] items.deep_view()[j], am),
        decreases items@.len() - k,
    {
        if !item_can_transpose(&items[k], am) {
            assert(!can_transpose(items.deep_view()[k as int], am));
            return false;
        }
        k = k + 1;
    }
    true
}

#[verifier::spinoff_prover]
fn line_can_transpose(line: &Line, am: u8) -> (res: bool)
    ensures
        res == line_transposable(line.deep_view(), am),
{
    match line {
        Line::Chord(bars) => {
            let mut b: usize = 0;
            while b < bars.len()
                invariant
                    0 <= b <= bars@.len(),
                    line.deep_view() == LineModel::Chord(bars.deep_view()),
                    forall|x: int, j: int|
                        0 <= x < b && (#[trigger] bars.deep_view()[x]) is Bar && 0 <= j
                            < bars.deep_view()[x]->Bar_0.len() ==> items_transposable(
                            #[trigger] bars.deep_view()[x]->Bar_0[j],
                            am,
                        ),
                decreases bars@.len() - b,
            {
                match &bars[b] {
                    Bar::Bar(blocks) => {
                        let mut j: usize = 0;
                        while j < blocks.len()
                            invariant
                                0 <= j <= blocks@.len(),
                                line.deep_view() == LineModel::Chord(bars.deep_view()),
                                bars@[b as int] == Bar::Bar(*blocks),
                                0 <= b < bars@.len(),
                                forall|x: int, i: int|
                                    0 <= x < b && (#[trigger] bars.deep_view()[x]) is Bar && 0 <= i
                                        < bars.deep_view()[x]->Bar_0.len() ==> items_transposable(
                                        #[trigger] bars.deep_view()[x]->Bar_0[i],
                                        am,
                                    ),
                                forall|i: int| 0 <= i < j ==> items_transposable(#[trigger] blocks.deep_view()[i], am),
                            decreases blocks@.len() - j,
                        {
                            if !items_can_transpose(&blocks[j], am) {
                                assert(bars.deep_view()[b as int] is Bar);
                                assert(bars.deep_view()[b as int]->Bar_0[j as int] == blocks@[j as int].deep_view());
                                assert(!items_transposable(bars.deep_view()[b as int]->Bar_0[j as int], am));
                                assert(line.deep_view() == LineModel::Chord(bars.deep_view()));
                                return false;
                            }
                            j = j + 1;
                        }
                    },
                    Bar::Empty => {},
                }
                b = b + 1;
            }
            true
        },
        Line::Compound(bars) => {
            let mut b: usize = 0;
            while b < bars.len()
                invariant
                    0 <= b <= bars@.len(),
                    line.deep_view() == LineModel::Compound(bars.deep_view()),
                    forall|x: int, j: int|
                        0 <= x < b && (#[trigger] bars.deep_view()[x]) is Bar && 0 <= j
                            < bars.deep_view()[x]->Bar_0.len() ==> items_transposable(
                            (#[trigger] bars.deep_view()[x]->Bar_0[j]).0,
                            am,
                        ),
                decreases bars@.len() - b,
            {
                match &bars[b] {
                    Bar::Bar(blocks) => {
                        let mut j: usize = 0;
                        while j < blocks.len()
                            invariant
                                0 <= j <= blocks@.len(),
                                line.deep_view() == LineModel::Compound(bars.deep_view()),
                                bars@[b as int] == Bar::Bar(*blocks),
                                0 <= b < bars@.len(),
                                forall|x: int, i: int|
                                    0 <= x < b && (#[trigger] bars.deep_view()[x]) is Bar && 0 <= i
                                        < bars.deep_view()[x]->Bar_0.len() ==> items_transposable(
                                        (#[trigger] bars.deep_view()[x]->Bar_0[i]).0,
                                        am,
                                    ),
                                forall|i: int| 0 <= i < j ==> items_transposable((#[trigger] blocks.deep_view()[i]).0, am),
                            decreases blocks@.len() - j,
                        {
                            if !items_can_transpose(&blocks[j].0, am) {
                                assert(bars.deep_view()[b as int] is Bar);
                                assert(bars.deep_view()[b as int]->Bar_0[j as int].0 == blocks@[j as int].0.deep_view());
                                assert(!items_transposable(bars.deep_view()[b as int]->Bar_0[j as int].0, am));
                                assert(line.deep_view() == LineModel::Compound(bars.deep_view()));
                                return false;
                            }
                            j = j + 1;
                        }
                    },
                    Bar::Empty => {},
                }
                b = b + 1;
            }
            true
        },
        _ => true,
    }
}

impl<'i> Song<'i> {
    /// Whether every chord and melody of the song can be transposed by `am`
    /// without leaving the range of a byte.
    #[verifier::spinoff_prover]
    pub fn is_transposable(&self, am: u8) -> (res: bool)
        ensures
            res == song_transposable(self.deep_view(), am),
    {
        let mut s: usize = 0;
        while s < self.sections.len()
            invariant
                0 <= s <= self.sections@.len(),
                forall|x: int, l: int|
                    0 <= x < s && 0 <= l < self.deep_view().sections[x].lines.len() ==> line_transposable(
                        #[trigger] self.deep_view().sections[x].lines[l],
                        am,
                    ),
            decreases self.sections@.len() - s,
        {
            let lines = &self.sections[s].lines;
            let mut l: usize = 0;
            while l < lines.len()
                invariant
                    0 <= s < self.sections@.len(),
                    *lines == self.sections@[s as int].lines,
                    0 <= l <= lines@.len(),
                    forall|x: int, m: int|
                        0 <= x < s && 0 <= m < self.deep_view().sections[x].lines.len() ==> line_transposable(
                            #[trigger] self.deep_view().sections[x].lines[m],
                            am,
                        ),
                    forall|m: int| 0 <= m < l ==> line_transposable(#[trigger] lines.deep_view()[m], am),
                decreases lines@.len() - l,
            {
                if !line_can_transpose(&lines[l], am) {
                    assert(self.deep_view().sections[s as int].lines[l as int] == lines@[l as int].deep_view());
                    return false;
                }
                l = l + 1;
            }
            s = s + 1;
        }
        true
    }

    /// Whether `transpose_for_entry` may be called for `entry`: the
    /// semitones from the song's tonic to the entry's tonality stay within
    /// a byte, and so does every pitch moved by them.
    pub fn can_transpose_for_entry(&self, entry: &SonglistEntry) -> (res: bool)
        ensures
            res == (entry.tonic matches Some(t) ==> {
                &&& self.tonic <= t + 12 <= u8::MAX
                &&& song_transposable(self.deep_view(), delta_to(self.tonic, t))
            }),
    {
        match entry.tonic {
            Some(t) => {
                if t > u8::MAX - 12 || self.tonic > t + 12 {
                    false
                } else {
                    self.is_transposable((t + 12 - self.tonic) % 12)
                }
            },
            None => true,
        }
    }
}

} // verus!
