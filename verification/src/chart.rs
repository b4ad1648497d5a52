//! Building the song model from the parse tree of a chart.
//!
//! Each builder reads the nodes that its grammar rule contains, in order,
//! and its contract gives the result as a fold of a step over those nodes.
//! The builders require the tree to have the shape that the grammar gives
//! it (the `wf_` predicates); on any other tree the steps would meet a node
//! that the grammar cannot produce.

use vstd::prelude::*;
use crate::transpose::{item_normalized, items_normalized, line_normalized, section_normalized, song_normalized};
use crate::data::{
    Bar, BarModel, Chord, ChordExt, ChordExtModel, ChordItem, ChordItemModel, ChordModel, Line,
    LineModel, Section, SectionModel, Song, SongModel,
};
use crate::text::str_eq;
use crate::shb::Rule;
use crate::text::{trim_parens, trim_parens_str};
use crate::tonic::{tonic_to_u8, tonic_value};
use crate::tree::Pair;

verus! {

// ------------------------------------------------------------------------
// Chord symbols

/// The chord a chord symbol starts from: root and bass C, major, no
/// extension, no time mark.
pub open spec fn empty_chord() -> ChordModel {
    ChordModel { root: 0, bass: 0, min: false, ext: seq![], time: None }
}

/// The extension that a node inside an `ext` node stands for; the text of
/// an alteration loses its parentheses.
pub open spec fn ext_of<'i>(p: Pair<'i, Rule>) -> ChordExtModel {
    if p.rule == Rule::ext_keywords {
        ChordExtModel::Keyword(p.text@)
    } else if p.rule == Rule::ext_unk_text {
        ChordExtModel::Unknown(p.text@)
    } else {
        ChordExtModel::Alteration(trim_parens(p.text@))
    }
}

/// What one part of a chord symbol does to the chord built so far: a root
/// sets both root and bass, `min` marks the chord minor, `ext` appends its
/// extensions and `bass` sets the bass from the root inside it.
pub open spec fn chord_step<'i>(c: ChordModel, p: Pair<'i, Rule>) -> ChordModel {
    if p.rule == Rule::root {
        let v = tonic_value(p.text@)->0;
        ChordModel { root: v, bass: v, min: c.min, ext: c.ext, time: c.time }
    } else if p.rule == Rule::min {
        ChordModel { root: c.root, bass: c.bass, min: true, ext: c.ext, time: c.time }
    } else if p.rule == Rule::ext {
        ChordModel {
            root: c.root,
            bass: c.bass,
            min: c.min,
            ext: c.ext + p.inner@.map_values(|q: Pair<'i, Rule>| ext_of(q)),
            time: c.time,
        }
    } else if p.rule == Rule::bass {
        ChordModel {
            root: c.root,
            bass: tonic_value(p.inner@[0].text@)->0,
            min: c.min,
            ext: c.ext,
            time: c.time,
        }
    } else {
        c
    }
}

pub open spec fn chord_fold<'i>(c: ChordModel, ps: Seq<Pair<'i, Rule>>) -> ChordModel
    decreases ps.len(),
{
    if ps.len() == 0 {
        c
    } else {
        chord_step(chord_fold(c, ps.drop_last()), ps.last())
    }
}

/// The chord that a `chord` node stands for.
pub open spec fn chord_of<'i>(p: Pair<'i, Rule>) -> ChordModel {
    chord_fold(empty_chord(), p.inner@)
}

/// The nodes inside an `ext` node are keywords, alterations or unknown text.
pub open spec fn wf_ext<'i>(p: Pair<'i, Rule>) -> bool {
    forall|k: int|
        0 <= k < p.inner@.len() ==> {
            let r = (#[trigger] p.inner@[k]).rule;
            r == Rule::ext_keywords || r == Rule::ext_unk_text || r == Rule::ext_alt
        }
}

/// A part of a chord symbol as the grammar gives it: a root naming a note,
/// `min`, an extension list, or a bass holding a root that names a note.
pub open spec fn wf_chord_part<'i>(q: Pair<'i, Rule>) -> bool {
    ||| q.rule == Rule::root && tonic_value(q.text@) is Some
    ||| q.rule == Rule::min
    ||| q.rule == Rule::ext && wf_ext(q)
    ||| q.rule == Rule::bass && q.inner@.len() > 0 && tonic_value(q.inner@[0].text@) is Some
}

/// A chord symbol as the grammar gives it.
pub open spec fn wf_chord<'i>(p: Pair<'i, Rule>) -> bool {
    forall|k: int| 0 <= k < p.inner@.len() ==> wf_chord_part(#[trigger] p.inner@[k])
}

/// The pitch class that a root node names.
pub open spec fn root_pitch<'i>(q: Pair<'i, Rule>) -> u8 {
    tonic_value(q.text@)->0
}

/// The root and bass nodes among `ps`, in order.
pub open spec fn pitch_nodes<'i>(ps: Seq<Pair<'i, Rule>>) -> Seq<Pair<'i, Rule>> {
    ps.filter(|q: Pair<'i, Rule>| q.rule == Rule::root || q.rule == Rule::bass)
}

/// The extension nodes among `ps`, in order.
pub open spec fn ext_nodes<'i>(ps: Seq<Pair<'i, Rule>>) -> Seq<Pair<'i, Rule>> {
    ps.filter(|q: Pair<'i, Rule>| q.rule == Rule::ext)
}

/// The extensions that each extension node lists.
pub open spec fn ext_lists<'i>(ps: Seq<Pair<'i, Rule>>) -> Seq<Seq<ChordExtModel>> {
    ext_nodes(ps).map_values(|q: Pair<'i, Rule>| q.inner@.map_values(|e: Pair<'i, Rule>| ext_of(e)))
}

#[verifier::spinoff_prover]
proof fn lemma_chord_fold_parts<'i>(c: ChordModel, ps: Seq<Pair<'i, Rule>>)
    ensures
        chord_fold(c, ps).min == (c.min || parts_hold(ps, Rule::min)),
        root_nodes(ps).len() == 0 ==> chord_fold(c, ps).root == c.root,
        root_nodes(ps).len() > 0 ==> chord_fold(c, ps).root == root_pitch(root_nodes(ps).last()),
        pitch_nodes(ps).len() == 0 ==> chord_fold(c, ps).bass == c.bass,
        pitch_nodes(ps).len() > 0 && pitch_nodes(ps).last().rule == Rule::root ==> chord_fold(c, ps).bass
            == root_pitch(pitch_nodes(ps).last()),
        pitch_nodes(ps).len() > 0 && pitch_nodes(ps).last().rule == Rule::bass ==> chord_fold(c, ps).bass
            == root_pitch(pitch_nodes(ps).last().inner@[0]),
        chord_fold(c, ps).ext == c.ext + ext_lists(ps).flatten_alt(),
        chord_fold(c, ps).time == c.time,
    decreases ps.len(),
{
    reveal(Seq::filter);
    if ps.len() == 0 {
        assert(ext_lists(ps) =~= seq![]);
        assert(c.ext + ext_lists(ps).flatten_alt() =~= c.ext);
        assert(!parts_hold(ps, Rule::min));
    } else {
        let d = ps.drop_last();
        let last = ps.last();
        lemma_chord_fold_parts(c, d);
        assert(ps[ps.len() - 1] == last);
        assert(parts_hold(ps, Rule::min) == (parts_hold(d, Rule::min) || last.rule == Rule::min)) by {
            if parts_hold(d, Rule::min) {
                let t = choose|t: int| 0 <= t < d.len() && (#[trigger] d[t]).rule == Rule::min;
                assert(ps[t] == d[t]);
            }
            if parts_hold(ps, Rule::min) {
                let t = choose|t: int| 0 <= t < ps.len() && (#[trigger] ps[t]).rule == Rule::min;
                if t < d.len() {
                    assert(ps[t] == d[t]);
                }
            }
        }
        if last.rule == Rule::ext {
            assert(ext_nodes(ps) == ext_nodes(d).push(last));
            let l = last.inner@.map_values(|e: Pair<'i, Rule>| ext_of(e));
            assert(ext_lists(ps) =~= ext_lists(d).push(l));
            assert(ext_lists(ps).drop_last() =~= ext_lists(d));
            assert(c.ext + ext_lists(ps).flatten_alt() =~= c.ext + ext_lists(d).flatten_alt() + l);
        } else {
            assert(ext_nodes(ps) == ext_nodes(d));
        }
        if last.rule == Rule::root {
            assert(root_nodes(ps) == root_nodes(d).push(last));
            assert(pitch_nodes(ps) == pitch_nodes(d).push(last));
        } else if last.rule == Rule::bass {
            assert(root_nodes(ps) == root_nodes(d));
            assert(pitch_nodes(ps) == pitch_nodes(d).push(last));
        } else {
            assert(root_nodes(ps) == root_nodes(d));
            assert(pitch_nodes(ps) == pitch_nodes(d));
        }
    }
}

/// A chord symbol is minor exactly when it holds a `min` node; its root is
/// the note of its last root node (C where it has none); its bass is that
/// of its last bass node where that comes after every root node, and its
/// root otherwise; its extensions are those of its extension nodes, in
/// order; it carries no time mark.
pub proof fn lemma_chord_parts<'i>(p: Pair<'i, Rule>)
    ensures
        chord_of(p).min <==> parts_hold(p.inner@, Rule::min),
        root_nodes(p.inner@).len() == 0 ==> chord_of(p).root == 0,
        root_nodes(p.inner@).len() > 0 ==> chord_of(p).root == root_pitch(root_nodes(p.inner@).last()),
        pitch_nodes(p.inner@).len() == 0 ==> chord_of(p).bass == 0,
        pitch_nodes(p.inner@).len() > 0 && pitch_nodes(p.inner@).last().rule == Rule::root ==> chord_of(p).bass
            == chord_of(p).root,
        pitch_nodes(p.inner@).len() > 0 && pitch_nodes(p.inner@).last().rule == Rule::bass ==> chord_of(p).bass
            == root_pitch(pitch_nodes(p.inner@).last().inner@[0]),
        chord_of(p).ext == ext_lists(p.inner@).flatten(),
        chord_of(p).time is None,
{
    reveal(Seq::filter);
    lemma_chord_fold_parts(empty_chord(), p.inner@);
    ext_lists(p.inner@).lemma_flatten_and_flatten_alt_are_equivalent();
    assert(empty_chord().ext + ext_lists(p.inner@).flatten_alt() =~= ext_lists(p.inner@).flatten());
    if pitch_nodes(p.inner@).len() > 0 && pitch_nodes(p.inner@).last().rule == Rule::root {
        lemma_last_pitch_root(p.inner@);
    }
}

proof fn lemma_last_pitch_root<'i>(ps: Seq<Pair<'i, Rule>>)
    requires
        pitch_nodes(ps).len() > 0,
        pitch_nodes(ps).last().rule == Rule::root,
    ensures
        root_nodes(ps).len() > 0,
        root_nodes(ps).last() == pitch_nodes(ps).last(),
    decreases ps.len(),
{
    reveal(Seq::filter);
    let d = ps.drop_last();
    let last = ps.last();
    if last.rule == Rule::root {
        assert(root_nodes(ps) == root_nodes(d).push(last));
        assert(pitch_nodes(ps) == pitch_nodes(d).push(last));
    } else if last.rule == Rule::bass {
        assert(pitch_nodes(ps) == pitch_nodes(d).push(last));
    } else {
        assert(root_nodes(ps) == root_nodes(d));
        assert(pitch_nodes(ps) == pitch_nodes(d));
        lemma_last_pitch_root(d);
    }
}

fn mk_ext<'i>(p: &Pair<'i, Rule>) -> (res: ChordExt<'i>)
    requires
        p.rule == Rule::ext_keywords || p.rule == Rule::ext_unk_text || p.rule == Rule::ext_alt,
    ensures
        res.deep_view() == ext_of(*p),
{
    match p.rule {
        Rule::ext_keywords => ChordExt::Keyword(p.text),
        Rule::ext_unk_text => ChordExt::Unknown(p.text),
        _ => ChordExt::Alteration(trim_parens_str(p.text)),
    }
}

/// Builds the chord that a `chord` node stands for.
#[verifier::spinoff_prover]
pub fn mk_chord_symbol<'i>(tree: &Pair<'i, Rule>) -> (out: Chord<'i>)
    requires
        wf_chord(*tree),
    ensures
        out.deep_view() == chord_of(*tree),
        out.root < 12 && out.bass < 12,
{
    let mut out = Chord { root: 0, min: false, bass: 0, ext: Vec::new(), time: None };
    assert(out.ext.deep_view() =~= seq![]);
    let mut i: usize = 0;
    while i < tree.inner.len()
        invariant
            0 <= i <= tree.inner@.len(),
            wf_chord(*tree),
            out.deep_view() == chord_fold(empty_chord(), tree.inner@.take(i as int)),
            out.root < 12 && out.bass < 12,
        decreases tree.inner@.len() - i,
    {
        let chord_part = &tree.inner[i];
        assert(wf_chord_part(*chord_part));
        assert(tree.inner@.take(i + 1).drop_last() =~= tree.inner@.take(i as int));
        let ghost before = out.deep_view();
        match chord_part.rule {
            Rule::root => {
                let v = tonic_to_u8(chord_part.text).unwrap();
                out.root = v;
                out.bass = v;
            },
            Rule::min => {
                out.min = true;
            },
            Rule::ext => {
                let mut j: usize = 0;
                while j < chord_part.inner.len()
                    invariant
                        0 <= j <= chord_part.inner@.len(),
                        chord_part.rule == Rule::ext,
                        wf_ext(*chord_part),
                        out.root == before.root,
                        out.bass == before.bass,
                        out.min == before.min,
                        out.time == before.time,
                        out.root < 12 && out.bass < 12,
                        out.ext.deep_view() == before.ext + chord_part.inner@.take(j as int).map_values(
                            |q: Pair<'i, Rule>| ext_of(q),
                        ),
                    decreases chord_part.inner@.len() - j,
                {
                    let e = mk_ext(&chord_part.inner[j]);
                    let ghost prev = out.ext.deep_view();
                    out.ext.push(e);
                    assert(out.ext.deep_view() =~= prev.push(e.deep_view()));
                    assert(chord_part.inner@.take(j + 1).map_values(|q: Pair<'i, Rule>| ext_of(q))
                        =~= chord_part.inner@.take(j as int).map_values(|q: Pair<'i, Rule>| ext_of(q)).push(
                        ext_of(chord_part.inner@[j as int]),
                    ));
                    j = j + 1;
                }
                assert(chord_part.inner@.take(j as int) =~= chord_part.inner@);
            },
            Rule::bass => {
                let root_bass = &chord_part.inner[0];
                out.bass = tonic_to_u8(root_bass.text).unwrap();
            },
            _ => {},
        }
        i = i + 1;
    }
    assert(tree.inner@.take(i as int) =~= tree.inner@);
    out
}


// ------------------------------------------------------------------------
// Melodies and chord blocks

/// The notes of a melody: the pitch class of each root inside it, in order.
pub open spec fn melody_fold<'i>(ps: Seq<Pair<'i, Rule>>) -> Seq<u8>
    decreases ps.len(),
{
    if ps.len() == 0 {
        seq![]
    } else if ps.last().rule == Rule::root {
        melody_fold(ps.drop_last()).push(tonic_value(ps.last().text@)->0)
    } else {
        melody_fold(ps.drop_last())
    }
}

/// The root nodes among `ps`, in order.
pub open spec fn root_nodes<'i>(ps: Seq<Pair<'i, Rule>>) -> Seq<Pair<'i, Rule>> {
    ps.filter(|q: Pair<'i, Rule>| q.rule == Rule::root)
}

/// A melody holds one note for each root node inside it, in order, and
/// that note is the pitch class the root names: no note is dropped, merged
/// or added.
#[verifier::spinoff_prover]
pub proof fn lemma_melody_notes<'i>(ps: Seq<Pair<'i, Rule>>)
    ensures
        melody_fold(ps).len() == root_nodes(ps).len(),
        forall|k: int|
            0 <= k < melody_fold(ps).len() ==> #[trigger] melody_fold(ps)[k] == tonic_value(
                root_nodes(ps)[k].text@,
            )->0,
    decreases ps.len(),
{
    reveal(Seq::filter);
    if ps.len() > 0 {
        lemma_melody_notes(ps.drop_last());
        assert(root_nodes(ps) == {
            let sub = root_nodes(ps.drop_last());
            if ps.last().rule == Rule::root { sub.push(ps.last()) } else { sub }
        });
    }
}

/// A melody as the grammar gives it: every root inside it names a note.
pub open spec fn wf_melody<'i>(p: Pair<'i, Rule>) -> bool {
    forall|k: int|
        0 <= k < p.inner@.len() && (#[trigger] p.inner@[k]).rule == Rule::root ==> tonic_value(
            p.inner@[k].text@,
        ) is Some
}

/// Builds the notes of a `melody` node.
pub fn mk_melody<'i>(tree: &Pair<'i, Rule>) -> (out: Vec<u8>)
    requires
        wf_melody(*tree),
    ensures
        out@ == melody_fold(tree.inner@),
        out@.len() == root_nodes(tree.inner@).len(),
        forall|k: int|
            0 <= k < out@.len() ==> #[trigger] out@[k] == tonic_value(root_nodes(tree.inner@)[k].text@)->0,
        forall|k: int| 0 <= k < out@.len() ==> out@[k] < 12,
{
    proof {
        lemma_melody_notes(tree.inner@);
    }
    let mut out: Vec<u8> = Vec::new();
    let mut i: usize = 0;
    while i < tree.inner.len()
        invariant
            0 <= i <= tree.inner@.len(),
            wf_melody(*tree),
            out@ == melody_fold(tree.inner@.take(i as int)),
            forall|k: int| 0 <= k < out@.len() ==> out@[k] < 12,
        decreases tree.inner@.len() - i,
    {
        let root = &tree.inner[i];
        assert(tree.inner@.take(i + 1).drop_last() =~= tree.inner@.take(i as int));
        if root.rule == Rule::root {
            out.push(tonic_to_u8(root.text).unwrap());
        }
        i = i + 1;
    }
    assert(tree.inner@.take(i as int) =~= tree.inner@);
    out
}

/// The item that a node inside a chord block stands for.
pub open spec fn item_of<'i>(q: Pair<'i, Rule>) -> ChordItemModel {
    if q.rule == Rule::parens {
        if q.text@ == "("@ {
            ChordItemModel::ParensOpen
        } else {
            ChordItemModel::ParensClose
        }
    } else if q.rule == Rule::nonchord {
        ChordItemModel::Nonmusic(q.text@)
    } else if q.rule == Rule::melody {
        ChordItemModel::Melody(melody_fold(q.inner@))
    } else {
        ChordItemModel::Chord(chord_of(q))
    }
}

/// The items that the nodes inside a chord block stand for.
pub open spec fn items_of<'i>(ps: Seq<Pair<'i, Rule>>) -> Seq<ChordItemModel> {
    ps.map_values(|q: Pair<'i, Rule>| item_of(q))
}

/// A node inside a chord block as the grammar gives it: a parenthesis,
/// text, a melody or a chord symbol.
pub open spec fn wf_item<'i>(q: Pair<'i, Rule>) -> bool {
    ||| q.rule == Rule::parens
    ||| q.rule == Rule::nonchord
    ||| q.rule == Rule::melody && wf_melody(q)
    ||| q.rule == Rule::chord && wf_chord(q)
}

/// The nodes inside a chord block are as the grammar gives them.
pub open spec fn wf_items<'i>(ps: Seq<Pair<'i, Rule>>) -> bool {
    forall|k: int| 0 <= k < ps.len() ==> wf_item(#[trigger] ps[k])
}

fn mk_chord_item<'i>(q: &Pair<'i, Rule>) -> (res: ChordItem<'i>)
    requires
        wf_item(*q),
    ensures
        res.deep_view() == item_of(*q),
        item_normalized(res.deep_view()),
{
    match q.rule {
        Rule::parens => {
            if str_eq(q.text, "(") {
                ChordItem::ParensOpen
            } else {
                ChordItem::ParensClose
            }
        },
        Rule::nonchord => ChordItem::Nonmusic(q.text),
        Rule::melody => ChordItem::Melody(mk_melody(q)),
        _ => ChordItem::Chord(mk_chord_symbol(q)),
    }
}

/// Builds the items of a chord block.
pub fn mk_chord_block_item<'i>(tree: &Pair<'i, Rule>) -> (out: Vec<ChordItem<'i>>)
    requires
        wf_items(tree.inner@),
    ensures
        out.deep_view() == items_of(tree.inner@),
        items_normalized(out.deep_view()),
{
    let mut out: Vec<ChordItem<'i>> = Vec::new();
    let mut i: usize = 0;
    while i < tree.inner.len()
        invariant
            0 <= i <= tree.inner@.len(),
            wf_items(tree.inner@),
            out.deep_view() == items_of(tree.inner@.take(i as int)),
            items_normalized(out.deep_view()),
        decreases tree.inner@.len() - i,
    {
        let mono = mk_chord_item(&tree.inner[i]);
        let ghost prev = out.deep_view();
        out.push(mono);
        assert(out.deep_view() =~= prev.push(mono.deep_view()));
        assert(items_of(tree.inner@.take(i + 1)) =~= items_of(tree.inner@.take(i as int)).push(
            item_of(tree.inner@[i as int]),
        ));
        i = i + 1;
    }
    assert(tree.inner@.take(i as int) =~= tree.inner@);
    out
}


// ------------------------------------------------------------------------
// Lines

/// What a first pass over the blocks of a line has met: lyrics, chords, and
/// whether every node met inside a block was lyrics, a chord block or an
/// empty block.
#[derive(Debug, Clone, Copy)]
pub struct LineScan {
    pub lyric: bool,
    pub chord: bool,
    pub ok: bool,
}

/// The scan before any block.
pub open spec fn scan_start() -> LineScan {
    LineScan { lyric: false, chord: false, ok: true }
}

/// The scan after one more node of a block.
pub open spec fn scan_part<'i>(s: LineScan, t: Pair<'i, Rule>) -> LineScan {
    LineScan {
        lyric: s.lyric || t.rule == Rule::lyric_block,
        chord: s.chord || t.rule == Rule::chord_block,
        ok: s.ok && (t.rule == Rule::lyric_block || t.rule == Rule::chord_block || t.rule == Rule::empty_block),
    }
}

pub open spec fn scan_parts<'i>(s: LineScan, ts: Seq<Pair<'i, Rule>>) -> LineScan
    decreases ts.len(),
{
    if ts.len() == 0 {
        s
    } else {
        scan_part(scan_parts(s, ts.drop_last()), ts.last())
    }
}

/// The scan after one more block: once both lyrics and chords have been
/// met, the pass stops and later blocks are not looked at.
pub open spec fn scan_block<'i>(s: LineScan, block: Pair<'i, Rule>) -> LineScan {
    if s.lyric && s.chord {
        s
    } else {
        scan_parts(s, block.inner@)
    }
}

pub open spec fn scan_blocks<'i>(s: LineScan, blocks: Seq<Pair<'i, Rule>>) -> LineScan
    decreases blocks.len(),
{
    if blocks.len() == 0 {
        s
    } else {
        scan_block(scan_blocks(s, blocks.drop_last()), blocks.last())
    }
}

pub open spec fn scan_bars<'i>(s: LineScan, bars: Seq<Pair<'i, Rule>>) -> LineScan
    decreases bars.len(),
{
    if bars.len() == 0 {
        s
    } else {
        scan_blocks(scan_bars(s, bars.drop_last()), bars.last().inner@)
    }
}

/// The first pass over the blocks of a `line` node, bar after bar and block
/// after block.
pub open spec fn line_scan<'i>(p: Pair<'i, Rule>) -> LineScan {
    scan_bars(scan_start(), p.inner@)
}

/// A node of a block of a compound line as the grammar gives it: lyrics,
/// an empty block, or a chord block of chord block items.
pub open spec fn wf_compound_part<'i>(t: Pair<'i, Rule>) -> bool {
    ||| t.rule == Rule::lyric_block
    ||| t.rule == Rule::empty_block
    ||| t.rule == Rule::chord_block && wf_items(t.inner@)
}

pub open spec fn block_compound_wf<'i>(block: Pair<'i, Rule>) -> bool {
    forall|t: int| 0 <= t < block.inner@.len() ==> wf_compound_part(#[trigger] block.inner@[t])
}

pub open spec fn bar_compound_wf<'i>(bar: Pair<'i, Rule>) -> bool {
    forall|k: int| 0 <= k < bar.inner@.len() ==> block_compound_wf(#[trigger] bar.inner@[k])
}

/// Every node of a block of a chord line holds chord block items.
pub open spec fn block_chord_wf<'i>(block: Pair<'i, Rule>) -> bool {
    forall|t: int| 0 <= t < block.inner@.len() ==> wf_items((#[trigger] block.inner@[t]).inner@)
}

pub open spec fn bar_chord_wf<'i>(bar: Pair<'i, Rule>) -> bool {
    forall|k: int| 0 <= k < bar.inner@.len() ==> block_chord_wf(#[trigger] bar.inner@[k])
}

/// A line as the grammar gives it: the first pass meets only lyrics, chord
/// blocks and empty blocks, and meets lyrics or chords; the bars that the
/// line keeps (those that do not start with an empty block) hold chord
/// block items where the line reads chords.
pub open spec fn wf_line<'i>(line: Pair<'i, Rule>) -> bool {
    let s = line_scan(line);
    &&& s.ok
    &&& s.lyric || s.chord
    &&& s.lyric && s.chord ==> forall|b: int|
        0 <= b < line.inner@.len() && !bar_is_empty(line.inner@[b]) ==> bar_compound_wf(#[trigger] line.inner@[b])
    &&& !s.lyric ==> forall|b: int|
        0 <= b < line.inner@.len() && !bar_is_empty(line.inner@[b]) ==> bar_chord_wf(#[trigger] line.inner@[b])
}

/// A bar whose first node is an empty block is an empty bar.
pub open spec fn bar_is_empty<'i>(bar: Pair<'i, Rule>) -> bool {
    bar.inner@.len() > 0 && bar.inner@[0].rule == Rule::empty_block
}

/// What a node of a block of a compound line does to the block built so
/// far: lyrics set its text, a chord block sets its chords.
pub open spec fn compound_block_step<'i>(
    acc: (Seq<ChordItemModel>, Seq<char>),
    t: Pair<'i, Rule>,
) -> (Seq<ChordItemModel>, Seq<char>) {
    if t.rule == Rule::lyric_block {
        (acc.0, t.text@)
    } else if t.rule == Rule::chord_block {
        (items_of(t.inner@), acc.1)
    } else {
        acc
    }
}

pub open spec fn compound_block_fold<'i>(ps: Seq<Pair<'i, Rule>>) -> (Seq<ChordItemModel>, Seq<char>)
    decreases ps.len(),
{
    if ps.len() == 0 {
        (seq![], ""@)
    } else {
        compound_block_step(compound_block_fold(ps.drop_last()), ps.last())
    }
}

/// The nodes among `ps` with the rule `r`, in order.
pub open spec fn nodes_with<'i>(ps: Seq<Pair<'i, Rule>>, r: Rule) -> Seq<Pair<'i, Rule>> {
    ps.filter(|q: Pair<'i, Rule>| q.rule == r)
}

/// A block of a compound line holds the lyrics of its last lyrics node
/// (none where it has none) under the chords of its last chord block (none
/// where it has none).
#[verifier::spinoff_prover]
pub proof fn lemma_compound_block<'i>(ps: Seq<Pair<'i, Rule>>)
    ensures
        nodes_with(ps, Rule::lyric_block).len() == 0 ==> compound_block_fold(ps).1 == ""@,
        nodes_with(ps, Rule::lyric_block).len() > 0 ==> compound_block_fold(ps).1 == nodes_with(
            ps,
            Rule::lyric_block,
        ).last().text@,
        nodes_with(ps, Rule::chord_block).len() == 0 ==> compound_block_fold(ps).0 == Seq::<ChordItemModel>::empty(),
        nodes_with(ps, Rule::chord_block).len() > 0 ==> compound_block_fold(ps).0 == items_of(
            nodes_with(ps, Rule::chord_block).last().inner@,
        ),
    decreases ps.len(),
{
    reveal(Seq::filter);
    if ps.len() > 0 {
        let d = ps.drop_last();
        let last = ps.last();
        lemma_compound_block(d);
        if last.rule == Rule::lyric_block {
            assert(nodes_with(ps, Rule::lyric_block) == nodes_with(d, Rule::lyric_block).push(last));
            assert(nodes_with(ps, Rule::chord_block) == nodes_with(d, Rule::chord_block));
        } else if last.rule == Rule::chord_block {
            assert(nodes_with(ps, Rule::lyric_block) == nodes_with(d, Rule::lyric_block));
            assert(nodes_with(ps, Rule::chord_block) == nodes_with(d, Rule::chord_block).push(last));
        } else {
            assert(nodes_with(ps, Rule::lyric_block) == nodes_with(d, Rule::lyric_block));
            assert(nodes_with(ps, Rule::chord_block) == nodes_with(d, Rule::chord_block));
        }
    }
}

/// A bar of a lyric line that is not empty holds the text of every node of
/// its blocks, and a bar of a chord line the chord block of every node of
/// its blocks, block after block and in order within each block.
#[verifier::spinoff_prover]
pub proof fn lemma_bar_nodes<'i>(blocks: Seq<Pair<'i, Rule>>)
    ensures
        lyric_bar_fold(blocks) == blocks.map_values(
            |b: Pair<'i, Rule>| b.inner@.map_values(|t: Pair<'i, Rule>| t.text@),
        ).flatten(),
        chord_bar_fold(blocks) == blocks.map_values(
            |b: Pair<'i, Rule>| b.inner@.map_values(|t: Pair<'i, Rule>| items_of(t.inner@)),
        ).flatten(),
    decreases blocks.len(),
{
    let f = |b: Pair<'i, Rule>| b.inner@.map_values(|t: Pair<'i, Rule>| t.text@);
    let g = |b: Pair<'i, Rule>| b.inner@.map_values(|t: Pair<'i, Rule>| items_of(t.inner@));
    blocks.map_values(f).lemma_flatten_and_flatten_alt_are_equivalent();
    blocks.map_values(g).lemma_flatten_and_flatten_alt_are_equivalent();
    if blocks.len() == 0 {
        assert(blocks.map_values(f).flatten_alt() =~= seq![]);
        assert(blocks.map_values(g).flatten_alt() =~= seq![]);
    } else {
        let d = blocks.drop_last();
        lemma_bar_nodes(d);
        d.map_values(f).lemma_flatten_and_flatten_alt_are_equivalent();
        d.map_values(g).lemma_flatten_and_flatten_alt_are_equivalent();
        assert(blocks.map_values(f).drop_last() =~= d.map_values(f));
        assert(blocks.map_values(g).drop_last() =~= d.map_values(g));
    }
}

/// A bar of a compound line: empty, or one chords-over-lyrics block for
/// each of its blocks.
pub open spec fn compound_bar_of<'i>(bar: Pair<'i, Rule>) -> BarModel<(Seq<ChordItemModel>, Seq<char>)> {
    if bar_is_empty(bar) {
        BarModel::Empty
    } else {
        BarModel::Bar(bar.inner@.map_values(|blk: Pair<'i, Rule>| compound_block_fold(blk.inner@)))
    }
}

/// The texts of the nodes of a bar's blocks, block after block.
pub open spec fn lyric_bar_fold<'i>(blocks: Seq<Pair<'i, Rule>>) -> Seq<Seq<char>>
    decreases blocks.len(),
{
    if blocks.len() == 0 {
        seq![]
    } else {
        lyric_bar_fold(blocks.drop_last()) + blocks.last().inner@.map_values(|t: Pair<'i, Rule>| t.text@)
    }
}

/// A bar of a lyric line: empty, or the text of every node of its blocks.
pub open spec fn lyric_bar_of<'i>(bar: Pair<'i, Rule>) -> BarModel<Seq<char>> {
    if bar_is_empty(bar) {
        BarModel::Empty
    } else {
        BarModel::Bar(lyric_bar_fold(bar.inner@))
    }
}

/// The chord blocks of the nodes of a bar's blocks, block after block.
pub open spec fn chord_bar_fold<'i>(blocks: Seq<Pair<'i, Rule>>) -> Seq<Seq<ChordItemModel>>
    decreases blocks.len(),
{
    if blocks.len() == 0 {
        seq![]
    } else {
        chord_bar_fold(blocks.drop_last()) + blocks.last().inner@.map_values(
            |t: Pair<'i, Rule>| items_of(t.inner@),
        )
    }
}

/// A bar of a chord line: empty, or a chord block for every node of its
/// blocks.
pub open spec fn chord_bar_of<'i>(bar: Pair<'i, Rule>) -> BarModel<Seq<ChordItemModel>> {
    if bar_is_empty(bar) {
        BarModel::Empty
    } else {
        BarModel::Bar(chord_bar_fold(bar.inner@))
    }
}

/// The line that a `line` node stands for: a compound line when the first
/// pass met both lyrics and chords, else a lyric line when it met lyrics,
/// else a chord line.
pub open spec fn line_of<'i>(p: Pair<'i, Rule>) -> LineModel {
    let s = line_scan(p);
    if s.lyric && s.chord {
        LineModel::Compound(p.inner@.map_values(|bar: Pair<'i, Rule>| compound_bar_of(bar)))
    } else if s.lyric {
        LineModel::Lyric(p.inner@.map_values(|bar: Pair<'i, Rule>| lyric_bar_of(bar)))
    } else {
        LineModel::Chord(p.inner@.map_values(|bar: Pair<'i, Rule>| chord_bar_of(bar)))
    }
}

/// Some node among `ts` has the rule `r`.
pub open spec fn parts_hold<'i>(ts: Seq<Pair<'i, Rule>>, r: Rule) -> bool {
    exists|t: int| 0 <= t < ts.len() && (#[trigger] ts[t]).rule == r
}

/// Some block among `blocks` holds a node with the rule `r`.
pub open spec fn blocks_hold<'i>(blocks: Seq<Pair<'i, Rule>>, r: Rule) -> bool {
    exists|k: int| 0 <= k < blocks.len() && parts_hold(#[trigger] blocks[k].inner@, r)
}

/// Some block of some bar among `bars` holds a node with the rule `r`.
pub open spec fn bars_hold<'i>(bars: Seq<Pair<'i, Rule>>, r: Rule) -> bool {
    exists|b: int| 0 <= b < bars.len() && blocks_hold(#[trigger] bars[b].inner@, r)
}

/// Some block of the `line` node, in any of its bars, holds a node with
/// the rule `r`.
pub open spec fn line_holds<'i>(line: Pair<'i, Rule>, r: Rule) -> bool {
    bars_hold(line.inner@, r)
}

#[verifier::spinoff_prover]
proof fn lemma_scan_parts<'i>(s: LineScan, ts: Seq<Pair<'i, Rule>>)
    ensures
        scan_parts(s, ts).lyric == (s.lyric || parts_hold(ts, Rule::lyric_block)),
        scan_parts(s, ts).chord == (s.chord || parts_hold(ts, Rule::chord_block)),
    decreases ts.len(),
{
    if ts.len() > 0 {
        let d = ts.drop_last();
        lemma_scan_parts(s, d);
        assert(ts[ts.len() - 1] == ts.last());
        assert forall|r: Rule| #[trigger] parts_hold(ts, r) == (parts_hold(d, r) || ts.last().rule == r) by {
            if parts_hold(d, r) {
                let t = choose|t: int| 0 <= t < d.len() && (#[trigger] d[t]).rule == r;
                assert(ts[t] == d[t]);
            }
            if parts_hold(ts, r) {
                let t = choose|t: int| 0 <= t < ts.len() && (#[trigger] ts[t]).rule == r;
                if t < d.len() {
                    assert(ts[t] == d[t]);
                }
            }
            if ts.last().rule == r {
                assert(ts[ts.len() - 1].rule == r);
            }
        }
    }
}

#[verifier::spinoff_prover]
proof fn lemma_scan_blocks<'i>(s: LineScan, blocks: Seq<Pair<'i, Rule>>)
    ensures
        ({
            let res = scan_blocks(s, blocks);
            let l = s.lyric || blocks_hold(blocks, Rule::lyric_block);
            let c = s.chord || blocks_hold(blocks, Rule::chord_block);
            &&& (res.lyric && res.chord) == (l && c)
            &&& !(l && c) ==> res.lyric == l && res.chord == c
        }),
    decreases blocks.len(),
{
    if blocks.len() > 0 {
        let d = blocks.drop_last();
        let last = blocks.last();
        lemma_scan_blocks(s, d);
        lemma_scan_parts(scan_blocks(s, d), last.inner@);
        assert(blocks[blocks.len() - 1] == last);
        assert forall|r: Rule| #[trigger] blocks_hold(blocks, r) == (blocks_hold(d, r) || parts_hold(last.inner@, r)) by {
            if blocks_hold(d, r) {
                let k = choose|k: int| 0 <= k < d.len() && parts_hold(#[trigger] d[k].inner@, r);
                assert(blocks[k] == d[k]);
            }
            if blocks_hold(blocks, r) {
                let k = choose|k: int| 0 <= k < blocks.len() && parts_hold(#[trigger] blocks[k].inner@, r);
                if k < d.len() {
                    assert(blocks[k] == d[k]);
                }
            }
            if parts_hold(last.inner@, r) {
                assert(parts_hold(blocks[blocks.len() - 1].inner@, r));
            }
        }
    }
}

#[verifier::spinoff_prover]
proof fn lemma_scan_bars<'i>(s: LineScan, bars: Seq<Pair<'i, Rule>>)
    ensures
        ({
            let res = scan_bars(s, bars);
            let l = s.lyric || bars_hold(bars, Rule::lyric_block);
            let c = s.chord || bars_hold(bars, Rule::chord_block);
            &&& (res.lyric && res.chord) == (l && c)
            &&& !(l && c) ==> res.lyric == l && res.chord == c
        }),
    decreases bars.len(),
{
    if bars.len() > 0 {
        let d = bars.drop_last();
        let last = bars.last();
        lemma_scan_bars(s, d);
        lemma_scan_blocks(scan_bars(s, d), last.inner@);
        assert(bars[bars.len() - 1] == last);
        assert forall|r: Rule| #[trigger] bars_hold(bars, r) == (bars_hold(d, r) || blocks_hold(last.inner@, r)) by {
            if bars_hold(d, r) {
                let b = choose|b: int| 0 <= b < d.len() && blocks_hold(#[trigger] d[b].inner@, r);
                assert(bars[b] == d[b]);
            }
            if bars_hold(bars, r) {
                let b = choose|b: int| 0 <= b < bars.len() && blocks_hold(#[trigger] bars[b].inner@, r);
                if b < d.len() {
                    assert(bars[b] == d[b]);
                }
            }
            if blocks_hold(last.inner@, r) {
                assert(blocks_hold(bars[bars.len() - 1].inner@, r));
            }
        }
    }
}

/// The kind of a line depends on all of its blocks: a line is a compound
/// (chords over lyrics) line exactly when some block of it holds lyrics
/// and some block of it, the same or another, holds chords; a lyric line
/// exactly when it holds lyrics and no chords; a chord line exactly when
/// it holds no lyrics.
pub proof fn lemma_line_kind<'i>(line: Pair<'i, Rule>)
    ensures
        line_of(line) is Compound <==> line_holds(line, Rule::lyric_block) && line_holds(line, Rule::chord_block),
        line_of(line) is Lyric <==> line_holds(line, Rule::lyric_block) && !line_holds(line, Rule::chord_block),
        line_of(line) is Chord <==> !line_holds(line, Rule::lyric_block),
{
    lemma_scan_bars(scan_start(), line.inner@);
}

fn scan_line<'i>(line: &Pair<'i, Rule>) -> (res: LineScan)
    ensures
        res == line_scan(*line),
{
    let mut s = LineScan { lyric: false, chord: false, ok: true };
    let mut b: usize = 0;
    while b < line.inner.len()
        invariant
            0 <= b <= line.inner@.len(),
            s == scan_bars(scan_start(), line.inner@.take(b as int)),
        decreases line.inner@.len() - b,
    {
        let bar = &line.inner[b];
        assert(line.inner@.take(b + 1).drop_last() =~= line.inner@.take(b as int));
        let ghost at_bar = s;
        let mut k: usize = 0;
        while k < bar.inner.len()
            invariant
                0 <= k <= bar.inner@.len(),
                s == scan_blocks(at_bar, bar.inner@.take(k as int)),
            decreases bar.inner@.len() - k,
        {
            let block = &bar.inner[k];
            assert(bar.inner@.take(k + 1).drop_last() =~= bar.inner@.take(k as int));
            if !(s.lyric && s.chord) {
                let ghost at_block = s;
                let mut t: usize = 0;
                while t < block.inner.len()
                    invariant
                        0 <= t <= block.inner@.len(),
                        s == scan_parts(at_block, block.inner@.take(t as int)),
                    decreases block.inner@.len() - t,
                {
                    let r = block.inner[t].rule;
                    assert(block.inner@.take(t + 1).drop_last() =~= block.inner@.take(t as int));
                    s = LineScan {
                        lyric: s.lyric || r == Rule::lyric_block,
                        chord: s.chord || r == Rule::chord_block,
                        ok: s.ok && (r == Rule::lyric_block || r == Rule::chord_block || r == Rule::empty_block),
                    };
                    t = t + 1;
                }
                assert(block.inner@.take(t as int) =~= block.inner@);
            }
            k = k + 1;
        }
        assert(bar.inner@.take(k as int) =~= bar.inner@);
        b = b + 1;
    }
    assert(line.inner@.take(b as int) =~= line.inner@);
    s
}

fn bar_starts_empty<'i>(bar: &Pair<'i, Rule>) -> (res: bool)
    ensures
        res == bar_is_empty(*bar),
{
    bar.inner.len() > 0 && bar.inner[0].rule == Rule::empty_block
}

fn mk_compound_block<'i>(block: &Pair<'i, Rule>) -> (res: (Vec<ChordItem<'i>>, &'i str))
    requires
        block_compound_wf(*block),
    ensures
        res.deep_view() == compound_block_fold(block.inner@),
        items_normalized(res.0.deep_view()),
{
    let mut items: Vec<ChordItem<'i>> = Vec::new();
    let mut lyric: &'i str = "";
    assert(items.deep_view() =~= seq![]);
    let mut t: usize = 0;
    while t < block.inner.len()
        invariant
            0 <= t <= block.inner@.len(),
            block_compound_wf(*block),
            (items.deep_view(), lyric@) == compound_block_fold(block.inner@.take(t as int)),
            items_normalized(items.deep_view()),
        decreases block.inner@.len() - t,
    {
        let type_pair = &block.inner[t];
        assert(wf_compound_part(*type_pair));
        assert(block.inner@.take(t + 1).drop_last() =~= block.inner@.take(t as int));
        match type_pair.rule {
            Rule::lyric_block => {
                lyric = type_pair.text;
            },
            Rule::chord_block => {
                items = mk_chord_block_item(type_pair);
            },
            _ => {},
        }
        t = t + 1;
    }
    assert(block.inner@.take(t as int) =~= block.inner@);
    (items, lyric)
}

#[verifier::spinoff_prover]
fn mk_compound_bar<'i>(bar: &Pair<'i, Rule>) -> (res: Bar<(Vec<ChordItem<'i>>, &'i str)>)
    requires
        !bar_is_empty(*bar) ==> bar_compound_wf(*bar),
    ensures
        res.deep_view() == compound_bar_of(*bar),
        res is Bar ==> forall|j: int| 0 <= j < res->Bar_0@.len() ==> items_normalized(#[trigger] res->Bar_0@[j].0.deep_view()),
{
    if bar_starts_empty(bar) {
        return Bar::Empty;
    }
    let mut bar_data: Vec<(Vec<ChordItem<'i>>, &'i str)> = Vec::new();
    let mut k: usize = 0;
    while k < bar.inner.len()
        invariant
            0 <= k <= bar.inner@.len(),
            bar_compound_wf(*bar),
            bar_data.deep_view() == bar.inner@.take(k as int).map_values(
                |blk: Pair<'i, Rule>| compound_block_fold(blk.inner@),
            ),
            forall|j: int| 0 <= j < bar_data@.len() ==> items_normalized(#[trigger] bar_data@[j].0.deep_view()),
        decreases bar.inner@.len() - k,
    {
        assert(block_compound_wf(bar.inner@[k as int]));
        let block = mk_compound_block(&bar.inner[k]);
        let ghost prev = bar_data.deep_view();
        bar_data.push(block);
        assert(bar_data.deep_view() =~= prev.push(block.deep_view()));
        assert(bar.inner@.take(k + 1).map_values(|blk: Pair<'i, Rule>| compound_block_fold(blk.inner@))
            =~= bar.inner@.take(k as int).map_values(|blk: Pair<'i, Rule>| compound_block_fold(blk.inner@)).push(
            compound_block_fold(bar.inner@[k as int].inner@),
        ));
        k = k + 1;
    }
    assert(bar.inner@.take(k as int) =~= bar.inner@);
    Bar::Bar(bar_data)
}

#[verifier::spinoff_prover]
fn mk_lyric_bar<'i>(bar: &Pair<'i, Rule>) -> (res: Bar<&'i str>)
    ensures
        res.deep_view() == lyric_bar_of(*bar),
{
    if bar_starts_empty(bar) {
        return Bar::Empty;
    }
    let mut bar_data: Vec<&'i str> = Vec::new();
    assert(bar_data.deep_view() =~= seq![]);
    let mut k: usize = 0;
    while k < bar.inner.len()
        invariant
            0 <= k <= bar.inner@.len(),
            bar_data.deep_view() == lyric_bar_fold(bar.inner@.take(k as int)),
        decreases bar.inner@.len() - k,
    {
        let block_pair = &bar.inner[k];
        let ghost start = bar_data.deep_view();
        let mut t: usize = 0;
        while t < block_pair.inner.len()
            invariant
                0 <= t <= block_pair.inner@.len(),
                bar_data.deep_view() == start + block_pair.inner@.take(t as int).map_values(
                    |p: Pair<'i, Rule>| p.text@,
                ),
            decreases block_pair.inner@.len() - t,
        {
            let ghost prev = bar_data.deep_view();
            bar_data.push(block_pair.inner[t].text);
            assert(bar_data.deep_view() =~= prev.push(block_pair.inner@[t as int].text@));
            assert(block_pair.inner@.take(t + 1).map_values(|p: Pair<'i, Rule>| p.text@)
                =~= block_pair.inner@.take(t as int).map_values(|p: Pair<'i, Rule>| p.text@).push(
                block_pair.inner@[t as int].text@,
            ));
            t = t + 1;
        }
        assert(block_pair.inner@.take(t as int) =~= block_pair.inner@);
        assert(bar.inner@.take(k + 1).drop_last() =~= bar.inner@.take(k as int));
        k = k + 1;
    }
    assert(bar.inner@.take(k as int) =~= bar.inner@);
    Bar::Bar(bar_data)
}

#[verifier::spinoff_prover]
fn mk_chord_bar<'i>(bar: &Pair<'i, Rule>) -> (res: Bar<Vec<ChordItem<'i>>>)
    requires
        !bar_is_empty(*bar) ==> bar_chord_wf(*bar),
    ensures
        res.deep_view() == chord_bar_of(*bar),
        res is Bar ==> forall|j: int| 0 <= j < res->Bar_0@.len() ==> items_normalized(#[trigger] res->Bar_0@[j].deep_view()),
{
    if bar_starts_empty(bar) {
        return Bar::Empty;
    }
    let mut bar_data: Vec<Vec<ChordItem<'i>>> = Vec::new();
    assert(bar_data.deep_view() =~= seq![]);
    let mut k: usize = 0;
    while k < bar.inner.len()
        invariant
            0 <= k <= bar.inner@.len(),
            bar_chord_wf(*bar),
            bar_data.deep_view() == chord_bar_fold(bar.inner@.take(k as int)),
            forall|j: int| 0 <= j < bar_data@.len() ==> items_normalized(#[trigger] bar_data@[j].deep_view()),
        decreases bar.inner@.len() - k,
    {
        let block_pair = &bar.inner[k];
        assert(block_chord_wf(*block_pair));
        let ghost start = bar_data.deep_view();
        let mut t: usize = 0;
        while t < block_pair.inner.len()
            invariant
                0 <= t <= block_pair.inner@.len(),
                block_chord_wf(*block_pair),
                bar_data.deep_view() == start + block_pair.inner@.take(t as int).map_values(
                    |p: Pair<'i, Rule>| items_of(p.inner@),
                ),
                forall|j: int| 0 <= j < bar_data@.len() ==> items_normalized(#[trigger] bar_data@[j].deep_view()),
            decreases block_pair.inner@.len() - t,
        {
            let type_pair = &block_pair.inner[t];
            assert(wf_items(type_pair.inner@));
            let items = mk_chord_block_item(type_pair);
            let ghost prev = bar_data.deep_view();
            bar_data.push(items);
            assert(bar_data.deep_view() =~= prev.push(items.deep_view()));
            assert(block_pair.inner@.take(t + 1).map_values(|p: Pair<'i, Rule>| items_of(p.inner@))
                =~= block_pair.inner@.take(t as int).map_values(|p: Pair<'i, Rule>| items_of(p.inner@)).push(
                items_of(block_pair.inner@[t as int].inner@),
            ));
            t = t + 1;
        }
        assert(block_pair.inner@.take(t as int) =~= block_pair.inner@);
        assert(bar.inner@.take(k + 1).drop_last() =~= bar.inner@.take(k as int));
        k = k + 1;
    }
    assert(bar.inner@.take(k as int) =~= bar.inner@);
    Bar::Bar(bar_data)
}

/// Builds the line that a `line` node stands for.
#[verifier::spinoff_prover]
pub fn mk_song_line<'i>(tree: &Pair<'i, Rule>) -> (out: Line<'i>)
    requires
        wf_line(*tree),
    ensures
        out.deep_view() == line_of(*tree),
        line_normalized(out.deep_view()),
        out.deep_view() is Compound <==> line_holds(*tree, Rule::lyric_block) && line_holds(*tree, Rule::chord_block),
        out.deep_view() is Lyric <==> line_holds(*tree, Rule::lyric_block) && !line_holds(*tree, Rule::chord_block),
        out.deep_view() is Chord <==> !line_holds(*tree, Rule::lyric_block),
{
    proof {
        lemma_line_kind(*tree);
    }
    let scan = scan_line(tree);
    if scan.lyric && scan.chord {
        let mut line_data: Vec<Bar<(Vec<ChordItem<'i>>, &'i str)>> = Vec::new();
        let mut b: usize = 0;
        while b < tree.inner.len()
            invariant
                0 <= b <= tree.inner@.len(),
                wf_line(*tree),
                scan == line_scan(*tree),
                scan.lyric && scan.chord,
                line_data.deep_view() == tree.inner@.take(b as int).map_values(
                    |bar: Pair<'i, Rule>| compound_bar_of(bar),
                ),
                line_normalized(LineModel::Compound(line_data.deep_view())),
            decreases tree.inner@.len() - b,
        {
            assert(!bar_is_empty(tree.inner@[b as int]) ==> bar_compound_wf(tree.inner@[b as int]));
            let bar = mk_compound_bar(&tree.inner[b]);
            let ghost prev = line_data.deep_view();
            line_data.push(bar);
            assert(line_data.deep_view() =~= prev.push(bar.deep_view()));
            assert(tree.inner@.take(b + 1).map_values(|bar: Pair<'i, Rule>| compound_bar_of(bar))
                =~= tree.inner@.take(b as int).map_values(|bar: Pair<'i, Rule>| compound_bar_of(bar)).push(
                compound_bar_of(tree.inner@[b as int]),
            ));
            b = b + 1;
        }
        assert(tree.inner@.take(b as int) =~= tree.inner@);
        Line::Compound(line_data)
    } else if scan.lyric {
        let mut line_data: Vec<Bar<&'i str>> = Vec::new();
        let mut b: usize = 0;
        while b < tree.inner.len()
            invariant
                0 <= b <= tree.inner@.len(),
                line_data.deep_view() == tree.inner@.take(b as int).map_values(
                    |bar: Pair<'i, Rule>| lyric_bar_of(bar),
                ),
            decreases tree.inner@.len() - b,
        {
            let bar = mk_lyric_bar(&tree.inner[b]);
            let ghost prev = line_data.deep_view();
            line_data.push(bar);
            assert(line_data.deep_view() =~= prev.push(bar.deep_view()));
            assert(tree.inner@.take(b + 1).map_values(|bar: Pair<'i, Rule>| lyric_bar_of(bar))
                =~= tree.inner@.take(b as int).map_values(|bar: Pair<'i, Rule>| lyric_bar_of(bar)).push(
                lyric_bar_of(tree.inner@[b as int]),
            ));
            b = b + 1;
        }
        assert(tree.inner@.take(b as int) =~= tree.inner@);
        Line::Lyric(line_data)
    } else {
        let mut line_data: Vec<Bar<Vec<ChordItem<'i>>>> = Vec::new();
        let mut b: usize = 0;
        while b < tree.inner.len()
            invariant
                0 <= b <= tree.inner@.len(),
                wf_line(*tree),
                scan == line_scan(*tree),
                !scan.lyric,
                line_data.deep_view() == tree.inner@.take(b as int).map_values(
                    |bar: Pair<'i, Rule>| chord_bar_of(bar),
                ),
                line_normalized(LineModel::Chord(line_data.deep_view())),
            decreases tree.inner@.len() - b,
        {
            assert(!bar_is_empty(tree.inner@[b as int]) ==> bar_chord_wf(tree.inner@[b as int]));
            let bar = mk_chord_bar(&tree.inner[b]);
            let ghost prev = line_data.deep_view();
            line_data.push(bar);
            assert(line_data.deep_view() =~= prev.push(bar.deep_view()));
            assert(tree.inner@.take(b + 1).map_values(|bar: Pair<'i, Rule>| chord_bar_of(bar))
                =~= tree.inner@.take(b as int).map_values(|bar: Pair<'i, Rule>| chord_bar_of(bar)).push(
                chord_bar_of(tree.inner@[b as int]),
            ));
            b = b + 1;
        }
        assert(tree.inner@.take(b as int) =~= tree.inner@);
        Line::Chord(line_data)
    }
}


// ------------------------------------------------------------------------
// Sections

/// The section a section node starts from: no id, no name, no lines.
pub open spec fn empty_section() -> SectionModel {
    SectionModel { id: ""@, name: ""@, delta_tonic: 0, lines: seq![] }
}

/// What one node of a section does to the section built so far: the head
/// sets the id (its first node) and the name (its second node), a rule
/// or a line is appended.
pub open spec fn section_step<'i>(s: SectionModel, p: Pair<'i, Rule>) -> SectionModel {
    if p.rule == Rule::section_head {
        SectionModel {
            id: if p.inner@.len() > 0 { p.inner@[0].text@ } else { s.id },
            name: if p.inner@.len() > 1 { p.inner@[1].text@ } else { s.name },
            delta_tonic: s.delta_tonic,
            lines: s.lines,
        }
    } else if p.rule == Rule::line_br {
        SectionModel { id: s.id, name: s.name, delta_tonic: s.delta_tonic, lines: s.lines.push(LineModel::Hr) }
    } else if p.rule == Rule::line {
        SectionModel { id: s.id, name: s.name, delta_tonic: s.delta_tonic, lines: s.lines.push(line_of(p)) }
    } else {
        s
    }
}

pub open spec fn section_fold<'i>(s: SectionModel, ps: Seq<Pair<'i, Rule>>) -> SectionModel
    decreases ps.len(),
{
    if ps.len() == 0 {
        s
    } else {
        section_step(section_fold(s, ps.drop_last()), ps.last())
    }
}

/// The section that a `section` node stands for.
pub open spec fn section_of<'i>(p: Pair<'i, Rule>) -> SectionModel {
    section_fold(empty_section(), p.inner@)
}

/// The line that a line node or a rule node of a section stands for.
pub open spec fn line_model<'i>(q: Pair<'i, Rule>) -> LineModel {
    if q.rule == Rule::line_br {
        LineModel::Hr
    } else {
        line_of(q)
    }
}

/// The line nodes and rule nodes among `ps`, in order.
pub open spec fn line_like_nodes<'i>(ps: Seq<Pair<'i, Rule>>) -> Seq<Pair<'i, Rule>> {
    ps.filter(|q: Pair<'i, Rule>| q.rule == Rule::line || q.rule == Rule::line_br)
}

/// The head nodes among `ps` that hold at least `n` nodes, in order.
pub open spec fn heads_with<'i>(ps: Seq<Pair<'i, Rule>>, n: int) -> Seq<Pair<'i, Rule>> {
    ps.filter(|q: Pair<'i, Rule>| q.rule == Rule::section_head && q.inner@.len() >= n)
}

#[verifier::spinoff_prover]
proof fn lemma_section_fold_parts<'i>(s: SectionModel, ps: Seq<Pair<'i, Rule>>)
    ensures
        section_fold(s, ps).lines == s.lines + line_like_nodes(ps).map_values(|q: Pair<'i, Rule>| line_model(q)),
        heads_with(ps, 1).len() == 0 ==> section_fold(s, ps).id == s.id,
        heads_with(ps, 1).len() > 0 ==> section_fold(s, ps).id == heads_with(ps, 1).last().inner@[0].text@,
        heads_with(ps, 2).len() == 0 ==> section_fold(s, ps).name == s.name,
        heads_with(ps, 2).len() > 0 ==> section_fold(s, ps).name == heads_with(ps, 2).last().inner@[1].text@,
        section_fold(s, ps).delta_tonic == s.delta_tonic,
    decreases ps.len(),
{
    reveal(Seq::filter);
    let g = |q: Pair<'i, Rule>| line_model(q);
    if ps.len() == 0 {
        assert(line_like_nodes(ps).map_values(g) =~= seq![]);
        assert(s.lines + line_like_nodes(ps).map_values(g) =~= s.lines);
    } else {
        let d = ps.drop_last();
        let last = ps.last();
        lemma_section_fold_parts(s, d);
        if last.rule == Rule::line || last.rule == Rule::line_br {
            assert(line_like_nodes(ps) == line_like_nodes(d).push(last));
            assert(line_like_nodes(d).push(last).map_values(g) =~= line_like_nodes(d).map_values(g).push(
                line_model(last),
            ));
            assert(s.lines + line_like_nodes(ps).map_values(g) =~= (s.lines + line_like_nodes(d).map_values(g)).push(
                line_model(last),
            ));
            assert(heads_with(ps, 1) == heads_with(d, 1));
            assert(heads_with(ps, 2) == heads_with(d, 2));
        } else {
            assert(line_like_nodes(ps) == line_like_nodes(d));
            if last.rule == Rule::section_head {
                if last.inner@.len() >= 2 {
                    assert(heads_with(ps, 1) == heads_with(d, 1).push(last));
                    assert(heads_with(ps, 2) == heads_with(d, 2).push(last));
                } else if last.inner@.len() >= 1 {
                    assert(heads_with(ps, 1) == heads_with(d, 1).push(last));
                    assert(heads_with(ps, 2) == heads_with(d, 2));
                } else {
                    assert(heads_with(ps, 1) == heads_with(d, 1));
                    assert(heads_with(ps, 2) == heads_with(d, 2));
                }
            } else {
                assert(heads_with(ps, 1) == heads_with(d, 1));
                assert(heads_with(ps, 2) == heads_with(d, 2));
            }
        }
    }
}

/// A section holds one line for each line node and each rule node inside
/// it, in order (a rule node gives a rule); its id and its name are the
/// first and second nodes of its last head that has them (empty where none
/// has); it is not transposed.
pub proof fn lemma_section_parts<'i>(p: Pair<'i, Rule>)
    ensures
        section_of(p).lines == line_like_nodes(p.inner@).map_values(|q: Pair<'i, Rule>| line_model(q)),
        heads_with(p.inner@, 1).len() == 0 ==> section_of(p).id == ""@,
        heads_with(p.inner@, 1).len() > 0 ==> section_of(p).id == heads_with(p.inner@, 1).last().inner@[0].text@,
        heads_with(p.inner@, 2).len() == 0 ==> section_of(p).name == ""@,
        heads_with(p.inner@, 2).len() > 0 ==> section_of(p).name == heads_with(p.inner@, 2).last().inner@[1].text@,
        section_of(p).delta_tonic == 0,
{
    lemma_section_fold_parts(empty_section(), p.inner@);
    assert(empty_section().lines + line_like_nodes(p.inner@).map_values(|q: Pair<'i, Rule>| line_model(q))
        =~= line_like_nodes(p.inner@).map_values(|q: Pair<'i, Rule>| line_model(q)));
}

/// A node of a section as the grammar gives it: the head, a rule or a
/// line.
pub open spec fn wf_section_part<'i>(q: Pair<'i, Rule>) -> bool {
    ||| q.rule == Rule::section_head
    ||| q.rule == Rule::line_br
    ||| q.rule == Rule::line && wf_line(q)
}

/// A section as the grammar gives it.
pub open spec fn wf_section<'i>(p: Pair<'i, Rule>) -> bool {
    forall|k: int| 0 <= k < p.inner@.len() ==> wf_section_part(#[trigger] p.inner@[k])
}

/// Builds the section that a `section` node stands for.
#[verifier::spinoff_prover]
pub fn mk_song_section<'i>(tree: &Pair<'i, Rule>) -> (out: Section<'i>)
    requires
        wf_section(*tree),
    ensures
        out.deep_view() == section_of(*tree),
        section_normalized(out.deep_view()),
{
    let mut out = Section { id: "", name: "", delta_tonic: 0, lines: Vec::new() };
    assert(out.lines.deep_view() =~= seq![]);
    let mut i: usize = 0;
    while i < tree.inner.len()
        invariant
            0 <= i <= tree.inner@.len(),
            wf_section(*tree),
            out.deep_view() == section_fold(empty_section(), tree.inner@.take(i as int)),
            section_normalized(out.deep_view()),
        decreases tree.inner@.len() - i,
    {
        let line_pair = &tree.inner[i];
        assert(wf_section_part(*line_pair));
        assert(tree.inner@.take(i + 1).drop_last() =~= tree.inner@.take(i as int));
        let ghost prev = out.lines.deep_view();
        assert(out.deep_view().lines == prev);
        assert(forall|l: int| 0 <= l < prev.len() ==> line_normalized(#[trigger] prev[l]));
        match line_pair.rule {
            Rule::section_head => {
                if line_pair.inner.len() > 0 {
                    out.id = line_pair.inner[0].text;
                }
                if line_pair.inner.len() > 1 {
                    out.name = line_pair.inner[1].text;
                }
            },
            Rule::line_br => {
                out.lines.push(Line::Hr);
                assert(out.lines.deep_view() =~= prev.push(LineModel::Hr));
                assert forall|l: int| 0 <= l < out.lines.deep_view().len() implies line_normalized(
                    #[trigger] out.lines.deep_view()[l],
                ) by {
                    if l < prev.len() {
                        assert(line_normalized(prev[l]));
                    }
                }
            },
            _ => {
                let line = mk_song_line(line_pair);
                out.lines.push(line);
                assert(out.lines.deep_view() =~= prev.push(line.deep_view()));
                assert forall|l: int| 0 <= l < out.lines.deep_view().len() implies line_normalized(
                    #[trigger] out.lines.deep_view()[l],
                ) by {
                    if l < prev.len() {
                        assert(line_normalized(prev[l]));
                    }
                }
            },
        }
        i = i + 1;
    }
    assert(tree.inner@.take(i as int) =~= tree.inner@);
    out
}

// ------------------------------------------------------------------------
// Songs

/// The song a chart starts from: no name, tonic C, no section.
pub open spec fn empty_song() -> SongModel {
    SongModel { name: ""@, tonic: 0, sections: seq![], names: seq![], orders: seq![] }
}

/// What one `id: value` line of the meta section does to the song: `name`
/// sets the song's name, `tonic` sets its tonic when the value names a
/// note; other ids are ignored.
pub open spec fn meta_step<'i>(s: SongModel, ml: Pair<'i, Rule>) -> SongModel {
    let id = ml.inner@[0].text@;
    let val = ml.inner@[1].text@;
    if id == "name"@ {
        SongModel { name: val, tonic: s.tonic, sections: s.sections, names: s.names, orders: s.orders }
    } else if id == "tonic"@ && tonic_value(val) is Some {
        SongModel {
            name: s.name,
            tonic: tonic_value(val)->0,
            sections: s.sections,
            names: s.names,
            orders: s.orders,
        }
    } else {
        s
    }
}

pub open spec fn meta_fold<'i>(s: SongModel, ps: Seq<Pair<'i, Rule>>) -> SongModel
    decreases ps.len(),
{
    if ps.len() == 0 {
        s
    } else {
        meta_step(meta_fold(s, ps.drop_last()), ps.last())
    }
}

/// The song has a section with the id `id`.
pub open spec fn has_section(s: SongModel, id: Seq<char>) -> bool {
    exists|k: int| 0 <= k < s.sections.len() && (#[trigger] s.sections[k]).id == id
}

/// Adds a section to the song unless a section with its id is there
/// already; a new section is registered under its id with its index.
pub open spec fn add_section(s: SongModel, sec: SectionModel) -> SongModel {
    if has_section(s, sec.id) {
        s
    } else {
        SongModel {
            name: s.name,
            tonic: s.tonic,
            sections: s.sections.push(sec),
            names: s.names.push((sec.id, s.sections.len() as usize)),
            orders: s.orders,
        }
    }
}

/// What one node of a chart does to the song built so far.
pub open spec fn song_step<'i>(s: SongModel, p: Pair<'i, Rule>) -> SongModel {
    if p.rule == Rule::meta_section {
        meta_fold(s, p.inner@)
    } else if p.rule == Rule::section {
        add_section(s, section_of(p))
    } else {
        s
    }
}

pub open spec fn song_parts_fold<'i>(s: SongModel, ps: Seq<Pair<'i, Rule>>) -> SongModel
    decreases ps.len(),
{
    if ps.len() == 0 {
        s
    } else {
        song_step(song_parts_fold(s, ps.drop_last()), ps.last())
    }
}

pub open spec fn song_fold<'i>(s: SongModel, tops: Seq<Pair<'i, Rule>>) -> SongModel
    decreases tops.len(),
{
    if tops.len() == 0 {
        s
    } else {
        song_parts_fold(song_fold(s, tops.drop_last()), tops.last().inner@)
    }
}

/// The song that the top nodes of a chart's parse tree stand for.
pub open spec fn song_of<'i>(tops: Seq<Pair<'i, Rule>>) -> SongModel {
    song_fold(empty_song(), tops)
}

/// The `id: value` lines of the meta sections among `ps`, in order.
pub open spec fn meta_lines_of<'i>(ps: Seq<Pair<'i, Rule>>) -> Seq<Pair<'i, Rule>> {
    ps.filter(|p: Pair<'i, Rule>| p.rule == Rule::meta_section).map_values(|p: Pair<'i, Rule>| p.inner@).flatten()
}

/// The `id: value` lines of all the meta sections of a chart, in order.
pub open spec fn chart_meta_lines<'i>(tops: Seq<Pair<'i, Rule>>) -> Seq<Pair<'i, Rule>> {
    tops.map_values(|p: Pair<'i, Rule>| meta_lines_of(p.inner@)).flatten()
}

/// The meta lines among `ls` whose id is `name`.
pub open spec fn name_lines<'i>(ls: Seq<Pair<'i, Rule>>) -> Seq<Pair<'i, Rule>> {
    ls.filter(|ml: Pair<'i, Rule>| ml.inner@[0].text@ == "name"@)
}

/// The meta lines among `ls` whose id is `tonic` and whose value names a
/// note.
pub open spec fn tonic_lines<'i>(ls: Seq<Pair<'i, Rule>>) -> Seq<Pair<'i, Rule>> {
    ls.filter(|ml: Pair<'i, Rule>| ml.inner@[0].text@ == "tonic"@ && tonic_value(ml.inner@[1].text@) is Some)
}

#[verifier::spinoff_prover]
proof fn lemma_meta_fold_lines<'i>(s: SongModel, ls: Seq<Pair<'i, Rule>>)
    ensures
        name_lines(ls).len() == 0 ==> meta_fold(s, ls).name == s.name,
        name_lines(ls).len() > 0 ==> meta_fold(s, ls).name == name_lines(ls).last().inner@[1].text@,
        tonic_lines(ls).len() == 0 ==> meta_fold(s, ls).tonic == s.tonic,
        tonic_lines(ls).len() > 0 ==> meta_fold(s, ls).tonic == tonic_value(
            tonic_lines(ls).last().inner@[1].text@,
        )->0,
    decreases ls.len(),
{
    reveal(Seq::filter);
    reveal_strlit("name");
    reveal_strlit("tonic");
    if ls.len() > 0 {
        let d = ls.drop_last();
        let last = ls.last();
        lemma_meta_fold_lines(s, d);
        assert("name"@ != "tonic"@) by {
            assert("name"@.len() != "tonic"@.len());
        }
        if last.inner@[0].text@ == "name"@ {
            assert(name_lines(ls) == name_lines(d).push(last));
            assert(tonic_lines(ls) == tonic_lines(d));
        } else if last.inner@[0].text@ == "tonic"@ && tonic_value(last.inner@[1].text@) is Some {
            assert(name_lines(ls) == name_lines(d));
            assert(tonic_lines(ls) == tonic_lines(d).push(last));
        } else {
            assert(name_lines(ls) == name_lines(d));
            assert(tonic_lines(ls) == tonic_lines(d));
        }
    }
}

proof fn lemma_meta_concat<'i>(s: SongModel, a: Seq<Pair<'i, Rule>>, b: Seq<Pair<'i, Rule>>)
    ensures
        meta_fold(s, a + b) == meta_fold(meta_fold(s, a), b),
    decreases b.len(),
{
    if b.len() == 0 {
        assert(a + b =~= a);
    } else {
        lemma_meta_concat(s, a, b.drop_last());
        assert((a + b).drop_last() =~= a + b.drop_last());
        assert((a + b).last() == b.last());
    }
}

proof fn lemma_meta_agree<'i>(s1: SongModel, s2: SongModel, ls: Seq<Pair<'i, Rule>>)
    requires
        s1.name == s2.name,
        s1.tonic == s2.tonic,
    ensures
        meta_fold(s1, ls).name == meta_fold(s2, ls).name,
        meta_fold(s1, ls).tonic == meta_fold(s2, ls).tonic,
    decreases ls.len(),
{
    if ls.len() > 0 {
        lemma_meta_agree(s1, s2, ls.drop_last());
    }
}

#[verifier::spinoff_prover]
proof fn lemma_parts_meta<'i>(s: SongModel, ps: Seq<Pair<'i, Rule>>)
    ensures
        song_parts_fold(s, ps).name == meta_fold(s, meta_lines_of(ps)).name,
        song_parts_fold(s, ps).tonic == meta_fold(s, meta_lines_of(ps)).tonic,
    decreases ps.len(),
{
    reveal(Seq::filter);
    let f = |p: Pair<'i, Rule>| p.rule == Rule::meta_section;
    let g = |p: Pair<'i, Rule>| p.inner@;
    ps.filter(f).map_values(g).lemma_flatten_and_flatten_alt_are_equivalent();
    if ps.len() == 0 {
        assert(ps.filter(f).map_values(g) =~= seq![]);
        assert(meta_lines_of(ps) =~= seq![]);
    } else {
        let d = ps.drop_last();
        let last = ps.last();
        lemma_parts_meta(s, d);
        d.filter(f).map_values(g).lemma_flatten_and_flatten_alt_are_equivalent();
        let mid = song_parts_fold(s, d);
        let m = meta_fold(s, meta_lines_of(d));
        if last.rule == Rule::meta_section {
            assert(ps.filter(f) == d.filter(f).push(last));
            assert(ps.filter(f).map_values(g) =~= d.filter(f).map_values(g).push(last.inner@));
            assert(ps.filter(f).map_values(g).drop_last() =~= d.filter(f).map_values(g));
            assert(meta_lines_of(ps) == meta_lines_of(d) + last.inner@);
            lemma_meta_concat(s, meta_lines_of(d), last.inner@);
            lemma_meta_agree(mid, m, last.inner@);
        } else {
            assert(ps.filter(f) == d.filter(f));
        }
    }
}

#[verifier::spinoff_prover]
proof fn lemma_fold_meta<'i>(s: SongModel, tops: Seq<Pair<'i, Rule>>)
    ensures
        song_fold(s, tops).name == meta_fold(s, chart_meta_lines(tops)).name,
        song_fold(s, tops).tonic == meta_fold(s, chart_meta_lines(tops)).tonic,
    decreases tops.len(),
{
    let g = |p: Pair<'i, Rule>| meta_lines_of(p.inner@);
    tops.map_values(g).lemma_flatten_and_flatten_alt_are_equivalent();
    if tops.len() == 0 {
        assert(chart_meta_lines(tops) =~= seq![]);
    } else {
        let d = tops.drop_last();
        let last = tops.last();
        lemma_fold_meta(s, d);
        d.map_values(g).lemma_flatten_and_flatten_alt_are_equivalent();
        assert(tops.map_values(g).drop_last() =~= d.map_values(g));
        assert(chart_meta_lines(tops) == chart_meta_lines(d) + meta_lines_of(last.inner@));
        let mid = song_fold(s, d);
        let m = meta_fold(s, chart_meta_lines(d));
        lemma_parts_meta(mid, last.inner@);
        lemma_meta_agree(mid, m, meta_lines_of(last.inner@));
        lemma_meta_concat(s, chart_meta_lines(d), meta_lines_of(last.inner@));
    }
}

/// The song's name is the value of the last `name` line of the chart's
/// meta sections (empty where there is none); its tonic is the note that
/// the last `tonic` line naming a note gives (C where there is none).
pub proof fn lemma_song_meta<'i>(tops: Seq<Pair<'i, Rule>>)
    ensures
        name_lines(chart_meta_lines(tops)).len() == 0 ==> song_of(tops).name == ""@,
        name_lines(chart_meta_lines(tops)).len() > 0 ==> song_of(tops).name == name_lines(
            chart_meta_lines(tops),
        ).last().inner@[1].text@,
        tonic_lines(chart_meta_lines(tops)).len() == 0 ==> song_of(tops).tonic == 0,
        tonic_lines(chart_meta_lines(tops)).len() > 0 ==> song_of(tops).tonic == tonic_value(
            tonic_lines(chart_meta_lines(tops)).last().inner@[1].text@,
        )->0,
{
    lemma_fold_meta(empty_song(), tops);
    lemma_meta_fold_lines(empty_song(), chart_meta_lines(tops));
}

/// Some node among `ps` is a section node whose section has the id `id`.
pub open spec fn nodes_give_id<'i>(ps: Seq<Pair<'i, Rule>>, id: Seq<char>) -> bool {
    exists|k: int| 0 <= k < ps.len() && (#[trigger] ps[k]).rule == Rule::section && section_of(ps[k]).id == id
}

/// Among `ps`, the first section node whose section has the id of `sec`
/// stands for `sec`.
pub open spec fn first_in_nodes<'i>(ps: Seq<Pair<'i, Rule>>, sec: SectionModel) -> bool {
    exists|k: int|
        0 <= k < ps.len() && (#[trigger] ps[k]).rule == Rule::section && section_of(ps[k]) == sec && forall|k2: int|
            0 <= k2 < k && (#[trigger] ps[k2]).rule == Rule::section ==> section_of(ps[k2]).id != sec.id
}

/// Some top node of a chart holds a section node whose section has the id
/// `id`.
pub open spec fn chart_gives_id<'i>(tops: Seq<Pair<'i, Rule>>, id: Seq<char>) -> bool {
    exists|t: int| 0 <= t < tops.len() && nodes_give_id(#[trigger] tops[t].inner@, id)
}

/// In the chart, the first section node whose section has the id of `sec`
/// stands for `sec`.
pub open spec fn first_in_chart<'i>(tops: Seq<Pair<'i, Rule>>, sec: SectionModel) -> bool {
    exists|t: int|
        0 <= t < tops.len() && first_in_nodes(#[trigger] tops[t].inner@, sec) && forall|t2: int|
            0 <= t2 < t ==> !nodes_give_id(#[trigger] tops[t2].inner@, sec.id)
}

proof fn lemma_meta_keeps_sections<'i>(s: SongModel, ps: Seq<Pair<'i, Rule>>)
    ensures
        meta_fold(s, ps).sections == s.sections,
    decreases ps.len(),
{
    if ps.len() > 0 {
        lemma_meta_keeps_sections(s, ps.drop_last());
    }
}

#[verifier::spinoff_prover]
proof fn lemma_parts_sections<'i>(s: SongModel, ps: Seq<Pair<'i, Rule>>)
    ensures
        forall|id: Seq<char>|
            #[trigger] has_section(song_parts_fold(s, ps), id) <==> has_section(s, id) || nodes_give_id(ps, id),
        s.sections.len() <= song_parts_fold(s, ps).sections.len(),
        forall|j: int|
            0 <= j < song_parts_fold(s, ps).sections.len() ==> (j < s.sections.len()
                && #[trigger] song_parts_fold(s, ps).sections[j] == s.sections[j]) || (!has_section(
                s,
                song_parts_fold(s, ps).sections[j].id,
            ) && first_in_nodes(ps, song_parts_fold(s, ps).sections[j])),
    decreases ps.len(),
{
    if ps.len() > 0 {
        let d = ps.drop_last();
        let last = ps.last();
        let mid = song_parts_fold(s, d);
        let res = song_parts_fold(s, ps);
        lemma_parts_sections(s, d);
        assert(res == song_step(mid, last));
        assert forall|id: Seq<char>| nodes_give_id(d, id) implies nodes_give_id(ps, id) by {
            let k = choose|k: int| 0 <= k < d.len() && (#[trigger] d[k]).rule == Rule::section && section_of(d[k]).id == id;
            assert(ps[k] == d[k]);
        }
        assert forall|sec: SectionModel| first_in_nodes(d, sec) implies first_in_nodes(ps, sec) by {
            let k = choose|k: int|
                0 <= k < d.len() && (#[trigger] d[k]).rule == Rule::section && section_of(d[k]) == sec && forall|k2: int|
                    0 <= k2 < k && (#[trigger] d[k2]).rule == Rule::section ==> section_of(d[k2]).id != sec.id;
            assert(ps[k] == d[k]);
            assert forall|k2: int| 0 <= k2 < k && (#[trigger] ps[k2]).rule == Rule::section implies section_of(ps[k2]).id
                != sec.id by {
                assert(ps[k2] == d[k2]);
            }
        }
        assert forall|id: Seq<char>| nodes_give_id(ps, id) implies nodes_give_id(d, id) || (last.rule
            == Rule::section && section_of(last).id == id) by {
            let k = choose|k: int| 0 <= k < ps.len() && (#[trigger] ps[k]).rule == Rule::section && section_of(ps[k]).id == id;
            if k < d.len() {
                assert(ps[k] == d[k]);
            }
        }
        if last.rule == Rule::meta_section {
            lemma_meta_keeps_sections(mid, last.inner@);
            assert(res.sections == mid.sections);
            assert forall|id: Seq<char>| #[trigger] has_section(res, id) == has_section(mid, id) by {
                if has_section(mid, id) {
                    let k = choose|k: int| 0 <= k < mid.sections.len() && (#[trigger] mid.sections[k]).id == id;
                    assert(res.sections[k].id == id);
                }
                if has_section(res, id) {
                    let k = choose|k: int| 0 <= k < res.sections.len() && (#[trigger] res.sections[k]).id == id;
                    assert(mid.sections[k].id == id);
                }
            }
        } else if last.rule == Rule::section {
            let sec = section_of(last);
            if !has_section(mid, sec.id) {
                assert(res.sections == mid.sections.push(sec));
                assert forall|id: Seq<char>| #[trigger] has_section(res, id) == (has_section(mid, id) || sec.id == id) by {
                    if has_section(mid, id) {
                        let k = choose|k: int| 0 <= k < mid.sections.len() && (#[trigger] mid.sections[k]).id == id;
                        assert(res.sections[k] == mid.sections[k]);
                    }
                    if sec.id == id {
                        assert(res.sections[mid.sections.len() as int] == sec);
                    }
                    if has_section(res, id) {
                        let k = choose|k: int| 0 <= k < res.sections.len() && (#[trigger] res.sections[k]).id == id;
                        if k < mid.sections.len() {
                            assert(mid.sections[k] == res.sections[k]);
                        }
                    }
                }
                let n = ps.len() - 1;
                assert(ps[n] == last);
                assert(!nodes_give_id(d, sec.id));
                assert forall|k2: int| 0 <= k2 < n && (#[trigger] ps[k2]).rule == Rule::section implies section_of(ps[k2]).id
                    != sec.id by {
                    assert(ps[k2] == d[k2]);
                }
                assert(first_in_nodes(ps, sec));
                assert forall|j: int| 0 <= j < res.sections.len() implies (j < s.sections.len()
                    && #[trigger] res.sections[j] == s.sections[j]) || (!has_section(s, res.sections[j].id)
                    && first_in_nodes(ps, res.sections[j])) by {
                    if j < mid.sections.len() {
                        assert(res.sections[j] == mid.sections[j]);
                    }
                }
            } else {
                assert forall|id: Seq<char>| nodes_give_id(ps, id) implies has_section(mid, id) || nodes_give_id(d, id) by {
                }
            }
        }
    }
}

#[verifier::spinoff_prover]
proof fn lemma_fold_sections<'i>(s: SongModel, tops: Seq<Pair<'i, Rule>>)
    ensures
        forall|id: Seq<char>|
            #[trigger] has_section(song_fold(s, tops), id) <==> has_section(s, id) || chart_gives_id(tops, id),
        s.sections.len() <= song_fold(s, tops).sections.len(),
        forall|j: int|
            0 <= j < song_fold(s, tops).sections.len() ==> (j < s.sections.len()
                && #[trigger] song_fold(s, tops).sections[j] == s.sections[j]) || (!has_section(
                s,
                song_fold(s, tops).sections[j].id,
            ) && first_in_chart(tops, song_fold(s, tops).sections[j])),
    decreases tops.len(),
{
    if tops.len() > 0 {
        let d = tops.drop_last();
        let last = tops.last();
        let mid = song_fold(s, d);
        let res = song_fold(s, tops);
        let n = tops.len() - 1;
        lemma_fold_sections(s, d);
        lemma_parts_sections(mid, last.inner@);
        assert(res == song_parts_fold(mid, last.inner@));
        assert(tops[n] == last);
        assert forall|id: Seq<char>| chart_gives_id(d, id) implies chart_gives_id(tops, id) by {
            let t = choose|t: int| 0 <= t < d.len() && nodes_give_id(#[trigger] d[t].inner@, id);
            assert(tops[t] == d[t]);
        }
        assert forall|sec: SectionModel| first_in_chart(d, sec) implies first_in_chart(tops, sec) by {
            let t = choose|t: int|
                0 <= t < d.len() && first_in_nodes(#[trigger] d[t].inner@, sec) && forall|t2: int|
                    0 <= t2 < t ==> !nodes_give_id(#[trigger] d[t2].inner@, sec.id);
            assert(tops[t] == d[t]);
            assert forall|t2: int| 0 <= t2 < t implies !nodes_give_id(#[trigger] tops[t2].inner@, sec.id) by {
                assert(tops[t2] == d[t2]);
            }
        }
        assert forall|id: Seq<char>| nodes_give_id(last.inner@, id) implies chart_gives_id(tops, id) by {
            assert(nodes_give_id(tops[n].inner@, id));
        }
        assert forall|id: Seq<char>| chart_gives_id(tops, id) implies chart_gives_id(d, id) || nodes_give_id(
            last.inner@,
            id,
        ) by {
            let t = choose|t: int| 0 <= t < tops.len() && nodes_give_id(#[trigger] tops[t].inner@, id);
            if t < d.len() {
                assert(tops[t] == d[t]);
            } else {
                assert(tops[t] == last);
            }
        }
        assert forall|id: Seq<char>| #[trigger] has_section(res, id) <==> has_section(s, id) || chart_gives_id(tops, id) by {
            assert(has_section(res, id) == (has_section(mid, id) || nodes_give_id(last.inner@, id)));
            assert(has_section(mid, id) == (has_section(s, id) || chart_gives_id(d, id)));
        }
        assert forall|j: int| 0 <= j < res.sections.len() implies (j < s.sections.len()
            && #[trigger] res.sections[j] == s.sections[j]) || (!has_section(s, res.sections[j].id)
            && first_in_chart(tops, res.sections[j])) by {
            if j < mid.sections.len() && res.sections[j] == mid.sections[j] {
                assert(mid.sections[j] == res.sections[j]);
            } else {
                let sec = res.sections[j];
                assert(!has_section(mid, sec.id) && first_in_nodes(last.inner@, sec));
                assert(!has_section(s, sec.id) && !chart_gives_id(d, sec.id));
                assert forall|t2: int| 0 <= t2 < n implies !nodes_give_id(#[trigger] tops[t2].inner@, sec.id) by {
                    assert(tops[t2] == d[t2]);
                    if nodes_give_id(d[t2].inner@, sec.id) {
                        assert(chart_gives_id(d, sec.id));
                    }
                }
                assert(first_in_nodes(tops[n].inner@, sec));
            }
        }
    }
}

/// Every section of a chart is kept, and a repeated id refers to the first
/// section with that id: the song has a section with a given id exactly
/// when some section node of the chart has that id, whether or not that
/// section holds lines yet, and each section of the song is the section
/// that the chart's first section node with its id stands for.
pub proof fn lemma_song_sections<'i>(tops: Seq<Pair<'i, Rule>>)
    ensures
        forall|id: Seq<char>| #[trigger] has_section(song_of(tops), id) <==> chart_gives_id(tops, id),
        forall|j: int|
            0 <= j < song_of(tops).sections.len() ==> first_in_chart(tops, #[trigger] song_of(tops).sections[j]),
{
    lemma_fold_sections(empty_song(), tops);
}

/// A node of a chart as the grammar gives it: a meta section of `id: value`
/// lines, a section, or the end of input.
pub open spec fn wf_song_part<'i>(p: Pair<'i, Rule>) -> bool {
    ||| p.rule == Rule::meta_section && forall|k: int|
        0 <= k < p.inner@.len() ==> (#[trigger] p.inner@[k]).inner@.len() >= 2
    ||| p.rule == Rule::section && wf_section(p)
    ||| p.rule == Rule::EOI
}

/// A chart's parse tree as the grammar gives it.
pub open spec fn wf_song<'i>(tops: Seq<Pair<'i, Rule>>) -> bool {
    forall|t: int, k: int|
        0 <= t < tops.len() && 0 <= k < tops[t].inner@.len() ==> wf_song_part(#[trigger] tops[t].inner@[k])
}

/// Each section of the song is registered under its id with its index, in
/// order.
pub open spec fn names_index_sections(s: SongModel) -> bool {
    &&& s.names.len() == s.sections.len()
    &&& forall|k: int| 0 <= k < s.names.len() ==> #[trigger] s.names[k] == (s.sections[k].id, k as usize)
}

/// No two sections of the song have the same id.
pub open spec fn section_ids_unique(s: SongModel) -> bool {
    forall|j: int, k: int|
        0 <= j < k < s.sections.len() ==> (#[trigger] s.sections[j]).id != (#[trigger] s.sections[k]).id
}

fn has_name(names: &Vec<(String, usize)>, id: &str) -> (res: bool)
    ensures
        res == exists|k: int| 0 <= k < names@.len() && (#[trigger] names@[k]).0@ == id@,
{
    let mut k: usize = 0;
    while k < names.len()
        invariant
            0 <= k <= names@.len(),
            forall|u: int| 0 <= u < k ==> (#[trigger] names@[u]).0@ != id@,
        decreases names@.len() - k,
    {
        if str_eq(names[k].0.as_str(), id) {
            return true;
        }
        k = k + 1;
    }
    false
}

/// Builds the song that the top nodes of a chart's parse tree stand for.
#[verifier::spinoff_prover]
pub fn mk_song<'i>(tree: &Vec<Pair<'i, Rule>>) -> (out: Song<'i>)
    requires
        wf_song(tree@),
    ensures
        out.deep_view() == song_of(tree@),
        song_normalized(out.deep_view()),
        names_index_sections(out.deep_view()),
        section_ids_unique(out.deep_view()),
        forall|id: Seq<char>| #[trigger] has_section(out.deep_view(), id) <==> chart_gives_id(tree@, id),
        forall|j: int|
            0 <= j < out.deep_view().sections.len() ==> first_in_chart(tree@, #[trigger] out.deep_view().sections[j]),
{
    proof {
        lemma_song_sections(tree@);
    }
    let mut out = Song { name: "", tonic: 0, sections: Vec::new(), names: Vec::new(), orders: Vec::new() };
    assert(out.sections.deep_view() =~= seq![]);
    assert(out.names.deep_view() =~= seq![]);
    assert(out.orders.deep_view() =~= seq![]);
    assert(out.deep_view() == empty_song());
    let mut t: usize = 0;
    while t < tree.len()
        invariant
            0 <= t <= tree@.len(),
            wf_song(tree@),
            out.deep_view() == song_fold(empty_song(), tree@.take(t as int)),
            song_normalized(out.deep_view()),
            names_index_sections(out.deep_view()),
            section_ids_unique(out.deep_view()),
        decreases tree@.len() - t,
    {
        let pair = &tree[t];
        assert(tree@.take(t + 1).drop_last() =~= tree@.take(t as int));
        let ghost start = out.deep_view();
        let mut i: usize = 0;
        while i < pair.inner.len()
            invariant
                0 <= i <= pair.inner@.len(),
                wf_song(tree@),
                *pair == tree@[t as int],
                0 <= t < tree@.len(),
                out.deep_view() == song_parts_fold(start, pair.inner@.take(i as int)),
                song_normalized(out.deep_view()),
                names_index_sections(out.deep_view()),
                section_ids_unique(out.deep_view()),
            decreases pair.inner@.len() - i,
        {
            let inner_pair = &pair.inner[i];
            assert(wf_song_part(tree@[t as int].inner@[i as int]));
            assert(pair.inner@.take(i + 1).drop_last() =~= pair.inner@.take(i as int));
            match inner_pair.rule {
                Rule::meta_section => {
                    let ghost before = out.deep_view();
                    let mut m: usize = 0;
                    while m < inner_pair.inner.len()
                        invariant
                            0 <= m <= inner_pair.inner@.len(),
                            forall|k: int|
                                0 <= k < inner_pair.inner@.len() ==> (#[trigger] inner_pair.inner@[k]).inner@.len()
                                    >= 2,
                            out.deep_view() == meta_fold(before, inner_pair.inner@.take(m as int)),
                            out.deep_view().sections == before.sections,
                            out.deep_view().names == before.names,
                            song_normalized(out.deep_view()),
                            names_index_sections(out.deep_view()),
                            section_ids_unique(out.deep_view()),
                        decreases inner_pair.inner@.len() - m,
                    {
                        let meta_line = &inner_pair.inner[m];
                        assert(meta_line.inner@.len() >= 2);
                        assert(inner_pair.inner@.take(m + 1).drop_last() =~= inner_pair.inner@.take(m as int));
                        let meta_id = meta_line.inner[0].text;
                        let meta_val = meta_line.inner[1].text;
                        if str_eq(meta_id, "name") {
                            out.name = meta_val;
                        } else if str_eq(meta_id, "tonic") {
                            if let Some(v) = tonic_to_u8(meta_val) {
                                out.tonic = v;
                            }
                        }
                        m = m + 1;
                    }
                    assert(inner_pair.inner@.take(m as int) =~= inner_pair.inner@);
                },
                Rule::section => {
                    let new_section = mk_song_section(inner_pair);
                    let ghost before = out.deep_view();
                    if !has_name(&out.names, new_section.id) {
                        assert(!has_section(before, new_section.id@)) by {
                            if has_section(before, new_section.id@) {
                                let k = choose|k: int|
                                    0 <= k < before.sections.len() && (#[trigger] before.sections[k]).id
                                        == new_section.id@;
                                assert(out.names@[k].0@ == before.names[k].0);
                            }
                        }
                        let idx = out.sections.len();
                        out.names.push((new_section.id.to_owned(), idx));
                        let ghost sec = new_section.deep_view();
                        out.sections.push(new_section);
                        assert(out.deep_view().sections =~= before.sections.push(sec));
                        assert(out.deep_view().names =~= before.names.push((sec.id, idx)));
                    } else {
                        assert(has_section(before, new_section.id@)) by {
                            let k = choose|k: int|
                                0 <= k < out.names@.len() && (#[trigger] out.names@[k]).0@ == new_section.id@;
                            assert(before.names[k] == (before.sections[k].id, k as usize));
                        }
                    }
                },
                _ => {},
            }
            i = i + 1;
        }
        assert(pair.inner@.take(i as int) =~= pair.inner@);
        t = t + 1;
    }
    assert(tree@.take(t as int) =~= tree@);
    out
}


// ------------------------------------------------------------------------
// Checking the shape of a tree

fn ext_ok<'i>(p: &Pair<'i, Rule>) -> (res: bool)
    ensures
        res == wf_ext(*p),
{
    let mut k: usize = 0;
    while k < p.inner.len()
        invariant
            0 <= k <= p.inner@.len(),
            forall|j: int|
                0 <= j < k ==> {
                    let r = (#[trigger] p.inner@[j]).rule;
                    r == Rule::ext_keywords || r == Rule::ext_unk_text || r == Rule::ext_alt
                },
        decreases p.inner@.len() - k,
    {
        let r = p.inner[k].rule;
        if !(r == Rule::ext_keywords || r == Rule::ext_unk_text || r == Rule::ext_alt) {
            assert(p.inner@[k as int].rule == r);
            return false;
        }
        k = k + 1;
    }
    true
}

fn chord_part_ok<'i>(q: &Pair<'i, Rule>) -> (res: bool)
    ensures
        res == wf_chord_part(*q),
{
    match q.rule {
        Rule::root => tonic_to_u8(q.text).is_some(),
        Rule::min => true,
        Rule::ext => ext_ok(q),
        Rule::bass => q.inner.len() > 0 && tonic_to_u8(q.inner[0].text).is_some(),
        _ => false,
    }
}

fn chord_ok<'i>(p: &Pair<'i, Rule>) -> (res: bool)
    ensures
        res == wf_chord(*p),
{
    let mut k: usize = 0;
    while k < p.inner.len()
        invariant
            0 <= k <= p.inner@.len(),
            forall|j: int| 0 <= j < k ==> wf_chord_part(#[trigger] p.inner@[j]),
        decreases p.inner@.len() - k,
    {
        if !chord_part_ok(&p.inner[k]) {
            return false;
        }
        k = k + 1;
    }
    true
}

fn melody_ok<'i>(p: &Pair<'i, Rule>) -> (res: bool)
    ensures
        res == wf_melody(*p),
{
    let mut k: usize = 0;
    while k < p.inner.len()
        invariant
            0 <= k <= p.inner@.len(),
            forall|j: int|
                0 <= j < k && (#[trigger] p.inner@[j]).rule == Rule::root ==> tonic_value(p.inner@[j].text@) is Some,
        decreases p.inner@.len() - k,
    {
        let q = &p.inner[k];
        if q.rule == Rule::root && tonic_to_u8(q.text).is_none() {
            return false;
        }
        k = k + 1;
    }
    true
}

fn item_ok<'i>(q: &Pair<'i, Rule>) -> (res: bool)
    ensures
        res == wf_item(*q),
{
    match q.rule {
        Rule::parens => true,
        Rule::nonchord => true,
        Rule::melody => melody_ok(q),
        Rule::chord => chord_ok(q),
        _ => false,
    }
}

fn items_ok<'i>(ps: &Vec<Pair<'i, Rule>>) -> (res: bool)
    ensures
        res == wf_items(ps@),
{
    let mut k: usize = 0;
    while k < ps.len()
        invariant
            0 <= k <= ps@.len(),
            forall|j: int| 0 <= j < k ==> wf_item(#[trigger] ps@[j]),
        decreases ps@.len() - k,
    {
        if !item_ok(&ps[k]) {
            return false;
        }
        k = k + 1;
    }
    true
}

fn block_compound_ok<'i>(block: &Pair<'i, Rule>) -> (res: bool)
    ensures
        res == block_compound_wf(*block),
{
    let mut k: usize = 0;
    while k < block.inner.len()
        invariant
            0 <= k <= block.inner@.len(),
            forall|j: int| 0 <= j < k ==> wf_compound_part(#[trigger] block.inner@[j]),
        decreases block.inner@.len() - k,
    {
        let t = &block.inner[k];
        let ok = match t.rule {
            Rule::lyric_block => true,
            Rule::empty_block => true,
            Rule::chord_block => items_ok(&t.inner),
            _ => false,
        };
        if !ok {
            assert(!wf_compound_part(block.inner@[k as int]));
            return false;
        }
        k = k + 1;
    }
    true
}

fn bar_compound_ok<'i>(bar: &Pair<'i, Rule>) -> (res: bool)
    ensures
        res == bar_compound_wf(*bar),
{
    let mut k: usize = 0;
    while k < bar.inner.len()
        invariant
            0 <= k <= bar.inner@.len(),
            forall|j: int| 0 <= j < k ==> block_compound_wf(#[trigger] bar.inner@[j]),
        decreases bar.inner@.len() - k,
    {
        if !block_compound_ok(&bar.inner[k]) {
            return false;
        }
        k = k + 1;
    }
    true
}

fn block_chord_ok<'i>(block: &Pair<'i, Rule>) -> (res: bool)
    ensures
        res == block_chord_wf(*block),
{
    let mut k: usize = 0;
    while k < block.inner.len()
        invariant
            0 <= k <= block.inner@.len(),
            forall|j: int| 0 <= j < k ==> wf_items((#[trigger] block.inner@[j]).inner@),
        decreases block.inner@.len() - k,
    {
        if !items_ok(&block.inner[k].inner) {
            return false;
        }
        k = k + 1;
    }
    true
}

fn bar_chord_ok<'i>(bar: &Pair<'i, Rule>) -> (res: bool)
    ensures
        res == bar_chord_wf(*bar),
{
    let mut k: usize = 0;
    while k < bar.inner.len()
        invariant
            0 <= k <= bar.inner@.len(),
            forall|j: int| 0 <= j < k ==> block_chord_wf(#[trigger] bar.inner@[j]),
        decreases bar.inner@.len() - k,
    {
        if !block_chord_ok(&bar.inner[k]) {
            return false;
        }
        k = k + 1;
    }
    true
}

fn line_ok<'i>(line: &Pair<'i, Rule>) -> (res: bool)
    ensures
        res == wf_line(*line),
{
    let scan = scan_line(line);
    if !scan.ok || !(scan.lyric || scan.chord) {
        return false;
    }
    let compound = scan.lyric && scan.chord;
    let mut b: usize = 0;
    while b < line.inner.len()
        invariant
            0 <= b <= line.inner@.len(),
            scan == line_scan(*line),
            compound == (scan.lyric && scan.chord),
            compound ==> forall|x: int|
                0 <= x < b && !bar_is_empty(line.inner@[x]) ==> bar_compound_wf(#[trigger] line.inner@[x]),
            !scan.lyric ==> forall|x: int|
                0 <= x < b && !bar_is_empty(line.inner@[x]) ==> bar_chord_wf(#[trigger] line.inner@[x]),
        decreases line.inner@.len() - b,
    {
        let bar = &line.inner[b];
        if !bar_starts_empty(bar) {
            if compound && !bar_compound_ok(bar) {
                return false;
            }
            if !scan.lyric && !bar_chord_ok(bar) {
                return false;
            }
        }
        b = b + 1;
    }
    true
}

fn section_ok<'i>(p: &Pair<'i, Rule>) -> (res: bool)
    ensures
        res == wf_section(*p),
{
    let mut k: usize = 0;
    while k < p.inner.len()
        invariant
            0 <= k <= p.inner@.len(),
            forall|j: int| 0 <= j < k ==> wf_section_part(#[trigger] p.inner@[j]),
        decreases p.inner@.len() - k,
    {
        let q = &p.inner[k];
        let ok = match q.rule {
            Rule::section_head => true,
            Rule::line_br => true,
            Rule::line => line_ok(q),
            _ => false,
        };
        if !ok {
            assert(!wf_section_part(p.inner@[k as int]));
            return false;
        }
        k = k + 1;
    }
    true
}

fn meta_lines_ok<'i>(p: &Pair<'i, Rule>) -> (res: bool)
    ensures
        res == forall|k: int| 0 <= k < p.inner@.len() ==> (#[trigger] p.inner@[k]).inner@.len() >= 2,
{
    let mut k: usize = 0;
    while k < p.inner.len()
        invariant
            0 <= k <= p.inner@.len(),
            forall|j: int| 0 <= j < k ==> (#[trigger] p.inner@[j]).inner@.len() >= 2,
        decreases p.inner@.len() - k,
    {
        if p.inner[k].inner.len() < 2 {
            return false;
        }
        k = k + 1;
    }
    true
}

fn song_part_ok<'i>(p: &Pair<'i, Rule>) -> (res: bool)
    ensures
        res == wf_song_part(*p),
{
    match p.rule {
        Rule::meta_section => meta_lines_ok(p),
        Rule::section => section_ok(p),
        Rule::EOI => true,
        _ => false,
    }
}

/// Whether the top nodes of a tree have the shape that the chart grammar
/// gives, which `mk_song` requires.
#[verifier::spinoff_prover]
pub fn check_song_tree<'i>(tree: &Vec<Pair<'i, Rule>>) -> (res: bool)
    ensures
        res == wf_song(tree@),
{
    let mut t: usize = 0;
    while t < tree.len()
        invariant
            0 <= t <= tree@.len(),
            forall|x: int, k: int|
                0 <= x < t && 0 <= k < tree@[x].inner@.len() ==> wf_song_part(#[trigger] tree@[x].inner@[k]),
        decreases tree@.len() - t,
    {
        let pair = &tree[t];
        let mut k: usize = 0;
        while k < pair.inner.len()
            invariant
                0 <= t < tree@.len(),
                *pair == tree@[t as int],
                0 <= k <= pair.inner@.len(),
                forall|x: int, j: int|
                    0 <= x < t && 0 <= j < tree@[x].inner@.len() ==> wf_song_part(#[trigger] tree@[x].inner@[j]),
                forall|j: int| 0 <= j < k ==> wf_song_part(#[trigger] pair.inner@[j]),
            decreases pair.inner@.len() - k,
        {
            if !song_part_ok(&pair.inner[k]) {
                return false;
            }
            k = k + 1;
        }
        t = t + 1;
    }
    true
}

} // verus!
