//! Building a song list from the parse tree of a list file.
//!
//! A list names songs by their file id, each with descriptors such as
//! `key: Am` that say how to play it.

use vstd::prelude::*;
use crate::data::{SonglistEntry, SonglistEntryModel};
use crate::lst::Rule;
use crate::text::str_eq;
use crate::tonic::{tonality_to_u8, tonality_value};
use crate::tree::Pair;

verus! {

/// Descriptor names that give the tonality to play a song in.
pub open spec fn is_key_desc(name: Seq<char>) -> bool {
    name == "tonic"@ || name == "tone"@ || name == "key"@
}

/// The entry after its descriptors: each tonality descriptor sets the
/// tonality (to `None` when its value is not a tonality); other
/// descriptors change nothing.
pub open spec fn entry_fold<'i>(e: SonglistEntryModel, ds: Seq<Pair<'i, Rule>>) -> SonglistEntryModel
    decreases ds.len(),
{
    if ds.len() == 0 {
        e
    } else {
        let prev = entry_fold(e, ds.drop_last());
        let d = ds.last();
        if is_key_desc(d.inner@[0].text@) {
            SonglistEntryModel { id_file: prev.id_file, tonic: tonality_value(d.inner@[1].text@), order: prev.order }
        } else {
            prev
        }
    }
}

/// The values of the tonality descriptors that are not tonalities, in
/// order.
pub open spec fn unrecognized_fold<'i>(ds: Seq<Pair<'i, Rule>>) -> Seq<Seq<char>>
    decreases ds.len(),
{
    if ds.len() == 0 {
        seq![]
    } else {
        let prev = unrecognized_fold(ds.drop_last());
        let d = ds.last();
        if is_key_desc(d.inner@[0].text@) && tonality_value(d.inner@[1].text@) is None {
            prev.push(d.inner@[1].text@)
        } else {
            prev
        }
    }
}

/// The entry that a `line` node of a list stands for: the song id is its
/// first node, the descriptors follow.
pub open spec fn entry_of<'i>(p: Pair<'i, Rule>) -> SonglistEntryModel {
    entry_fold(SonglistEntryModel { id_file: p.inner@[0].text@, tonic: None, order: None }, p.inner@.skip(1))
}

pub open spec fn list_parts_fold<'i>(
    acc: (Seq<SonglistEntryModel>, Seq<Seq<char>>),
    ps: Seq<Pair<'i, Rule>>,
) -> (Seq<SonglistEntryModel>, Seq<Seq<char>>)
    decreases ps.len(),
{
    if ps.len() == 0 {
        acc
    } else {
        let prev = list_parts_fold(acc, ps.drop_last());
        let p = ps.last();
        if p.rule == Rule::line {
            (prev.0.push(entry_of(p)), prev.1 + unrecognized_fold(p.inner@.skip(1)))
        } else {
            prev
        }
    }
}

pub open spec fn list_fold<'i>(tops: Seq<Pair<'i, Rule>>) -> (Seq<SonglistEntryModel>, Seq<Seq<char>>)
    decreases tops.len(),
{
    if tops.len() == 0 {
        (seq![], seq![])
    } else {
        list_parts_fold(list_fold(tops.drop_last()), tops.last().inner@)
    }
}

/// The `line` nodes among `ps`, in order.
pub open spec fn line_nodes<'i>(ps: Seq<Pair<'i, Rule>>) -> Seq<Pair<'i, Rule>> {
    ps.filter(|q: Pair<'i, Rule>| q.rule == Rule::line)
}

/// The `line` nodes inside the top nodes of a list's parse tree, top node
/// after top node.
pub open spec fn list_lines<'i>(tops: Seq<Pair<'i, Rule>>) -> Seq<Pair<'i, Rule>> {
    tops.map_values(|p: Pair<'i, Rule>| line_nodes(p.inner@)).flatten()
}

/// The entries for a sequence of `line` nodes, one for each.
pub open spec fn entries_of<'i>(lines: Seq<Pair<'i, Rule>>) -> Seq<SonglistEntryModel> {
    lines.map_values(|p: Pair<'i, Rule>| entry_of(p))
}

/// The tonality descriptors among `ds`, in order.
pub open spec fn key_descs<'i>(ds: Seq<Pair<'i, Rule>>) -> Seq<Pair<'i, Rule>> {
    ds.filter(|d: Pair<'i, Rule>| is_key_desc(d.inner@[0].text@))
}

/// The value that a descriptor node gives.
pub open spec fn desc_value<'i>(d: Pair<'i, Rule>) -> Seq<char> {
    d.inner@[1].text@
}

#[verifier::spinoff_prover]
proof fn lemma_entry_fold_key<'i>(e: SonglistEntryModel, ds: Seq<Pair<'i, Rule>>)
    ensures
        entry_fold(e, ds).id_file == e.id_file,
        entry_fold(e, ds).order == e.order,
        key_descs(ds).len() == 0 ==> entry_fold(e, ds).tonic == e.tonic,
        key_descs(ds).len() > 0 ==> entry_fold(e, ds).tonic == tonality_value(desc_value(key_descs(ds).last())),
        unrecognized_fold(ds) == key_descs(ds).filter(|d: Pair<'i, Rule>| tonality_value(desc_value(d)) is None).map_values(
            |d: Pair<'i, Rule>| desc_value(d),
        ),
    decreases ds.len(),
{
    reveal(Seq::filter);
    let f = |d: Pair<'i, Rule>| tonality_value(desc_value(d)) is None;
    let g = |d: Pair<'i, Rule>| desc_value(d);
    if ds.len() == 0 {
        assert(key_descs(ds) =~= seq![]);
        assert(key_descs(ds).filter(f) =~= seq![]);
        assert(key_descs(ds).filter(f).map_values(g) =~= seq![]);
    } else {
        let d = ds.drop_last();
        lemma_entry_fold_key(e, d);
        let last = ds.last();
        if is_key_desc(last.inner@[0].text@) {
            assert(key_descs(ds) == key_descs(d).push(last));
            assert(key_descs(ds).last() == last);
            assert(key_descs(ds).drop_last() =~= key_descs(d));
            if tonality_value(desc_value(last)) is None {
                assert(key_descs(ds).filter(f) == key_descs(d).filter(f).push(last));
                assert(key_descs(d).filter(f).push(last).map_values(g) =~= key_descs(d).filter(f).map_values(g).push(
                    desc_value(last),
                ));
            } else {
                assert(key_descs(ds).filter(f) == key_descs(d).filter(f));
            }
        } else {
            assert(key_descs(ds) == key_descs(d));
        }
    }
}

/// The entry for a list line names the song that the line's first node
/// gives, and takes its tonality from the last tonality descriptor of the
/// line (none where it has none, or where that descriptor's value is not a
/// tonality); the values of the tonality descriptors that are not
/// tonalities are reported, each once, in order.
pub proof fn lemma_entry_key<'i>(p: Pair<'i, Rule>)
    ensures
        entry_of(p).id_file == p.inner@[0].text@,
        entry_of(p).order is None,
        key_descs(p.inner@.skip(1)).len() == 0 ==> entry_of(p).tonic is None,
        key_descs(p.inner@.skip(1)).len() > 0 ==> entry_of(p).tonic == tonality_value(
            desc_value(key_descs(p.inner@.skip(1)).last()),
        ),
        unrecognized_fold(p.inner@.skip(1)) == key_descs(p.inner@.skip(1)).filter(
            |d: Pair<'i, Rule>| tonality_value(desc_value(d)) is None,
        ).map_values(|d: Pair<'i, Rule>| desc_value(d)),
{
    lemma_entry_fold_key(
        SonglistEntryModel { id_file: p.inner@[0].text@, tonic: None, order: None },
        p.inner@.skip(1),
    );
}

#[verifier::spinoff_prover]
proof fn lemma_parts_entries<'i>(
    acc: (Seq<SonglistEntryModel>, Seq<Seq<char>>),
    ps: Seq<Pair<'i, Rule>>,
)
    ensures
        list_parts_fold(acc, ps).0 == acc.0 + entries_of(line_nodes(ps)),
    decreases ps.len(),
{
    reveal(Seq::filter);
    if ps.len() == 0 {
        assert(line_nodes(ps) =~= seq![]);
        assert(acc.0 + entries_of(line_nodes(ps)) =~= acc.0);
    } else {
        lemma_parts_entries(acc, ps.drop_last());
        let sub = line_nodes(ps.drop_last());
        if ps.last().rule == Rule::line {
            assert(line_nodes(ps) == sub.push(ps.last()));
            assert(entries_of(sub.push(ps.last())) =~= entries_of(sub).push(entry_of(ps.last())));
            assert(acc.0 + entries_of(sub).push(entry_of(ps.last())) =~= (acc.0 + entries_of(sub)).push(
                entry_of(ps.last()),
            ));
        } else {
            assert(line_nodes(ps) == sub);
        }
    }
}

#[verifier::spinoff_prover]
proof fn lemma_fold_entries<'i>(tops: Seq<Pair<'i, Rule>>)
    ensures
        list_fold(tops).0 == entries_of(
            tops.map_values(|p: Pair<'i, Rule>| line_nodes(p.inner@)).flatten_alt(),
        ),
    decreases tops.len(),
{
    let m = tops.map_values(|p: Pair<'i, Rule>| line_nodes(p.inner@));
    if tops.len() == 0 {
        assert(entries_of(m.flatten_alt()) =~= seq![]);
    } else {
        lemma_fold_entries(tops.drop_last());
        let md = tops.drop_last().map_values(|p: Pair<'i, Rule>| line_nodes(p.inner@));
        assert(m.drop_last() =~= md);
        assert(m.last() == line_nodes(tops.last().inner@));
        lemma_parts_entries(list_fold(tops.drop_last()), tops.last().inner@);
        assert(entries_of(md.flatten_alt() + m.last()) =~= entries_of(md.flatten_alt()) + entries_of(m.last()));
    }
}

/// A list has one entry for each `line` node of its parse tree, in the
/// order of the lines, whether or not a song is listed more than once: the
/// entry for a line names the song that the line's first node gives and
/// carries what the line's descriptors say.
pub proof fn lemma_one_entry_per_line<'i>(tops: Seq<Pair<'i, Rule>>)
    ensures
        list_fold(tops).0.len() == list_lines(tops).len(),
        forall|k: int|
            0 <= k < list_fold(tops).0.len() ==> #[trigger] list_fold(tops).0[k] == entry_of(list_lines(tops)[k]),
        forall|k: int|
            0 <= k < list_fold(tops).0.len() ==> (#[trigger] list_fold(tops).0[k]).id_file
                == list_lines(tops)[k].inner@[0].text@,
{
    let m = tops.map_values(|p: Pair<'i, Rule>| line_nodes(p.inner@));
    m.lemma_flatten_and_flatten_alt_are_equivalent();
    lemma_fold_entries(tops);
    assert forall|k: int| 0 <= k < list_fold(tops).0.len() implies (#[trigger] list_fold(tops).0[k]).id_file
        == list_lines(tops)[k].inner@[0].text@ by {
        lemma_entry_key(list_lines(tops)[k]);
    }
}

/// A `line` node of a list as the grammar gives it: a song id, then
/// descriptors of a name and a value.
pub open spec fn wf_list_line<'i>(p: Pair<'i, Rule>) -> bool {
    &&& p.inner@.len() >= 1
    &&& forall|k: int| 1 <= k < p.inner@.len() ==> (#[trigger] p.inner@[k]).inner@.len() >= 2
}

/// A list's parse tree as the grammar gives it.
pub open spec fn wf_list<'i>(tops: Seq<Pair<'i, Rule>>) -> bool {
    forall|t: int, k: int|
        0 <= t < tops.len() && 0 <= k < tops[t].inner@.len() && (#[trigger] tops[t].inner@[k]).rule
            == Rule::line ==> wf_list_line(tops[t].inner@[k])
}

fn is_key_name(name: &str) -> (res: bool)
    ensures
        res == is_key_desc(name@),
{
    str_eq(name, "tonic") || str_eq(name, "tone") || str_eq(name, "key")
}

#[verifier::spinoff_prover]
fn mk_songlist_entry<'i>(line: &Pair<'i, Rule>, unrecognized: &mut Vec<&'i str>) -> (entry: SonglistEntry)
    requires
        wf_list_line(*line),
    ensures
        entry.deep_view() == entry_of(*line),
        final(unrecognized).deep_view() == old(unrecognized).deep_view() + unrecognized_fold(line.inner@.skip(1)),
{
    let name = line.inner[0].text;
    let mut entry = SonglistEntry { id_file: name.to_owned(), order: None, tonic: None };
    let ghost start = unrecognized.deep_view();
    let ghost descs = line.inner@.skip(1);
    let mut k: usize = 1;
    assert(descs.take(0) =~= seq![]);
    assert(unrecognized.deep_view() =~= start + unrecognized_fold(descs.take(0)));
    while k < line.inner.len()
        invariant
            1 <= k <= line.inner@.len(),
            wf_list_line(*line),
            descs == line.inner@.skip(1),
            entry.deep_view() == entry_fold(
                SonglistEntryModel { id_file: line.inner@[0].text@, tonic: None, order: None },
                descs.take(k - 1),
            ),
            unrecognized.deep_view() == start + unrecognized_fold(descs.take(k - 1)),
        decreases line.inner@.len() - k,
    {
        let desc = &line.inner[k];
        assert(desc.inner@.len() >= 2);
        assert(descs.take(k as int).drop_last() =~= descs.take(k - 1));
        assert(descs.take(k as int).last() == *desc);
        let name_desc = desc.inner[0].text;
        let val_desc = desc.inner[1].text;
        if is_key_name(name_desc) {
            entry.tonic = tonality_to_u8(val_desc);
            if entry.tonic.is_none() {
                let ghost prev = unrecognized.deep_view();
                unrecognized.push(val_desc);
                assert(unrecognized.deep_view() =~= prev.push(val_desc@));
            }
        }
        k = k + 1;
    }
    assert(descs.take(k - 1) =~= descs);
    entry
}

/// Builds the entries of a song list from the top nodes of its parse tree,
/// together with the value of every tonality descriptor that is not a
/// tonality (each calls for a warning).
#[verifier::spinoff_prover]
pub fn mk_song_list<'i>(tree: &Vec<Pair<'i, Rule>>) -> (res: (Vec<SonglistEntry>, Vec<&'i str>))
    requires
        wf_list(tree@),
    ensures
        (res.0.deep_view(), res.1.deep_view()) == list_fold(tree@),
        res.0.deep_view() == entries_of(list_lines(tree@)),
{
    proof {
        lemma_one_entry_per_line(tree@);
        assert(list_fold(tree@).0 =~= entries_of(list_lines(tree@)));
    }
    let mut out: Vec<SonglistEntry> = Vec::new();
    let mut unrecognized: Vec<&'i str> = Vec::new();
    assert(out.deep_view() =~= seq![]);
    assert(unrecognized.deep_view() =~= seq![]);
    let mut t: usize = 0;
    while t < tree.len()
        invariant
            0 <= t <= tree@.len(),
            wf_list(tree@),
            (out.deep_view(), unrecognized.deep_view()) == list_fold(tree@.take(t as int)),
        decreases tree@.len() - t,
    {
        let pair = &tree[t];
        assert(tree@.take(t + 1).drop_last() =~= tree@.take(t as int));
        let ghost start = (out.deep_view(), unrecognized.deep_view());
        let mut i: usize = 0;
        while i < pair.inner.len()
            invariant
                0 <= i <= pair.inner@.len(),
                0 <= t < tree@.len(),
                *pair == tree@[t as int],
                wf_list(tree@),
                (out.deep_view(), unrecognized.deep_view()) == list_parts_fold(start, pair.inner@.take(i as int)),
            decreases pair.inner@.len() - i,
        {
            let line = &pair.inner[i];
            assert(pair.inner@.take(i + 1).drop_last() =~= pair.inner@.take(i as int));
            if line.rule == Rule::line {
                assert(wf_list_line(tree@[t as int].inner@[i as int]));
                let ghost prev = out.deep_view();
                let entry = mk_songlist_entry(line, &mut unrecognized);
                out.push(entry);
                assert(out.deep_view() =~= prev.push(entry.deep_view()));
            }
            i = i + 1;
        }
        assert(pair.inner@.take(i as int) =~= pair.inner@);
        t = t + 1;
    }
    assert(tree@.take(t as int) =~= tree@);
    (out, unrecognized)
}


fn list_line_ok<'i>(p: &Pair<'i, Rule>) -> (res: bool)
    ensures
        res == wf_list_line(*p),
{
    if p.inner.len() < 1 {
        return false;
    }
    let mut k: usize = 1;
    while k < p.inner.len()
        invariant
            1 <= k <= p.inner@.len(),
            forall|j: int| 1 <= j < k ==> (#[trigger] p.inner@[j]).inner@.len() >= 2,
        decreases p.inner@.len() - k,
    {
        if p.inner[k].inner.len() < 2 {
            return false;
        }
        k = k + 1;
    }
    true
}

/// Whether the top nodes of a tree have the shape that the list grammar
/// gives, which `mk_song_list` requires.
pub fn check_list_tree<'i>(tree: &Vec<Pair<'i, Rule>>) -> (res: bool)
    ensures
        res == wf_list(tree@),
{
    let mut t: usize = 0;
    while t < tree.len()
        invariant
            0 <= t <= tree@.len(),
            forall|x: int, k: int|
                0 <= x < t && 0 <= k < tree@[x].inner@.len() && (#[trigger] tree@[x].inner@[k]).rule == Rule::line
                    ==> wf_list_line(tree@[x].inner@[k]),
        decreases tree@.len() - t,
    {
        let pair = &tree[t];
        let mut k: usize = 0;
        while k < pair.inner.len()
            invariant
                0 <= t < tree@.len(),
                *pair == tree@[t as int],
                0 <= k <= pair.inner@.len(),
                forall|x: int, j: int|
                    0 <= x < t && 0 <= j < tree@[x].inner@.len() && (#[trigger] tree@[x].inner@[j]).rule
                        == Rule::line ==> wf_list_line(tree@[x].inner@[j]),
                forall|j: int|
                    0 <= j < k && (#[trigger] pair.inner@[j]).rule == Rule::line ==> wf_list_line(pair.inner@[j]),
            decreases pair.inner@.len() - k,
        {
            let line = &pair.inner[k];
            if line.rule == Rule::line && !list_line_ok(line) {
                return false;
            }
            k = k + 1;
        }
        t = t + 1;
    }
    true
}

} // verus!
