use chord_charts::lst::Rule;
use chord_charts::songlist::{check_list_tree, mk_song_list};
use chord_charts::tree::Pair;

fn desc<'i>(name: &'i str, val: &'i str) -> Pair<'i, Rule> {
    Pair::new(Rule::desc, "", vec![Pair::leaf(Rule::desc_name, name), Pair::leaf(Rule::desc_value, val)])
}

fn line<'i>(id: &'i str, descs: Vec<Pair<'i, Rule>>) -> Pair<'i, Rule> {
    let mut inner = vec![Pair::leaf(Rule::song_id, id)];
    inner.extend(descs);
    Pair::new(Rule::line, "", inner)
}

#[test]
fn song_list_entries() {
    let tree = vec![Pair::new(
        Rule::list,
        "",
        vec![
            line("amazing", vec![desc("key", "G")]),
            line("blue", vec![]),
            line("carol", vec![desc("tone", "Am"), desc("order", "V C V")]),
            line("dawn", vec![desc("tonic", "xx")]),
            line("evening", vec![desc("tonic", "D"), desc("sections", "V"), desc("colour", "red")]),
            Pair::leaf(Rule::EOI, ""),
        ],
    )];
    let (entries, unrecognized) = mk_song_list(&tree);
    assert_eq!(entries.len(), 5);
    assert_eq!(entries[0].id_file, "amazing");
    assert_eq!(entries[0].tonic, Some(7));
    assert_eq!(entries[1].id_file, "blue");
    assert_eq!(entries[1].tonic, None);
    assert_eq!(entries[2].tonic, Some(0));
    assert_eq!(entries[3].tonic, None);
    assert_eq!(entries[4].tonic, Some(2));
    assert!(entries.iter().all(|e| e.order.is_none()));
    assert_eq!(unrecognized, vec!["xx"]);
}

#[test]
fn later_key_replaces_earlier() {
    let tree = vec![Pair::new(
        Rule::list,
        "",
        vec![line("a", vec![desc("key", "C"), desc("key", "nope"), desc("key", "F")])],
    )];
    let (entries, unrecognized) = mk_song_list(&tree);
    assert_eq!(entries[0].tonic, Some(5));
    assert_eq!(unrecognized, vec!["nope"]);
}

#[test]
fn empty_list() {
    let tree: Vec<Pair<Rule>> = vec![Pair::new(Rule::list, "", vec![Pair::leaf(Rule::EOI, "")])];
    let (entries, unrecognized) = mk_song_list(&tree);
    assert!(entries.is_empty());
    assert!(unrecognized.is_empty());
}

#[test]
fn list_tree_checks() {
    let good = vec![Pair::new(Rule::list, "", vec![line("a", vec![desc("key", "C")])])];
    assert!(check_list_tree(&good));
    let no_id = vec![Pair::new(Rule::list, "", vec![Pair::new(Rule::line, "", vec![])])];
    assert!(!check_list_tree(&no_id));
    let short_desc = vec![Pair::new(
        Rule::list,
        "",
        vec![line("a", vec![Pair::new(Rule::desc, "", vec![Pair::leaf(Rule::desc_name, "key")])])],
    )];
    assert!(!check_list_tree(&short_desc));
}
