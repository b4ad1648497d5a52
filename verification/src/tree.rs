//! Parse trees.
//!
//! A chart is first parsed by its grammar into a tree of pairs: each pair
//! records the grammar rule that matched, the text that it matched, and the
//! pairs matched inside it, in order.  The builders of this library read
//! such trees.

use vstd::prelude::*;

verus! {

/// A node of a parse tree: the rule that matched, the text it matched and
/// the nodes matched inside it.
#[derive(Debug)]
pub struct Pair<'i, R> {
    pub rule: R,
    pub text: &'i str,
    pub inner: Vec<Pair<'i, R>>,
}

impl<'i, R> Pair<'i, R> {
    /// A node with the given rule, text and inner nodes.
    pub fn new(rule: R, text: &'i str, inner: Vec<Pair<'i, R>>) -> (res: Pair<'i, R>)
        ensures
            res.rule == rule,
            res.text == text,
            res.inner == inner,
    {
        Pair { rule, text, inner }
    }

    /// A node with no inner nodes.
    pub fn leaf(rule: R, text: &'i str) -> (res: Pair<'i, R>)
        ensures
            res.rule == rule,
            res.text == text,
            res.inner@.len() == 0,
    {
        Pair { rule, text, inner: Vec::new() }
    }
}

} // verus!
