//! The rules of the grammar of song lists.

use vstd::prelude::*;

verus! {

/// A rule of the song list grammar.
#[allow(non_camel_case_types)]
#[derive(Debug, Clone, Copy, PartialEq, Eq, Structural)]
pub enum Rule {
    /// A whole list.
    list,
    /// An entry: the song id, then descriptors.
    line,
    song_id,
    /// A `name: value` descriptor of an entry.
    desc,
    desc_name,
    desc_value,
    EOI,
}

} // verus!
