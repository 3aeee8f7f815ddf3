//! Inline markup as a tree of nodes.
//!
//! `parser` reads a text character by character, with a stack of the
//! constructs that are open, and builds the tree; `scan` says in
//! specification functions what that tree is. `laws`, `lines`, `patterns`
//! and `shape` prove what holds of it. `text_to_html` builds the same kind
//! of tree from the events of a markdown engine. `emojis` replaces emoji
//! shorthands in a text, and `element_builder` is a flat scan for italics
//! and bold alone.

use crate::adapter::{events_tree, tree_of_events};
use crate::events::{cmark_event_seq, cmark_events};
use crate::tag::Tag;
use vstd::prelude::*;

pub mod adapter;
pub mod element_builder;
pub mod emojis;
pub mod events;
pub mod laws;
pub mod lines;
pub mod md;
pub mod parser;
pub mod patterns;
pub mod scan;
pub mod shape;
pub mod tag;
pub mod tag_builder;
pub mod text;

verus! {

/// Turns a markdown text into a tree of nodes by way of the markdown
/// engine: the tree is the one that the engine's events for the text stand
/// for.
pub fn text_to_html(text: &str) -> (root: Tag)
    ensures
        root@ == events_tree(cmark_event_seq(text@)),
{
    let events = cmark_events(text);
    tree_of_events(&events)
}

} // verus!
