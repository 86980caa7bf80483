//! Core of a personal music-library manager: a track catalog, a tree of
//! playlists and folders rooted at a single special node, a type-dispatched
//! sort engine over track fields, a view pipeline for the currently open
//! list, and the value-level shape of the persisted library document.

pub mod data;
pub mod doc;
pub mod error;
pub mod import;
pub mod laws;
pub mod library;
pub mod num64;
pub mod omap;
pub mod playlists;
pub mod sort;
pub mod strutil;
pub mod track;
pub mod tracklist;
pub mod tree;
pub mod view_options;

use vstd::prelude::*;

verus! {

/// Turns an empty string into `None` and any other string into `Some`,
/// the convention used for optional description fields.
pub fn str_to_option(s: String) -> (r: Option<String>)
    ensures
        s@.len() == 0 ==> r is None,
        s@.len() > 0 ==> r == Some(s),
{
    if s.as_str().is_empty() {
        None
    } else {
        Some(s)
    }
}

} // verus!
