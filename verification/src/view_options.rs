//! Presentation options persisted in a small side document: which
//! playlist folders are expanded and which columns are shown. The file is
//! a cache; a missing or unreadable one degrades to these defaults.

use vstd::prelude::*;

verus! {

#[derive(Clone, Debug)]
pub struct ViewOptions {
    pub shown_playlist_folders: Vec<String>,
    /// Empty is treated as default.
    pub columns: Vec<String>,
}

impl ViewOptions {
    /// The defaults used when the view-options document is missing or
    /// cannot be parsed.
    pub fn empty_defaults() -> (r: ViewOptions)
        ensures
            r.shown_playlist_folders@.len() == 0,
            r.columns@.len() == 0,
    {
        ViewOptions { shown_playlist_folders: Vec::new(), columns: Vec::new() }
    }

    /// Marks a folder as shown or hidden: any previous entry for the id is
    /// dropped, and a shown folder is re-appended.
    pub fn set_folder_shown(&mut self, id: &String, show: bool)
        ensures
            final(self).columns == old(self).columns,
            final(self).shown_playlist_folders@ == if show {
                old(self).shown_playlist_folders@.filter(|s: String| s@ != id@).push(*id)
            } else {
                old(self).shown_playlist_folders@.filter(|s: String| s@ != id@)
            },
    {
        let kept = crate::playlists::filter_out_id(&self.shown_playlist_folders, id);
        self.shown_playlist_folders = kept;
        if show {
            self.shown_playlist_folders.push(id.clone());
        }
    }
}

/// The ids of the playlist folders currently expanded in the sidebar.
pub fn shown_playlist_folders(data: &crate::data::Data) -> (r: Vec<String>)
    ensures
        r@ == data.view_options.shown_playlist_folders@,
{
    crate::strutil::clone_ids(&data.view_options.shown_playlist_folders)
}

} // verus!
