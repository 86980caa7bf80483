//! The library's recoverable error conditions.
//!
//! Every mutation entry point validates its preconditions before performing
//! any side effect, so each of these is reported with the state unchanged.

use vstd::prelude::*;

verus! {

#[derive(Clone, Copy, PartialEq, Eq, Structural, Debug)]
pub enum LibError {
    /// The requested tracklist id is not in the tree.
    TracklistNotFound,
    /// The requested track id is not in the catalog.
    TrackNotFound,
    /// The open list id vanished while re-deriving an id sequence.
    PlaylistIdNotFound,
    /// Tracks can only be appended to a playlist, not a folder.
    CannotAddToFolder,
    /// Tracks can only be appended to a playlist, not a special list.
    CannotAddToSpecial,
    /// Duplicate filtering is only defined on playlists.
    NonPlaylistDuplicateCheck,
    /// Removal by visual index targets a folder.
    CannotRemoveFromFolder,
    /// Removal by visual index targets a special list.
    CannotRemoveFromSpecial,
    /// Removal by visual index under a non-natural sort.
    RemoveWhileSorted,
    /// Removal by visual index under an active filter.
    RemoveWhileFiltered,
    /// A visual index is beyond the current page.
    TrackIndexNotFound,
    /// The designated parent of a new list does not exist.
    ParentNotFound,
    /// A playlist cannot hold child lists.
    ParentIsPlaylist,
    /// The list to update does not exist.
    PlaylistNotFound,
    /// Special lists are not user-editable.
    CannotEditSpecial,
    /// The root special list cannot be moved.
    CannotMoveSpecial,
    /// The list to move does not exist.
    ListNotFound,
    /// A move endpoint does not exist.
    MoveEndpointMissing,
    /// A move endpoint is not a folder or the root.
    MoveEndpointNotFolder,
    /// Moving a folder under its own descendant would close a cycle.
    MoveIntoDescendant,
    /// The list to move is not among the source folder's children.
    MoveSourceMissingChild,
    /// The importer does not understand the file's extension.
    UnsupportedFileExtension,
}

impl LibError {
    /// Human-readable description, mirroring how the host reports failures.
    pub fn message(&self) -> String {
        match self {
            LibError::TracklistNotFound => String::from_str("Tracklist not found"),
            LibError::TrackNotFound => String::from_str("Track not found"),
            LibError::PlaylistIdNotFound => String::from_str("Playlist ID not found"),
            LibError::CannotAddToFolder => String::from_str("Cannot add track to folder"),
            LibError::CannotAddToSpecial => String::from_str(
                "Cannot add track to special playlist",
            ),
            LibError::NonPlaylistDuplicateCheck => String::from_str(
                "Cannot check if folder/special contains track",
            ),
            LibError::CannotRemoveFromFolder => String::from_str(
                "Cannot remove track from folder",
            ),
            LibError::CannotRemoveFromSpecial => String::from_str(
                "Cannot remove track from special playlist",
            ),
            LibError::RemoveWhileSorted => String::from_str(
                "Cannot remove track when custom sorting is used",
            ),
            LibError::RemoveWhileFiltered => String::from_str(
                "Cannot remove track when filter is used",
            ),
            LibError::TrackIndexNotFound => String::from_str("Track index not found"),
            LibError::ParentNotFound => String::from_str("Parent not found"),
            LibError::ParentIsPlaylist => String::from_str("Parent cannot be playlist"),
            LibError::PlaylistNotFound => String::from_str("Playlist not found"),
            LibError::CannotEditSpecial => String::from_str("Cannot edit special playlists"),
            LibError::CannotMoveSpecial => String::from_str("Cannot move special playlist"),
            LibError::ListNotFound => String::from_str("List not found"),
            LibError::MoveEndpointMissing => String::from_str(
                "Attempted to move from/to non-existant folder",
            ),
            LibError::MoveEndpointNotFolder => String::from_str(
                "Attempted to move from/to non-folder",
            ),
            LibError::MoveIntoDescendant => String::from_str(
                "Cannot move playlist to a child of itself",
            ),
            LibError::MoveSourceMissingChild => String::from_str("Could not find playlist"),
            LibError::UnsupportedFileExtension => String::from_str(
                "Unsupported file extension",
            ),
        }
    }
}

} // verus!
