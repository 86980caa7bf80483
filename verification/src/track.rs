//! The track record and the sortable-field dispatch table.
//!
//! Each sortable key name maps to exactly one scalar kind; an unrecognized
//! key is a programming-contract violation, reported as `None` by
//! `get_track_field_type` and excluded by the preconditions of the accessors.

use vstd::prelude::*;

use crate::strutil::str_eq;

verus! {

/// One recorded span of imported play or skip history.
#[derive(Clone, PartialEq, Eq, Structural, Debug)]
pub struct CountSpan {
    pub count: i64,
    pub from_date: i64,
    pub to_date: i64,
}

/// A track record. Fields that are optional use absence, never a sentinel.
/// `duration`, `bitrate`, `sample_rate` and `bpm` hold IEEE-754 binary64
/// bit patterns (see `crate::num64`).
#[derive(Clone, Debug)]
pub struct Track {
    pub size: i64,
    pub duration: u64,
    pub bitrate: u64,
    pub sample_rate: u64,
    pub file: String,
    pub date_modified: i64,
    pub date_added: i64,
    pub name: Option<String>,
    pub imported_from: Option<String>,
    pub original_id: Option<String>,
    pub artist: Option<String>,
    pub composer: Option<String>,
    pub sort_name: Option<String>,
    pub sort_artist: Option<String>,
    pub sort_composer: Option<String>,
    pub genre: Option<String>,
    pub rating: Option<u8>,
    pub year: Option<i16>,
    pub bpm: Option<u64>,
    pub comments: Option<String>,
    pub grouping: Option<String>,
    pub liked: Option<bool>,
    pub disliked: Option<bool>,
    pub disabled: Option<bool>,
    pub compilation: Option<bool>,
    pub album_name: Option<String>,
    pub album_artist: Option<String>,
    pub sort_album_name: Option<String>,
    pub sort_album_artist: Option<String>,
    pub track_num: Option<i16>,
    pub track_count: Option<i16>,
    pub disc_num: Option<i16>,
    pub disc_count: Option<i16>,
    pub date_imported: Option<i64>,
    pub play_count: Option<i32>,
    pub plays: Option<Vec<i64>>,
    pub plays_imported: Option<Vec<CountSpan>>,
    pub skip_count: Option<i32>,
    pub skips: Option<Vec<i64>>,
    pub skips_imported: Option<Vec<CountSpan>>,
    pub volume: Option<u8>,
}

/// The scalar kind a sortable key resolves to.
#[derive(Clone, Copy, PartialEq, Eq, Structural, Debug)]
pub enum TrackField {
    String,
    F64,
    I64,
    I32,
    I16,
    U8,
    Bool,
}

/// The dispatch table from key name to scalar kind.
pub open spec fn spec_track_field_type(f: Seq<char>) -> Option<TrackField> {
    if f == "size"@ {
        Some(TrackField::I64)
    } else if f == "duration"@ {
        Some(TrackField::F64)
    } else if f == "bitrate"@ {
        Some(TrackField::F64)
    } else if f == "sampleRate"@ {
        Some(TrackField::F64)
    } else if f == "file"@ {
        Some(TrackField::String)
    } else if f == "dateModified"@ {
        Some(TrackField::I64)
    } else if f == "dateAdded"@ {
        Some(TrackField::I64)
    } else if f == "name"@ {
        Some(TrackField::String)
    } else if f == "importedFrom"@ {
        Some(TrackField::String)
    } else if f == "originalId"@ {
        Some(TrackField::String)
    } else if f == "artist"@ {
        Some(TrackField::String)
    } else if f == "composer"@ {
        Some(TrackField::String)
    } else if f == "sortName"@ {
        Some(TrackField::String)
    } else if f == "sortArtist"@ {
        Some(TrackField::String)
    } else if f == "sortComposer"@ {
        Some(TrackField::String)
    } else if f == "genre"@ {
        Some(TrackField::String)
    } else if f == "rating"@ {
        Some(TrackField::U8)
    } else if f == "year"@ {
        Some(TrackField::I16)
    } else if f == "bpm"@ {
        Some(TrackField::F64)
    } else if f == "comments"@ {
        Some(TrackField::String)
    } else if f == "grouping"@ {
        Some(TrackField::String)
    } else if f == "liked"@ {
        Some(TrackField::Bool)
    } else if f == "disliked"@ {
        Some(TrackField::Bool)
    } else if f == "disabled"@ {
        Some(TrackField::Bool)
    } else if f == "compilation"@ {
        Some(TrackField::Bool)
    } else if f == "albumName"@ {
        Some(TrackField::String)
    } else if f == "albumArtist"@ {
        Some(TrackField::String)
    } else if f == "sortAlbumName"@ {
        Some(TrackField::String)
    } else if f == "sortAlbumArtist"@ {
        Some(TrackField::String)
    } else if f == "trackNum"@ {
        Some(TrackField::I16)
    } else if f == "trackCount"@ {
        Some(TrackField::I16)
    } else if f == "discNum"@ {
        Some(TrackField::I16)
    } else if f == "discCount"@ {
        Some(TrackField::I16)
    } else if f == "dateImported"@ {
        Some(TrackField::I64)
    } else if f == "playCount"@ {
        Some(TrackField::I32)
    } else if f == "skipCount"@ {
        Some(TrackField::I32)
    } else if f == "volume"@ {
        Some(TrackField::U8)
    } else {
        None
    }
}

/// Resolves a sortable key name to its scalar kind.
pub fn get_track_field_type(field: &str) -> (r: Option<TrackField>)
    ensures
        r == spec_track_field_type(field@),
{
    if str_eq(field, "size") {
        Some(TrackField::I64)
    } else if str_eq(field, "duration") {
        Some(TrackField::F64)
    } else if str_eq(field, "bitrate") {
        Some(TrackField::F64)
    } else if str_eq(field, "sampleRate") {
        Some(TrackField::F64)
    } else if str_eq(field, "file") {
        Some(TrackField::String)
    } else if str_eq(field, "dateModified") {
        Some(TrackField::I64)
    } else if str_eq(field, "dateAdded") {
        Some(TrackField::I64)
    } else if str_eq(field, "name") {
        Some(TrackField::String)
    } else if str_eq(field, "importedFrom") {
        Some(TrackField::String)
    } else if str_eq(field, "originalId") {
        Some(TrackField::String)
    } else if str_eq(field, "artist") {
        Some(TrackField::String)
    } else if str_eq(field, "composer") {
        Some(TrackField::String)
    } else if str_eq(field, "sortName") {
        Some(TrackField::String)
    } else if str_eq(field, "sortArtist") {
        Some(TrackField::String)
    } else if str_eq(field, "sortComposer") {
        Some(TrackField::String)
    } else if str_eq(field, "genre") {
        Some(TrackField::String)
    } else if str_eq(field, "rating") {
        Some(TrackField::U8)
    } else if str_eq(field, "year") {
        Some(TrackField::I16)
    } else if str_eq(field, "bpm") {
        Some(TrackField::F64)
    } else if str_eq(field, "comments") {
        Some(TrackField::String)
    } else if str_eq(field, "grouping") {
        Some(TrackField::String)
    } else if str_eq(field, "liked") {
        Some(TrackField::Bool)
    } else if str_eq(field, "disliked") {
        Some(TrackField::Bool)
    } else if str_eq(field, "disabled") {
        Some(TrackField::Bool)
    } else if str_eq(field, "compilation") {
        Some(TrackField::Bool)
    } else if str_eq(field, "albumName") {
        Some(TrackField::String)
    } else if str_eq(field, "albumArtist") {
        Some(TrackField::String)
    } else if str_eq(field, "sortAlbumName") {
        Some(TrackField::String)
    } else if str_eq(field, "sortAlbumArtist") {
        Some(TrackField::String)
    } else if str_eq(field, "trackNum") {
        Some(TrackField::I16)
    } else if str_eq(field, "trackCount") {
        Some(TrackField::I16)
    } else if str_eq(field, "discNum") {
        Some(TrackField::I16)
    } else if str_eq(field, "discCount") {
        Some(TrackField::I16)
    } else if str_eq(field, "dateImported") {
        Some(TrackField::I64)
    } else if str_eq(field, "playCount") {
        Some(TrackField::I32)
    } else if str_eq(field, "skipCount") {
        Some(TrackField::I32)
    } else if str_eq(field, "volume") {
        Some(TrackField::U8)
    } else {
        None
    }
}

/// Value of a text-kinded key on a track; `file` is the only required one.
pub open spec fn spec_field_str(t: Track, k: Seq<char>) -> Option<String> {
    if k == "file"@ {
        Some(t.file)
    } else if k == "name"@ {
        t.name
    } else if k == "importedFrom"@ {
        t.imported_from
    } else if k == "originalId"@ {
        t.original_id
    } else if k == "artist"@ {
        t.artist
    } else if k == "composer"@ {
        t.composer
    } else if k == "sortName"@ {
        t.sort_name
    } else if k == "sortArtist"@ {
        t.sort_artist
    } else if k == "sortComposer"@ {
        t.sort_composer
    } else if k == "genre"@ {
        t.genre
    } else if k == "comments"@ {
        t.comments
    } else if k == "grouping"@ {
        t.grouping
    } else if k == "albumName"@ {
        t.album_name
    } else if k == "albumArtist"@ {
        t.album_artist
    } else if k == "sortAlbumName"@ {
        t.sort_album_name
    } else if k == "sortAlbumArtist"@ {
        t.sort_album_artist
    } else {
        None
    }
}

pub fn get_field_str<'a>(track: &'a Track, sort_key: &str) -> (r: Option<&'a String>)
    requires
        spec_track_field_type(sort_key@) == Some(TrackField::String),
    ensures
        match r {
            Some(s) => spec_field_str(*track, sort_key@) == Some(*s),
            None => spec_field_str(*track, sort_key@) is None,
        },
{
    if str_eq(sort_key, "file") {
        Some(&track.file)
    } else if str_eq(sort_key, "name") {
        track.name.as_ref()
    } else if str_eq(sort_key, "importedFrom") {
        track.imported_from.as_ref()
    } else if str_eq(sort_key, "originalId") {
        track.original_id.as_ref()
    } else if str_eq(sort_key, "artist") {
        track.artist.as_ref()
    } else if str_eq(sort_key, "composer") {
        track.composer.as_ref()
    } else if str_eq(sort_key, "sortName") {
        track.sort_name.as_ref()
    } else if str_eq(sort_key, "sortArtist") {
        track.sort_artist.as_ref()
    } else if str_eq(sort_key, "sortComposer") {
        track.sort_composer.as_ref()
    } else if str_eq(sort_key, "genre") {
        track.genre.as_ref()
    } else if str_eq(sort_key, "comments") {
        track.comments.as_ref()
    } else if str_eq(sort_key, "grouping") {
        track.grouping.as_ref()
    } else if str_eq(sort_key, "albumName") {
        track.album_name.as_ref()
    } else if str_eq(sort_key, "albumArtist") {
        track.album_artist.as_ref()
    } else if str_eq(sort_key, "sortAlbumName") {
        track.sort_album_name.as_ref()
    } else {
        track.sort_album_artist.as_ref()
    }
}

/// Value of a binary64-kinded key, as encoding bits.
pub open spec fn spec_field_f64_bits(t: Track, k: Seq<char>) -> Option<u64> {
    if k == "duration"@ {
        Some(t.duration)
    } else if k == "bitrate"@ {
        Some(t.bitrate)
    } else if k == "sampleRate"@ {
        Some(t.sample_rate)
    } else if k == "bpm"@ {
        t.bpm
    } else {
        None
    }
}

pub fn get_field_f64_bits(track: &Track, sort_key: &str) -> (r: Option<u64>)
    requires
        spec_track_field_type(sort_key@) == Some(TrackField::F64),
    ensures
        r == spec_field_f64_bits(*track, sort_key@),
{
    if str_eq(sort_key, "duration") {
        Some(track.duration)
    } else if str_eq(sort_key, "bitrate") {
        Some(track.bitrate)
    } else if str_eq(sort_key, "sampleRate") {
        Some(track.sample_rate)
    } else {
        track.bpm
    }
}

pub open spec fn spec_field_i64(t: Track, k: Seq<char>) -> Option<i64> {
    if k == "size"@ {
        Some(t.size)
    } else if k == "dateModified"@ {
        Some(t.date_modified)
    } else if k == "dateAdded"@ {
        Some(t.date_added)
    } else if k == "dateImported"@ {
        t.date_imported
    } else {
        None
    }
}

pub fn get_field_i64(track: &Track, sort_key: &str) -> (r: Option<i64>)
    requires
        spec_track_field_type(sort_key@) == Some(TrackField::I64),
    ensures
        r == spec_field_i64(*track, sort_key@),
{
    if str_eq(sort_key, "size") {
        Some(track.size)
    } else if str_eq(sort_key, "dateModified") {
        Some(track.date_modified)
    } else if str_eq(sort_key, "dateAdded") {
        Some(track.date_added)
    } else {
        track.date_imported
    }
}

pub open spec fn spec_field_i32(t: Track, k: Seq<char>) -> Option<i32> {
    if k == "playCount"@ {
        t.play_count
    } else if k == "skipCount"@ {
        t.skip_count
    } else {
        None
    }
}

pub fn get_field_i32(track: &Track, sort_key: &str) -> (r: Option<i32>)
    requires
        spec_track_field_type(sort_key@) == Some(TrackField::I32),
    ensures
        r == spec_field_i32(*track, sort_key@),
{
    if str_eq(sort_key, "playCount") {
        track.play_count
    } else {
        track.skip_count
    }
}

pub open spec fn spec_field_i16(t: Track, k: Seq<char>) -> Option<i16> {
    if k == "year"@ {
        t.year
    } else if k == "trackNum"@ {
        t.track_num
    } else if k == "trackCount"@ {
        t.track_count
    } else if k == "discNum"@ {
        t.disc_num
    } else if k == "discCount"@ {
        t.disc_count
    } else {
        None
    }
}

pub fn get_field_i16(track: &Track, sort_key: &str) -> (r: Option<i16>)
    requires
        spec_track_field_type(sort_key@) == Some(TrackField::I16),
    ensures
        r == spec_field_i16(*track, sort_key@),
{
    if str_eq(sort_key, "year") {
        track.year
    } else if str_eq(sort_key, "trackNum") {
        track.track_num
    } else if str_eq(sort_key, "trackCount") {
        track.track_count
    } else if str_eq(sort_key, "discNum") {
        track.disc_num
    } else {
        track.disc_count
    }
}

pub open spec fn spec_field_u8(t: Track, k: Seq<char>) -> Option<u8> {
    if k == "rating"@ {
        t.rating
    } else if k == "volume"@ {
        t.volume
    } else {
        None
    }
}

pub fn get_field_u8(track: &Track, sort_key: &str) -> (r: Option<u8>)
    requires
        spec_track_field_type(sort_key@) == Some(TrackField::U8),
    ensures
        r == spec_field_u8(*track, sort_key@),
{
    if str_eq(sort_key, "rating") {
        track.rating
    } else {
        track.volume
    }
}

pub open spec fn spec_field_bool(t: Track, k: Seq<char>) -> Option<bool> {
    if k == "liked"@ {
        t.liked
    } else if k == "disliked"@ {
        t.disliked
    } else if k == "disabled"@ {
        t.disabled
    } else if k == "compilation"@ {
        t.compilation
    } else {
        None
    }
}

pub fn get_field_bool(track: &Track, sort_key: &str) -> (r: Option<bool>)
    requires
        spec_track_field_type(sort_key@) == Some(TrackField::Bool),
    ensures
        r == spec_field_bool(*track, sort_key@),
{
    if str_eq(sort_key, "liked") {
        track.liked
    } else if str_eq(sort_key, "disliked") {
        track.disliked
    } else if str_eq(sort_key, "disabled") {
        track.disabled
    } else {
        track.compilation
    }
}

} // verus!
