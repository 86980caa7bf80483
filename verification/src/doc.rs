//! The value-level shape of the persisted library document.
//!
//! A `DocValue` is the tree a JSON document denotes: the library is built
//! into one on save and read back out of one on load; the host only turns
//! this tree into text and back. Every record lists all of its fields, in
//! one canonical order, with absent optionals as `Null`, so a document
//! built from a library parses back to a structurally equal library.

use vstd::prelude::*;

use crate::library::{Library, PlayTime, Version};
use crate::num64::{int_to_n64_bits, n64_is_nan, n64_of_int};
use crate::strutil::str_eq;
use crate::track::{CountSpan, Track};
use crate::tracklist::{Folder, Playlist, Special, SpecialTrackListName, TrackList};

verus! {

pub enum DocValue {
    Null,
    Bool(bool),
    /// An integer number.
    Int(i64),
    /// A binary64 number, held as its encoding bits.
    Num(u64),
    Str(String),
    Arr(Vec<DocValue>),
    Obj(Vec<(String, DocValue)>),
}

// -- field shapes ----------------------------------------------------------

pub open spec fn fld_int(e: (String, DocValue), k: Seq<char>, v: i64) -> bool {
    e.0@ == k && (e.1 matches DocValue::Int(x) && x == v)
}

/// A binary64 field: either the encoding itself, or — for parity with
/// hand-written documents — an exactly representable integer.
pub open spec fn fld_num(e: (String, DocValue), k: Seq<char>, bits: u64) -> bool {
    e.0@ == k && !n64_is_nan(bits) && match e.1 {
        DocValue::Num(x) => x == bits,
        DocValue::Int(x) => -0x20_0000_0000_0000 < x < 0x20_0000_0000_0000 && bits
            == n64_of_int(x as int),
        _ => false,
    }
}

pub open spec fn fld_str(e: (String, DocValue), k: Seq<char>, v: String) -> bool {
    e.0@ == k && (e.1 matches DocValue::Str(s) && s == v)
}

pub open spec fn fld_opt_str(e: (String, DocValue), k: Seq<char>, v: Option<String>) -> bool {
    e.0@ == k && match e.1 {
        DocValue::Null => v is None,
        DocValue::Str(s) => v == Some(s),
        _ => false,
    }
}

pub open spec fn fld_opt_i64(e: (String, DocValue), k: Seq<char>, v: Option<i64>) -> bool {
    e.0@ == k && match e.1 {
        DocValue::Null => v is None,
        DocValue::Int(x) => v == Some(x),
        _ => false,
    }
}

pub open spec fn fld_opt_i32(e: (String, DocValue), k: Seq<char>, v: Option<i32>) -> bool {
    e.0@ == k && match e.1 {
        DocValue::Null => v is None,
        DocValue::Int(x) => i32::MIN <= x <= i32::MAX && v == Some(x as i32),
        _ => false,
    }
}

pub open spec fn fld_opt_i16(e: (String, DocValue), k: Seq<char>, v: Option<i16>) -> bool {
    e.0@ == k && match e.1 {
        DocValue::Null => v is None,
        DocValue::Int(x) => i16::MIN <= x <= i16::MAX && v == Some(x as i16),
        _ => false,
    }
}

pub open spec fn fld_opt_u8(e: (String, DocValue), k: Seq<char>, v: Option<u8>) -> bool {
    e.0@ == k && match e.1 {
        DocValue::Null => v is None,
        DocValue::Int(x) => 0 <= x <= u8::MAX && v == Some(x as u8),
        _ => false,
    }
}

pub open spec fn fld_opt_bool(e: (String, DocValue), k: Seq<char>, v: Option<bool>) -> bool {
    e.0@ == k && match e.1 {
        DocValue::Null => v is None,
        DocValue::Bool(x) => v == Some(x),
        _ => false,
    }
}

pub open spec fn fld_opt_num(e: (String, DocValue), k: Seq<char>, v: Option<u64>) -> bool {
    e.0@ == k && match e.1 {
        DocValue::Null => v is None,
        DocValue::Num(x) => v == Some(x) && !n64_is_nan(x),
        DocValue::Int(x) => -0x20_0000_0000_0000 < x < 0x20_0000_0000_0000 && v == Some(
            n64_of_int(x as int),
        ),
        _ => false,
    }
}

/// A sequence of integers, as a document array.
pub open spec fn arr_i64_matches(d: DocValue, v: Seq<i64>) -> bool {
    d matches DocValue::Arr(items) && items@.len() == v.len() && forall|i: int|
        0 <= i < v.len() ==> (#[trigger] items@[i] matches DocValue::Int(x) && x == v[i])
}

pub open spec fn fld_opt_arr_i64(
    e: (String, DocValue),
    k: Seq<char>,
    v: Option<Vec<i64>>,
) -> bool {
    e.0@ == k && match e.1 {
        DocValue::Null => v is None,
        _ => v matches Some(w) && arr_i64_matches(e.1, w@),
    }
}

/// A value shaped like a count span: a three-integer array.
pub open spec fn span_shape_ok(d: DocValue) -> bool {
    d matches DocValue::Arr(items) && items@.len() == 3 && (items@[0] is Int) && (items@[1]
        is Int) && (items@[2] is Int)
}

/// One imported count span, as a three-integer array.
pub open spec fn span_matches(d: DocValue, s: CountSpan) -> bool {
    d matches DocValue::Arr(items) && items@.len() == 3
        && (items@[0] matches DocValue::Int(x) && x == s.count)
        && (items@[1] matches DocValue::Int(x) && x == s.from_date)
        && (items@[2] matches DocValue::Int(x) && x == s.to_date)
}

pub open spec fn fld_opt_spans(
    e: (String, DocValue),
    k: Seq<char>,
    v: Option<Vec<CountSpan>>,
) -> bool {
    e.0@ == k && match e.1 {
        DocValue::Null => v is None,
        DocValue::Arr(items) => v matches Some(w) && items@.len() == w@.len() && forall|
            i: int,
        |
            0 <= i < w@.len() ==> span_matches(#[trigger] items@[i], w@[i]),
        _ => false,
    }
}

// -- the track record ------------------------------------------------------

/// The document form of one track record: an object carrying every field
/// in canonical order.
pub open spec fn track_doc_matches(d: DocValue, t: Track) -> bool {
    &&& d matches DocValue::Obj(es)
    &&& es@.len() == 41
    &&& fld_int(es@[0], "size"@, t.size)
    &&& fld_num(es@[1], "duration"@, t.duration)
    &&& fld_num(es@[2], "bitrate"@, t.bitrate)
    &&& fld_num(es@[3], "sampleRate"@, t.sample_rate)
    &&& fld_str(es@[4], "file"@, t.file)
    &&& fld_int(es@[5], "dateModified"@, t.date_modified)
    &&& fld_int(es@[6], "dateAdded"@, t.date_added)
    &&& fld_opt_str(es@[7], "name"@, t.name)
    &&& fld_opt_str(es@[8], "importedFrom"@, t.imported_from)
    &&& fld_opt_str(es@[9], "originalId"@, t.original_id)
    &&& fld_opt_str(es@[10], "artist"@, t.artist)
    &&& fld_opt_str(es@[11], "composer"@, t.composer)
    &&& fld_opt_str(es@[12], "sortName"@, t.sort_name)
    &&& fld_opt_str(es@[13], "sortArtist"@, t.sort_artist)
    &&& fld_opt_str(es@[14], "sortComposer"@, t.sort_composer)
    &&& fld_opt_str(es@[15], "genre"@, t.genre)
    &&& fld_opt_u8(es@[16], "rating"@, t.rating)
    &&& fld_opt_i16(es@[17], "year"@, t.year)
    &&& fld_opt_num(es@[18], "bpm"@, t.bpm)
    &&& fld_opt_str(es@[19], "comments"@, t.comments)
    &&& fld_opt_str(es@[20], "grouping"@, t.grouping)
    &&& fld_opt_bool(es@[21], "liked"@, t.liked)
    &&& fld_opt_bool(es@[22], "disliked"@, t.disliked)
    &&& fld_opt_bool(es@[23], "disabled"@, t.disabled)
    &&& fld_opt_bool(es@[24], "compilation"@, t.compilation)
    &&& fld_opt_str(es@[25], "albumName"@, t.album_name)
    &&& fld_opt_str(es@[26], "albumArtist"@, t.album_artist)
    &&& fld_opt_str(es@[27], "sortAlbumName"@, t.sort_album_name)
    &&& fld_opt_str(es@[28], "sortAlbumArtist"@, t.sort_album_artist)
    &&& fld_opt_i16(es@[29], "trackNum"@, t.track_num)
    &&& fld_opt_i16(es@[30], "trackCount"@, t.track_count)
    &&& fld_opt_i16(es@[31], "discNum"@, t.disc_num)
    &&& fld_opt_i16(es@[32], "discCount"@, t.disc_count)
    &&& fld_opt_i64(es@[33], "dateImported"@, t.date_imported)
    &&& fld_opt_i32(es@[34], "playCount"@, t.play_count)
    &&& fld_opt_arr_i64(es@[35], "plays"@, t.plays)
    &&& fld_opt_spans(es@[36], "playsImported"@, t.plays_imported)
    &&& fld_opt_i32(es@[37], "skipCount"@, t.skip_count)
    &&& fld_opt_arr_i64(es@[38], "skips"@, t.skips)
    &&& fld_opt_spans(es@[39], "skipsImported"@, t.skips_imported)
    &&& fld_opt_u8(es@[40], "volume"@, t.volume)
}

pub open spec fn opt_vec_eq<T>(a: Option<Vec<T>>, b: Option<Vec<T>>) -> bool {
    match (a, b) {
        (Some(v1), Some(v2)) => v1@ == v2@,
        (None, None) => true,
        _ => false,
    }
}

/// Structural equality of two track records: field for field, with the
/// history sequences compared by content.
pub open spec fn track_struct_eq(t1: Track, t2: Track) -> bool {
    &&& t1.size == t2.size
    &&& t1.duration == t2.duration
    &&& t1.bitrate == t2.bitrate
    &&& t1.sample_rate == t2.sample_rate
    &&& t1.file == t2.file
    &&& t1.date_modified == t2.date_modified
    &&& t1.date_added == t2.date_added
    &&& t1.name == t2.name
    &&& t1.imported_from == t2.imported_from
    &&& t1.original_id == t2.original_id
    &&& t1.artist == t2.artist
    &&& t1.composer == t2.composer
    &&& t1.sort_name == t2.sort_name
    &&& t1.sort_artist == t2.sort_artist
    &&& t1.sort_composer == t2.sort_composer
    &&& t1.genre == t2.genre
    &&& t1.rating == t2.rating
    &&& t1.year == t2.year
    &&& t1.bpm == t2.bpm
    &&& t1.comments == t2.comments
    &&& t1.grouping == t2.grouping
    &&& t1.liked == t2.liked
    &&& t1.disliked == t2.disliked
    &&& t1.disabled == t2.disabled
    &&& t1.compilation == t2.compilation
    &&& t1.album_name == t2.album_name
    &&& t1.album_artist == t2.album_artist
    &&& t1.sort_album_name == t2.sort_album_name
    &&& t1.sort_album_artist == t2.sort_album_artist
    &&& t1.track_num == t2.track_num
    &&& t1.track_count == t2.track_count
    &&& t1.disc_num == t2.disc_num
    &&& t1.disc_count == t2.disc_count
    &&& t1.date_imported == t2.date_imported
    &&& t1.play_count == t2.play_count
    &&& opt_vec_eq(t1.plays, t2.plays)
    &&& opt_vec_eq(t1.plays_imported, t2.plays_imported)
    &&& t1.skip_count == t2.skip_count
    &&& opt_vec_eq(t1.skips, t2.skips)
    &&& opt_vec_eq(t1.skips_imported, t2.skips_imported)
    &&& t1.volume == t2.volume
}

/// A document describes at most one track record, up to structural
/// equality.
pub proof fn lemma_track_doc_functional(d: DocValue, t1: Track, t2: Track)
    requires
        track_doc_matches(d, t1),
        track_doc_matches(d, t2),
    ensures
        track_struct_eq(t1, t2),
{
    let es = d->Obj_0;
    match (t1.plays, t2.plays) {
        (Some(w1), Some(w2)) => {
            let items = es@[35].1->Arr_0;
            assert forall|i: int| 0 <= i < w1@.len() implies w1@[i] == w2@[i] by {
                assert(items@[i] matches DocValue::Int(x) && x == w1@[i]);
                assert(items@[i] matches DocValue::Int(x2) && x2 == w2@[i]);
            }
            assert(w1@ =~= w2@);
        },
        _ => {},
    }
    match (t1.skips, t2.skips) {
        (Some(w1), Some(w2)) => {
            let items = es@[38].1->Arr_0;
            assert forall|i: int| 0 <= i < w1@.len() implies w1@[i] == w2@[i] by {
                assert(items@[i] matches DocValue::Int(x) && x == w1@[i]);
                assert(items@[i] matches DocValue::Int(x2) && x2 == w2@[i]);
            }
            assert(w1@ =~= w2@);
        },
        _ => {},
    }
    match (t1.plays_imported, t2.plays_imported) {
        (Some(w1), Some(w2)) => {
            let items = es@[36].1->Arr_0;
            assert forall|i: int| 0 <= i < w1@.len() implies w1@[i] == w2@[i] by {
                assert(span_matches(items@[i], w1@[i]));
                assert(span_matches(items@[i], w2@[i]));
            }
            assert(w1@ =~= w2@);
        },
        _ => {},
    }
    match (t1.skips_imported, t2.skips_imported) {
        (Some(w1), Some(w2)) => {
            let items = es@[39].1->Arr_0;
            assert forall|i: int| 0 <= i < w1@.len() implies w1@[i] == w2@[i] by {
                assert(span_matches(items@[i], w1@[i]));
                assert(span_matches(items@[i], w2@[i]));
            }
            assert(w1@ =~= w2@);
        },
        _ => {},
    }
}

// -- field readers ---------------------------------------------------------

fn get_int(e: &(String, DocValue), k: &str) -> (r: Option<i64>)
    ensures
        match r {
            Some(v) => fld_int(*e, k@, v),
            None => forall|v: i64| !fld_int(*e, k@, v),
        },
{
    if !str_eq(e.0.as_str(), k) {
        return None;
    }
    match &e.1 {
        DocValue::Int(x) => Some(*x),
        _ => None,
    }
}

fn get_num(e: &(String, DocValue), k: &str) -> (r: Option<u64>)
    ensures
        match r {
            Some(v) => fld_num(*e, k@, v),
            None => forall|v: u64| !fld_num(*e, k@, v),
        },
{
    if !str_eq(e.0.as_str(), k) {
        return None;
    }
    match &e.1 {
        DocValue::Num(x) => {
            if crate::num64::is_nan_bits(*x) {
                None
            } else {
                Some(*x)
            }
        },
        DocValue::Int(x) => int_to_n64_bits(*x),
        _ => None,
    }
}

fn get_str(e: &(String, DocValue), k: &str) -> (r: Option<String>)
    ensures
        match r {
            Some(v) => fld_str(*e, k@, v),
            None => forall|v: String| !fld_str(*e, k@, v),
        },
{
    if !str_eq(e.0.as_str(), k) {
        return None;
    }
    match &e.1 {
        DocValue::Str(s) => Some(s.clone()),
        _ => None,
    }
}

fn get_opt_str(e: &(String, DocValue), k: &str) -> (r: Option<Option<String>>)
    ensures
        match r {
            Some(v) => fld_opt_str(*e, k@, v),
            None => forall|v: Option<String>| !fld_opt_str(*e, k@, v),
        },
{
    if !str_eq(e.0.as_str(), k) {
        return None;
    }
    match &e.1 {
        DocValue::Null => Some(None),
        DocValue::Str(s) => Some(Some(s.clone())),
        _ => None,
    }
}

fn get_opt_i64(e: &(String, DocValue), k: &str) -> (r: Option<Option<i64>>)
    ensures
        match r {
            Some(v) => fld_opt_i64(*e, k@, v),
            None => forall|v: Option<i64>| !fld_opt_i64(*e, k@, v),
        },
{
    if !str_eq(e.0.as_str(), k) {
        return None;
    }
    match &e.1 {
        DocValue::Null => Some(None),
        DocValue::Int(x) => Some(Some(*x)),
        _ => None,
    }
}

fn get_opt_i32(e: &(String, DocValue), k: &str) -> (r: Option<Option<i32>>)
    ensures
        match r {
            Some(v) => fld_opt_i32(*e, k@, v),
            None => forall|v: Option<i32>| !fld_opt_i32(*e, k@, v),
        },
{
    if !str_eq(e.0.as_str(), k) {
        return None;
    }
    match &e.1 {
        DocValue::Null => Some(None),
        DocValue::Int(x) => {
            if *x >= i32::MIN as i64 && *x <= i32::MAX as i64 {
                Some(Some(*x as i32))
            } else {
                None
            }
        },
        _ => None,
    }
}

fn get_opt_i16(e: &(String, DocValue), k: &str) -> (r: Option<Option<i16>>)
    ensures
        match r {
            Some(v) => fld_opt_i16(*e, k@, v),
            None => forall|v: Option<i16>| !fld_opt_i16(*e, k@, v),
        },
{
    if !str_eq(e.0.as_str(), k) {
        return None;
    }
    match &e.1 {
        DocValue::Null => Some(None),
        DocValue::Int(x) => {
            if *x >= i16::MIN as i64 && *x <= i16::MAX as i64 {
                Some(Some(*x as i16))
            } else {
                None
            }
        },
        _ => None,
    }
}

fn get_opt_u8(e: &(String, DocValue), k: &str) -> (r: Option<Option<u8>>)
    ensures
        match r {
            Some(v) => fld_opt_u8(*e, k@, v),
            None => forall|v: Option<u8>| !fld_opt_u8(*e, k@, v),
        },
{
    if !str_eq(e.0.as_str(), k) {
        return None;
    }
    match &e.1 {
        DocValue::Null => Some(None),
        DocValue::Int(x) => {
            if *x >= 0 && *x <= u8::MAX as i64 {
                Some(Some(*x as u8))
            } else {
                None
            }
        },
        _ => None,
    }
}

fn get_opt_bool(e: &(String, DocValue), k: &str) -> (r: Option<Option<bool>>)
    ensures
        match r {
            Some(v) => fld_opt_bool(*e, k@, v),
            None => forall|v: Option<bool>| !fld_opt_bool(*e, k@, v),
        },
{
    if !str_eq(e.0.as_str(), k) {
        return None;
    }
    match &e.1 {
        DocValue::Null => Some(None),
        DocValue::Bool(x) => Some(Some(*x)),
        _ => None,
    }
}

fn get_opt_num(e: &(String, DocValue), k: &str) -> (r: Option<Option<u64>>)
    ensures
        match r {
            Some(v) => fld_opt_num(*e, k@, v),
            None => forall|v: Option<u64>| !fld_opt_num(*e, k@, v),
        },
{
    if !str_eq(e.0.as_str(), k) {
        return None;
    }
    match &e.1 {
        DocValue::Null => Some(None),
        DocValue::Num(x) => {
            if crate::num64::is_nan_bits(*x) {
                None
            } else {
                Some(Some(*x))
            }
        },
        DocValue::Int(x) => match int_to_n64_bits(*x) {
            Some(b) => Some(Some(b)),
            None => None,
        },
        _ => None,
    }
}

fn build_i64_arr(v: &Vec<i64>) -> (r: DocValue)
    ensures
        arr_i64_matches(r, v@),
{
    let mut items: Vec<DocValue> = Vec::new();
    let n = v.len();
    let mut i: usize = 0;
    while i < n
        invariant
            n == v@.len(),
            i <= n,
            items@.len() == i,
            forall|j: int|
                0 <= j < i ==> (#[trigger] items@[j] matches DocValue::Int(x) && x == v@[j]),
        decreases n - i,
    {
        items.push(DocValue::Int(v[i]));
        i = i + 1;
    }
    DocValue::Arr(items)
}

fn parse_i64_arr(items: &Vec<DocValue>) -> (r: Option<Vec<i64>>)
    ensures
        match r {
            Some(w) => w@.len() == items@.len() && forall|i: int|
                0 <= i < w@.len() ==> (#[trigger] items@[i] matches DocValue::Int(x) && x
                    == w@[i]),
            None => exists|i: int|
                0 <= i < items@.len() && !(#[trigger] items@[i] matches DocValue::Int(x)),
        },
{
    let mut out: Vec<i64> = Vec::new();
    let n = items.len();
    let mut i: usize = 0;
    while i < n
        invariant
            n == items@.len(),
            i <= n,
            out@.len() == i,
            forall|j: int|
                0 <= j < i ==> (#[trigger] items@[j] matches DocValue::Int(x) && x == out@[j]),
        decreases n - i,
    {
        match &items[i] {
            DocValue::Int(x) => {
                out.push(*x);
            },
            _ => {
                return None;
            },
        }
        i = i + 1;
    }
    Some(out)
}

fn build_spans(v: &Vec<CountSpan>) -> (r: Vec<DocValue>)
    ensures
        r@.len() == v@.len(),
        forall|i: int| 0 <= i < v@.len() ==> span_matches(#[trigger] r@[i], v@[i]),
{
    let mut items: Vec<DocValue> = Vec::new();
    let n = v.len();
    let mut i: usize = 0;
    while i < n
        invariant
            n == v@.len(),
            i <= n,
            items@.len() == i,
            forall|j: int| 0 <= j < i ==> span_matches(#[trigger] items@[j], v@[j]),
        decreases n - i,
    {
        let s = &v[i];
        let mut triple: Vec<DocValue> = Vec::new();
        triple.push(DocValue::Int(s.count));
        triple.push(DocValue::Int(s.from_date));
        triple.push(DocValue::Int(s.to_date));
        items.push(DocValue::Arr(triple));
        i = i + 1;
    }
    items
}

fn parse_spans(items: &Vec<DocValue>) -> (r: Option<Vec<CountSpan>>)
    ensures
        match r {
            Some(w) => w@.len() == items@.len() && forall|i: int|
                0 <= i < w@.len() ==> span_matches(#[trigger] items@[i], w@[i]),
            None => exists|i: int| 0 <= i < items@.len() && !span_shape_ok(#[trigger] items@[i]),
        },
{
    let mut out: Vec<CountSpan> = Vec::new();
    let n = items.len();
    let mut i: usize = 0;
    while i < n
        invariant
            n == items@.len(),
            i <= n,
            out@.len() == i,
            forall|j: int| 0 <= j < i ==> span_matches(#[trigger] items@[j], out@[j]),
        decreases n - i,
    {
        match &items[i] {
            DocValue::Arr(triple) => {
                if triple.len() != 3 {
                    return None;
                }
                let count = match &triple[0] {
                    DocValue::Int(x) => *x,
                    _ => {
                        return None;
                    },
                };
                let from_date = match &triple[1] {
                    DocValue::Int(x) => *x,
                    _ => {
                        return None;
                    },
                };
                let to_date = match &triple[2] {
                    DocValue::Int(x) => *x,
                    _ => {
                        return None;
                    },
                };
                out.push(CountSpan { count, from_date, to_date });
            },
            _ => {
                return None;
            },
        }
        i = i + 1;
    }
    Some(out)
}

fn get_opt_arr_i64(e: &(String, DocValue), k: &str) -> (r: Option<Option<Vec<i64>>>)
    ensures
        match r {
            Some(v) => fld_opt_arr_i64(*e, k@, v),
            None => forall|v: Option<Vec<i64>>| !fld_opt_arr_i64(*e, k@, v),
        },
{
    if !str_eq(e.0.as_str(), k) {
        return None;
    }
    match &e.1 {
        DocValue::Null => Some(None),
        DocValue::Arr(items) => {
            match parse_i64_arr(items) {
                Some(w) => Some(Some(w)),
                None => {
                    proof {
                        assert forall|v: Option<Vec<i64>>| !fld_opt_arr_i64(*e, k@, v) by {
                            if fld_opt_arr_i64(*e, k@, v) {
                                let w = v.unwrap();
                                assert(arr_i64_matches(e.1, w@));
                                let i = choose|i: int|
                                    0 <= i < items@.len() && !(#[trigger] items@[i] matches
                                    DocValue::Int(x));
                                assert(items@[i] matches DocValue::Int(x) && x == w@[i]);
                            }
                        }
                    }
                    None
                },
            }
        },
        _ => None,
    }
}

fn get_opt_spans(e: &(String, DocValue), k: &str) -> (r: Option<Option<Vec<CountSpan>>>)
    ensures
        match r {
            Some(v) => fld_opt_spans(*e, k@, v),
            None => forall|v: Option<Vec<CountSpan>>| !fld_opt_spans(*e, k@, v),
        },
{
    if !str_eq(e.0.as_str(), k) {
        return None;
    }
    match &e.1 {
        DocValue::Null => Some(None),
        DocValue::Arr(items) => {
            match parse_spans(items) {
                Some(w) => Some(Some(w)),
                None => {
                    proof {
                        assert forall|v: Option<Vec<CountSpan>>| !fld_opt_spans(*e, k@, v) by {
                            if fld_opt_spans(*e, k@, v) {
                                let w = v.unwrap();
                                let i = choose|i: int|
                                    0 <= i < items@.len() && !span_shape_ok(
                                        #[trigger] items@[i],
                                    );
                                assert(span_matches(items@[i], w@[i]));
                            }
                        }
                    }
                    None
                },
            }
        },
        _ => None,
    }
}

/// The document form of a track record.
///
/// The binary64 fields must hold well-formed numbers: a document cannot
/// carry NaN.
pub open spec fn track_nums_ok(t: Track) -> bool {
    &&& !n64_is_nan(t.duration)
    &&& !n64_is_nan(t.bitrate)
    &&& !n64_is_nan(t.sample_rate)
    &&& (t.bpm matches Some(b) ==> !n64_is_nan(b))
}

pub fn build_track_doc(t: &Track) -> (r: DocValue)
    requires
        track_nums_ok(*t),
    ensures
        track_doc_matches(r, *t),
{
    let mut es: Vec<(String, DocValue)> = Vec::new();
    es.push((String::from_str("size"), DocValue::Int(t.size)));
    es.push((String::from_str("duration"), DocValue::Num(t.duration)));
    es.push((String::from_str("bitrate"), DocValue::Num(t.bitrate)));
    es.push((String::from_str("sampleRate"), DocValue::Num(t.sample_rate)));
    es.push((String::from_str("file"), DocValue::Str(t.file.clone())));
    es.push((String::from_str("dateModified"), DocValue::Int(t.date_modified)));
    es.push((String::from_str("dateAdded"), DocValue::Int(t.date_added)));
    es.push((String::from_str("name"), opt_str_doc(&t.name)));
    es.push((String::from_str("importedFrom"), opt_str_doc(&t.imported_from)));
    es.push((String::from_str("originalId"), opt_str_doc(&t.original_id)));
    es.push((String::from_str("artist"), opt_str_doc(&t.artist)));
    es.push((String::from_str("composer"), opt_str_doc(&t.composer)));
    es.push((String::from_str("sortName"), opt_str_doc(&t.sort_name)));
    es.push((String::from_str("sortArtist"), opt_str_doc(&t.sort_artist)));
    es.push((String::from_str("sortComposer"), opt_str_doc(&t.sort_composer)));
    es.push((String::from_str("genre"), opt_str_doc(&t.genre)));
    es.push((String::from_str("rating"), opt_u8_doc(&t.rating)));
    es.push((String::from_str("year"), opt_i16_doc(&t.year)));
    es.push((String::from_str("bpm"), opt_num_doc(&t.bpm)));
    es.push((String::from_str("comments"), opt_str_doc(&t.comments)));
    es.push((String::from_str("grouping"), opt_str_doc(&t.grouping)));
    es.push((String::from_str("liked"), opt_bool_doc(&t.liked)));
    es.push((String::from_str("disliked"), opt_bool_doc(&t.disliked)));
    es.push((String::from_str("disabled"), opt_bool_doc(&t.disabled)));
    es.push((String::from_str("compilation"), opt_bool_doc(&t.compilation)));
    es.push((String::from_str("albumName"), opt_str_doc(&t.album_name)));
    es.push((String::from_str("albumArtist"), opt_str_doc(&t.album_artist)));
    es.push((String::from_str("sortAlbumName"), opt_str_doc(&t.sort_album_name)));
    es.push((String::from_str("sortAlbumArtist"), opt_str_doc(&t.sort_album_artist)));
    es.push((String::from_str("trackNum"), opt_i16_doc(&t.track_num)));
    es.push((String::from_str("trackCount"), opt_i16_doc(&t.track_count)));
    es.push((String::from_str("discNum"), opt_i16_doc(&t.disc_num)));
    es.push((String::from_str("discCount"), opt_i16_doc(&t.disc_count)));
    es.push((String::from_str("dateImported"), opt_i64_doc(&t.date_imported)));
    es.push((String::from_str("playCount"), opt_i32_doc(&t.play_count)));
    es.push((String::from_str("plays"), opt_arr_i64_doc(&t.plays)));
    es.push((String::from_str("playsImported"), opt_spans_doc(&t.plays_imported)));
    es.push((String::from_str("skipCount"), opt_i32_doc(&t.skip_count)));
    es.push((String::from_str("skips"), opt_arr_i64_doc(&t.skips)));
    es.push((String::from_str("skipsImported"), opt_spans_doc(&t.skips_imported)));
    es.push((String::from_str("volume"), opt_u8_doc(&t.volume)));
    DocValue::Obj(es)
}

fn opt_str_doc(v: &Option<String>) -> (r: DocValue)
    ensures
        match v {
            Some(s) => r matches DocValue::Str(s2) && s2 == s,
            None => r is Null,
        },
{
    match v {
        Some(s) => DocValue::Str(s.clone()),
        None => DocValue::Null,
    }
}

fn opt_i64_doc(v: &Option<i64>) -> (r: DocValue)
    ensures
        match v {
            Some(x) => r matches DocValue::Int(y) && y == x,
            None => r is Null,
        },
{
    match v {
        Some(x) => DocValue::Int(*x),
        None => DocValue::Null,
    }
}

fn opt_i32_doc(v: &Option<i32>) -> (r: DocValue)
    ensures
        match v {
            Some(x) => r matches DocValue::Int(y) && y == x as i64,
            None => r is Null,
        },
{
    match v {
        Some(x) => DocValue::Int(*x as i64),
        None => DocValue::Null,
    }
}

fn opt_i16_doc(v: &Option<i16>) -> (r: DocValue)
    ensures
        match v {
            Some(x) => r matches DocValue::Int(y) && y == x as i64,
            None => r is Null,
        },
{
    match v {
        Some(x) => DocValue::Int(*x as i64),
        None => DocValue::Null,
    }
}

fn opt_u8_doc(v: &Option<u8>) -> (r: DocValue)
    ensures
        match v {
            Some(x) => r matches DocValue::Int(y) && y == x as i64,
            None => r is Null,
        },
{
    match v {
        Some(x) => DocValue::Int(*x as i64),
        None => DocValue::Null,
    }
}

fn opt_bool_doc(v: &Option<bool>) -> (r: DocValue)
    ensures
        match v {
            Some(x) => r matches DocValue::Bool(y) && y == x,
            None => r is Null,
        },
{
    match v {
        Some(x) => DocValue::Bool(*x),
        None => DocValue::Null,
    }
}

fn opt_num_doc(v: &Option<u64>) -> (r: DocValue)
    ensures
        match v {
            Some(x) => r matches DocValue::Num(y) && y == x,
            None => r is Null,
        },
{
    match v {
        Some(x) => DocValue::Num(*x),
        None => DocValue::Null,
    }
}

fn opt_arr_i64_doc(v: &Option<Vec<i64>>) -> (r: DocValue)
    ensures
        match v {
            Some(w) => arr_i64_matches(r, w@),
            None => r is Null,
        },
{
    match v {
        Some(w) => build_i64_arr(w),
        None => DocValue::Null,
    }
}

fn opt_spans_doc(v: &Option<Vec<CountSpan>>) -> (r: DocValue)
    ensures
        match v {
            Some(w) => r matches DocValue::Arr(items) && items@.len() == w@.len() && forall|
                i: int,
            | 0 <= i < w@.len() ==> span_matches(#[trigger] items@[i], w@[i]),
            None => r is Null,
        },
{
    match v {
        Some(w) => DocValue::Arr(build_spans(w)),
        None => DocValue::Null,
    }
}


/// Reads one track record back out of its document form.
///
/// The result is `Some` exactly when the value is an object carrying all
/// the track fields under their canonical names, in canonical order, each
/// of the right kind and range.
#[verifier::rlimit(40)]
pub fn parse_track_doc(d: &DocValue) -> (r: Option<Track>)
    ensures
        match r {
            Some(t) => track_doc_matches(*d, t),
            None => forall|t: Track| !track_doc_matches(*d, t),
        },
{
    let es: &Vec<(String, DocValue)> = match d {
        DocValue::Obj(es) => es,
        _ => {
            return None;
        },
    };
    if es.len() != 41 {
        return None;
    }
    let v_size = match get_int(&es[0], "size") {
        Some(v) => v,
        None => {
            proof {
                assert forall|t: Track| !track_doc_matches(*d, t) by {
                    if track_doc_matches(*d, t) {
                        assert(fld_int(es@[0], "size"@, t.size));
                    }
                }
            }
            return None;
        },
    };
    let v_duration = match get_num(&es[1], "duration") {
        Some(v) => v,
        None => {
            proof {
                assert forall|t: Track| !track_doc_matches(*d, t) by {
                    if track_doc_matches(*d, t) {
                        assert(fld_num(es@[1], "duration"@, t.duration));
                    }
                }
            }
            return None;
        },
    };
    let v_bitrate = match get_num(&es[2], "bitrate") {
        Some(v) => v,
        None => {
            proof {
                assert forall|t: Track| !track_doc_matches(*d, t) by {
                    if track_doc_matches(*d, t) {
                        assert(fld_num(es@[2], "bitrate"@, t.bitrate));
                    }
                }
            }
            return None;
        },
    };
    let v_sample_rate = match get_num(&es[3], "sampleRate") {
        Some(v) => v,
        None => {
            proof {
                assert forall|t: Track| !track_doc_matches(*d, t) by {
                    if track_doc_matches(*d, t) {
                        assert(fld_num(es@[3], "sampleRate"@, t.sample_rate));
                    }
                }
            }
            return None;
        },
    };
    let v_file = match get_str(&es[4], "file") {
        Some(v) => v,
        None => {
            proof {
                assert forall|t: Track| !track_doc_matches(*d, t) by {
                    if track_doc_matches(*d, t) {
                        assert(fld_str(es@[4], "file"@, t.file));
                    }
                }
            }
            return None;
        },
    };
    let v_date_modified = match get_int(&es[5], "dateModified") {
        Some(v) => v,
        None => {
            proof {
                assert forall|t: Track| !track_doc_matches(*d, t) by {
                    if track_doc_matches(*d, t) {
                        assert(fld_int(es@[5], "dateModified"@, t.date_modified));
                    }
                }
            }
            return None;
        },
    };
    let v_date_added = match get_int(&es[6], "dateAdded") {
        Some(v) => v,
        None => {
            proof {
                assert forall|t: Track| !track_doc_matches(*d, t) by {
                    if track_doc_matches(*d, t) {
                        assert(fld_int(es@[6], "dateAdded"@, t.date_added));
                    }
                }
            }
            return None;
        },
    };
    let v_name = match get_opt_str(&es[7], "name") {
        Some(v) => v,
        None => {
            proof {
                assert forall|t: Track| !track_doc_matches(*d, t) by {
                    if track_doc_matches(*d, t) {
                        assert(fld_opt_str(es@[7], "name"@, t.name));
                    }
                }
            }
            return None;
        },
    };
    let v_imported_from = match get_opt_str(&es[8], "importedFrom") {
        Some(v) => v,
        None => {
            proof {
                assert forall|t: Track| !track_doc_matches(*d, t) by {
                    if track_doc_matches(*d, t) {
                        assert(fld_opt_str(es@[8], "importedFrom"@, t.imported_from));
                    }
                }
            }
            return None;
        },
    };
    let v_original_id = match get_opt_str(&es[9], "originalId") {
        Some(v) => v,
        None => {
            proof {
                assert forall|t: Track| !track_doc_matches(*d, t) by {
                    if track_doc_matches(*d, t) {
                        assert(fld_opt_str(es@[9], "originalId"@, t.original_id));
                    }
                }
            }
            return None;
        },
    };
    let v_artist = match get_opt_str(&es[10], "artist") {
        Some(v) => v,
        None => {
            proof {
                assert forall|t: Track| !track_doc_matches(*d, t) by {
                    if track_doc_matches(*d, t) {
                        assert(fld_opt_str(es@[10], "artist"@, t.artist));
                    }
                }
            }
            return None;
        },
    };
    let v_composer = match get_opt_str(&es[11], "composer") {
        Some(v) => v,
        None => {
            proof {
                assert forall|t: Track| !track_doc_matches(*d, t) by {
                    if track_doc_matches(*d, t) {
                        assert(fld_opt_str(es@[11], "composer"@, t.composer));
                    }
                }
            }
            return None;
        },
    };
    let v_sort_name = match get_opt_str(&es[12], "sortName") {
        Some(v) => v,
        None => {
            proof {
                assert forall|t: Track| !track_doc_matches(*d, t) by {
                    if track_doc_matches(*d, t) {
                        assert(fld_opt_str(es@[12], "sortName"@, t.sort_name));
                    }
                }
            }
            return None;
        },
    };
    let v_sort_artist = match get_opt_str(&es[13], "sortArtist") {
        Some(v) => v,
        None => {
            proof {
                assert forall|t: Track| !track_doc_matches(*d, t) by {
                    if track_doc_matches(*d, t) {
                        assert(fld_opt_str(es@[13], "sortArtist"@, t.sort_artist));
                    }
                }
            }
            return None;
        },
    };
    let v_sort_composer = match get_opt_str(&es[14], "sortComposer") {
        Some(v) => v,
        None => {
            proof {
                assert forall|t: Track| !track_doc_matches(*d, t) by {
                    if track_doc_matches(*d, t) {
                        assert(fld_opt_str(es@[14], "sortComposer"@, t.sort_composer));
                    }
                }
            }
            return None;
        },
    };
    let v_genre = match get_opt_str(&es[15], "genre") {
        Some(v) => v,
        None => {
            proof {
                assert forall|t: Track| !track_doc_matches(*d, t) by {
                    if track_doc_matches(*d, t) {
                        assert(fld_opt_str(es@[15], "genre"@, t.genre));
                    }
                }
            }
            return None;
        },
    };
    let v_rating = match get_opt_u8(&es[16], "rating") {
        Some(v) => v,
        None => {
            proof {
                assert forall|t: Track| !track_doc_matches(*d, t) by {
                    if track_doc_matches(*d, t) {
                        assert(fld_opt_u8(es@[16], "rating"@, t.rating));
                    }
                }
            }
            return None;
        },
    };
    let v_year = match get_opt_i16(&es[17], "year") {
        Some(v) => v,
        None => {
            proof {
                assert forall|t: Track| !track_doc_matches(*d, t) by {
                    if track_doc_matches(*d, t) {
                        assert(fld_opt_i16(es@[17], "year"@, t.year));
                    }
                }
            }
            return None;
        },
    };
    let v_bpm = match get_opt_num(&es[18], "bpm") {
        Some(v) => v,
        None => {
            proof {
                assert forall|t: Track| !track_doc_matches(*d, t) by {
                    if track_doc_matches(*d, t) {
                        assert(fld_opt_num(es@[18], "bpm"@, t.bpm));
                    }
                }
            }
            return None;
        },
    };
    let v_comments = match get_opt_str(&es[19], "comments") {
        Some(v) => v,
        None => {
            proof {
                assert forall|t: Track| !track_doc_matches(*d, t) by {
                    if track_doc_matches(*d, t) {
                        assert(fld_opt_str(es@[19], "comments"@, t.comments));
                    }
                }
            }
            return None;
        },
    };
    let v_grouping = match get_opt_str(&es[20], "grouping") {
        Some(v) => v,
        None => {
            proof {
                assert forall|t: Track| !track_doc_matches(*d, t) by {
                    if track_doc_matches(*d, t) {
                        assert(fld_opt_str(es@[20], "grouping"@, t.grouping));
                    }
                }
            }
            return None;
        },
    };
    let v_liked = match get_opt_bool(&es[21], "liked") {
        Some(v) => v,
        None => {
            proof {
                assert forall|t: Track| !track_doc_matches(*d, t) by {
                    if track_doc_matches(*d, t) {
                        assert(fld_opt_bool(es@[21], "liked"@, t.liked));
                    }
                }
            }
            return None;
        },
    };
    let v_disliked = match get_opt_bool(&es[22], "disliked") {
        Some(v) => v,
        None => {
            proof {
                assert forall|t: Track| !track_doc_matches(*d, t) by {
                    if track_doc_matches(*d, t) {
                        assert(fld_opt_bool(es@[22], "disliked"@, t.disliked));
                    }
                }
            }
            return None;
        },
    };
    let v_disabled = match get_opt_bool(&es[23], "disabled") {
        Some(v) => v,
        None => {
            proof {
                assert forall|t: Track| !track_doc_matches(*d, t) by {
                    if track_doc_matches(*d, t) {
                        assert(fld_opt_bool(es@[23], "disabled"@, t.disabled));
                    }
                }
            }
            return None;
        },
    };
    let v_compilation = match get_opt_bool(&es[24], "compilation") {
        Some(v) => v,
        None => {
            proof {
                assert forall|t: Track| !track_doc_matches(*d, t) by {
                    if track_doc_matches(*d, t) {
                        assert(fld_opt_bool(es@[24], "compilation"@, t.compilation));
                    }
                }
            }
            return None;
        },
    };
    let v_album_name = match get_opt_str(&es[25], "albumName") {
        Some(v) => v,
        None => {
            proof {
                assert forall|t: Track| !track_doc_matches(*d, t) by {
                    if track_doc_matches(*d, t) {
                        assert(fld_opt_str(es@[25], "albumName"@, t.album_name));
                    }
                }
            }
            return None;
        },
    };
    let v_album_artist = match get_opt_str(&es[26], "albumArtist") {
        Some(v) => v,
        None => {
            proof {
                assert forall|t: Track| !track_doc_matches(*d, t) by {
                    if track_doc_matches(*d, t) {
                        assert(fld_opt_str(es@[26], "albumArtist"@, t.album_artist));
                    }
                }
            }
            return None;
        },
    };
    let v_sort_album_name = match get_opt_str(&es[27], "sortAlbumName") {
        Some(v) => v,
        None => {
            proof {
                assert forall|t: Track| !track_doc_matches(*d, t) by {
                    if track_doc_matches(*d, t) {
                        assert(fld_opt_str(es@[27], "sortAlbumName"@, t.sort_album_name));
                    }
                }
            }
            return None;
        },
    };
    let v_sort_album_artist = match get_opt_str(&es[28], "sortAlbumArtist") {
        Some(v) => v,
        None => {
            proof {
                assert forall|t: Track| !track_doc_matches(*d, t) by {
                    if track_doc_matches(*d, t) {
                        assert(fld_opt_str(es@[28], "sortAlbumArtist"@, t.sort_album_artist));
                    }
                }
            }
            return None;
        },
    };
    let v_track_num = match get_opt_i16(&es[29], "trackNum") {
        Some(v) => v,
        None => {
            proof {
                assert forall|t: Track| !track_doc_matches(*d, t) by {
                    if track_doc_matches(*d, t) {
                        assert(fld_opt_i16(es@[29], "trackNum"@, t.track_num));
                    }
                }
            }
            return None;
        },
    };
    let v_track_count = match get_opt_i16(&es[30], "trackCount") {
        Some(v) => v,
        None => {
            proof {
                assert forall|t: Track| !track_doc_matches(*d, t) by {
                    if track_doc_matches(*d, t) {
                        assert(fld_opt_i16(es@[30], "trackCount"@, t.track_count));
                    }
                }
            }
            return None;
        },
    };
    let v_disc_num = match get_opt_i16(&es[31], "discNum") {
        Some(v) => v,
        None => {
            proof {
                assert forall|t: Track| !track_doc_matches(*d, t) by {
                    if track_doc_matches(*d, t) {
                        assert(fld_opt_i16(es@[31], "discNum"@, t.disc_num));
                    }
                }
            }
            return None;
        },
    };
    let v_disc_count = match get_opt_i16(&es[32], "discCount") {
        Some(v) => v,
        None => {
            proof {
                assert forall|t: Track| !track_doc_matches(*d, t) by {
                    if track_doc_matches(*d, t) {
                        assert(fld_opt_i16(es@[32], "discCount"@, t.disc_count));
                    }
                }
            }
            return None;
        },
    };
    let v_date_imported = match get_opt_i64(&es[33], "dateImported") {
        Some(v) => v,
        None => {
            proof {
                assert forall|t: Track| !track_doc_matches(*d, t) by {
                    if track_doc_matches(*d, t) {
                        assert(fld_opt_i64(es@[33], "dateImported"@, t.date_imported));
                    }
                }
            }
            return None;
        },
    };
    let v_play_count = match get_opt_i32(&es[34], "playCount") {
        Some(v) => v,
        None => {
            proof {
                assert forall|t: Track| !track_doc_matches(*d, t) by {
                    if track_doc_matches(*d, t) {
                        assert(fld_opt_i32(es@[34], "playCount"@, t.play_count));
                    }
                }
            }
            return None;
        },
    };
    let v_plays = match get_opt_arr_i64(&es[35], "plays") {
        Some(v) => v,
        None => {
            proof {
                assert forall|t: Track| !track_doc_matches(*d, t) by {
                    if track_doc_matches(*d, t) {
                        assert(fld_opt_arr_i64(es@[35], "plays"@, t.plays));
                    }
                }
            }
            return None;
        },
    };
    let v_plays_imported = match get_opt_spans(&es[36], "playsImported") {
        Some(v) => v,
        None => {
            proof {
                assert forall|t: Track| !track_doc_matches(*d, t) by {
                    if track_doc_matches(*d, t) {
                        assert(fld_opt_spans(es@[36], "playsImported"@, t.plays_imported));
                    }
                }
            }
            return None;
        },
    };
    let v_skip_count = match get_opt_i32(&es[37], "skipCount") {
        Some(v) => v,
        None => {
            proof {
                assert forall|t: Track| !track_doc_matches(*d, t) by {
                    if track_doc_matches(*d, t) {
                        assert(fld_opt_i32(es@[37], "skipCount"@, t.skip_count));
                    }
                }
            }
            return None;
        },
    };
    let v_skips = match get_opt_arr_i64(&es[38], "skips") {
        Some(v) => v,
        None => {
            proof {
                assert forall|t: Track| !track_doc_matches(*d, t) by {
                    if track_doc_matches(*d, t) {
                        assert(fld_opt_arr_i64(es@[38], "skips"@, t.skips));
                    }
                }
            }
            return None;
        },
    };
    let v_skips_imported = match get_opt_spans(&es[39], "skipsImported") {
        Some(v) => v,
        None => {
            proof {
                assert forall|t: Track| !track_doc_matches(*d, t) by {
                    if track_doc_matches(*d, t) {
                        assert(fld_opt_spans(es@[39], "skipsImported"@, t.skips_imported));
                    }
                }
            }
            return None;
        },
    };
    let v_volume = match get_opt_u8(&es[40], "volume") {
        Some(v) => v,
        None => {
            proof {
                assert forall|t: Track| !track_doc_matches(*d, t) by {
                    if track_doc_matches(*d, t) {
                        assert(fld_opt_u8(es@[40], "volume"@, t.volume));
                    }
                }
            }
            return None;
        },
    };
    Some(Track {
        size: v_size,
        duration: v_duration,
        bitrate: v_bitrate,
        sample_rate: v_sample_rate,
        file: v_file,
        date_modified: v_date_modified,
        date_added: v_date_added,
        name: v_name,
        imported_from: v_imported_from,
        original_id: v_original_id,
        artist: v_artist,
        composer: v_composer,
        sort_name: v_sort_name,
        sort_artist: v_sort_artist,
        sort_composer: v_sort_composer,
        genre: v_genre,
        rating: v_rating,
        year: v_year,
        bpm: v_bpm,
        comments: v_comments,
        grouping: v_grouping,
        liked: v_liked,
        disliked: v_disliked,
        disabled: v_disabled,
        compilation: v_compilation,
        album_name: v_album_name,
        album_artist: v_album_artist,
        sort_album_name: v_sort_album_name,
        sort_album_artist: v_sort_album_artist,
        track_num: v_track_num,
        track_count: v_track_count,
        disc_num: v_disc_num,
        disc_count: v_disc_count,
        date_imported: v_date_imported,
        play_count: v_play_count,
        plays: v_plays,
        plays_imported: v_plays_imported,
        skip_count: v_skip_count,
        skips: v_skips,
        skips_imported: v_skips_imported,
        volume: v_volume,
    })
}

// -- tracklist nodes -------------------------------------------------------

/// A tag field: the key `k` bound to the literal text `tag`.
pub open spec fn fld_tag(e: (String, DocValue), k: Seq<char>, tag: Seq<char>) -> bool {
    e.0@ == k && (e.1 matches DocValue::Str(s) && s@ == tag)
}

/// A sequence of ids, as a document array of strings.
pub open spec fn str_arr_matches(d: DocValue, v: Seq<String>) -> bool {
    d matches DocValue::Arr(items) && items@.len() == v.len() && forall|i: int|
        0 <= i < v.len() ==> (#[trigger] items@[i] matches DocValue::Str(s) && s == v[i])
}

/// The document form of one tracklist node, tagged by its kind.
pub open spec fn list_doc_matches(d: DocValue, l: TrackList) -> bool {
    match l {
        TrackList::Playlist(p) => {
            &&& d matches DocValue::Obj(es)
            &&& es@.len() == 6
            &&& fld_tag(es@[0], "type"@, "playlist"@)
            &&& fld_str(es@[1], "id"@, p.id)
            &&& fld_str(es@[2], "name"@, p.name)
            &&& fld_int(es@[3], "dateCreated"@, p.date_created)
            &&& fld_opt_str(es@[4], "description"@, p.description)
            &&& es@[5].0@ == "tracks"@
            &&& str_arr_matches(es@[5].1, p.tracks@)
        },
        TrackList::Folder(f) => {
            &&& d matches DocValue::Obj(es)
            &&& es@.len() == 6
            &&& fld_tag(es@[0], "type"@, "folder"@)
            &&& fld_str(es@[1], "id"@, f.id)
            &&& fld_str(es@[2], "name"@, f.name)
            &&& fld_int(es@[3], "dateCreated"@, f.date_created)
            &&& fld_opt_str(es@[4], "description"@, f.description)
            &&& es@[5].0@ == "children"@
            &&& str_arr_matches(es@[5].1, f.children@)
        },
        TrackList::Special(s) => {
            &&& d matches DocValue::Obj(es)
            &&& es@.len() == 5
            &&& fld_tag(es@[0], "type"@, "special"@)
            &&& fld_str(es@[1], "id"@, s.id)
            &&& fld_tag(es@[2], "name"@, "Root"@)
            &&& s.name == SpecialTrackListName::Root
            &&& fld_int(es@[3], "dateCreated"@, s.date_created)
            &&& es@[4].0@ == "children"@
            &&& str_arr_matches(es@[4].1, s.children@)
        },
    }
}

/// Structural equality of two tracklist nodes.
pub open spec fn list_struct_eq(l1: TrackList, l2: TrackList) -> bool {
    match (l1, l2) {
        (TrackList::Playlist(p), TrackList::Playlist(q)) => {
            &&& p.id == q.id
            &&& p.name == q.name
            &&& p.date_created == q.date_created
            &&& p.description == q.description
            &&& p.tracks@ == q.tracks@
        },
        (TrackList::Folder(f), TrackList::Folder(g)) => {
            &&& f.id == g.id
            &&& f.name == g.name
            &&& f.date_created == g.date_created
            &&& f.description == g.description
            &&& f.children@ == g.children@
        },
        (TrackList::Special(s), TrackList::Special(t)) => {
            &&& s.id == t.id
            &&& s.name == t.name
            &&& s.date_created == t.date_created
            &&& s.children@ == t.children@
        },
        _ => false,
    }
}

/// A document describes at most one tracklist node, up to structural
/// equality.
pub proof fn lemma_list_doc_functional(d: DocValue, l1: TrackList, l2: TrackList)
    requires
        list_doc_matches(d, l1),
        list_doc_matches(d, l2),
    ensures
        list_struct_eq(l1, l2),
{
    reveal_strlit("playlist");
    reveal_strlit("folder");
    reveal_strlit("special");
    assert("playlist"@.len() == 8);
    assert("folder"@.len() == 6);
    assert("playlist"@ != "folder"@);
    let es = d->Obj_0;
    match (l1, l2) {
        (TrackList::Playlist(p), TrackList::Playlist(q)) => {
            let items = es@[5].1->Arr_0;
            assert forall|i: int|
                0 <= i < p.tracks@.len() implies p.tracks@[i] == q.tracks@[i] by {
                assert(items@[i] matches DocValue::Str(s) && s == p.tracks@[i]);
                assert(items@[i] matches DocValue::Str(s2) && s2 == q.tracks@[i]);
            }
            assert(p.tracks@ =~= q.tracks@);
            assert(list_struct_eq(l1, l2));
        },
        (TrackList::Folder(f), TrackList::Folder(g)) => {
            let items = es@[5].1->Arr_0;
            assert forall|i: int|
                0 <= i < f.children@.len() implies f.children@[i] == g.children@[i] by {
                assert(items@[i] matches DocValue::Str(s) && s == f.children@[i]);
                assert(items@[i] matches DocValue::Str(s2) && s2 == g.children@[i]);
            }
            assert(f.children@ =~= g.children@);
            assert(list_struct_eq(l1, l2));
        },
        (TrackList::Special(s), TrackList::Special(t)) => {
            let items = es@[4].1->Arr_0;
            assert forall|i: int|
                0 <= i < s.children@.len() implies s.children@[i] == t.children@[i] by {
                assert(items@[i] matches DocValue::Str(x) && x == s.children@[i]);
                assert(items@[i] matches DocValue::Str(x2) && x2 == t.children@[i]);
            }
            assert(s.children@ =~= t.children@);
            assert(list_struct_eq(l1, l2));
        },
        _ => {
            let s0 = es@[0].1->Str_0;
            match l1 {
                TrackList::Playlist(_) => {
                    assert(s0@ == "playlist"@);
                },
                TrackList::Folder(_) => {
                    assert(s0@ == "folder"@);
                },
                TrackList::Special(_) => {
                    assert(s0@ == "special"@);
                },
            }
            match l2 {
                TrackList::Playlist(_) => {
                    assert(s0@ == "playlist"@);
                },
                TrackList::Folder(_) => {
                    assert(s0@ == "folder"@);
                },
                TrackList::Special(_) => {
                    assert(s0@ == "special"@);
                },
            }
            assert(false);
        },
    }
}

fn build_str_arr(v: &Vec<String>) -> (r: DocValue)
    ensures
        str_arr_matches(r, v@),
{
    let mut items: Vec<DocValue> = Vec::new();
    let n = v.len();
    let mut i: usize = 0;
    while i < n
        invariant
            n == v@.len(),
            i <= n,
            items@.len() == i,
            forall|j: int|
                0 <= j < i ==> (#[trigger] items@[j] matches DocValue::Str(s) && s == v@[j]),
        decreases n - i,
    {
        items.push(DocValue::Str(v[i].clone()));
        i = i + 1;
    }
    DocValue::Arr(items)
}

fn parse_str_arr(items: &Vec<DocValue>) -> (r: Option<Vec<String>>)
    ensures
        match r {
            Some(w) => w@.len() == items@.len() && forall|i: int|
                0 <= i < w@.len() ==> (#[trigger] items@[i] matches DocValue::Str(s) && s
                    == w@[i]),
            None => exists|i: int|
                0 <= i < items@.len() && !(#[trigger] items@[i] is Str),
        },
{
    let mut out: Vec<String> = Vec::new();
    let n = items.len();
    let mut i: usize = 0;
    while i < n
        invariant
            n == items@.len(),
            i <= n,
            out@.len() == i,
            forall|j: int|
                0 <= j < i ==> (#[trigger] items@[j] matches DocValue::Str(s) && s == out@[j]),
        decreases n - i,
    {
        match &items[i] {
            DocValue::Str(s) => {
                out.push(s.clone());
            },
            _ => {
                return None;
            },
        }
        i = i + 1;
    }
    Some(out)
}

pub fn build_list_doc(l: &TrackList) -> (r: DocValue)
    ensures
        list_doc_matches(r, *l),
{
    let mut es: Vec<(String, DocValue)> = Vec::new();
    match l {
        TrackList::Playlist(p) => {
            es.push((String::from_str("type"), DocValue::Str(String::from_str("playlist"))));
            es.push((String::from_str("id"), DocValue::Str(p.id.clone())));
            es.push((String::from_str("name"), DocValue::Str(p.name.clone())));
            es.push((String::from_str("dateCreated"), DocValue::Int(p.date_created)));
            es.push((String::from_str("description"), opt_str_doc(&p.description)));
            es.push((String::from_str("tracks"), build_str_arr(&p.tracks)));
        },
        TrackList::Folder(f) => {
            es.push((String::from_str("type"), DocValue::Str(String::from_str("folder"))));
            es.push((String::from_str("id"), DocValue::Str(f.id.clone())));
            es.push((String::from_str("name"), DocValue::Str(f.name.clone())));
            es.push((String::from_str("dateCreated"), DocValue::Int(f.date_created)));
            es.push((String::from_str("description"), opt_str_doc(&f.description)));
            es.push((String::from_str("children"), build_str_arr(&f.children)));
        },
        TrackList::Special(s) => {
            es.push((String::from_str("type"), DocValue::Str(String::from_str("special"))));
            es.push((String::from_str("id"), DocValue::Str(s.id.clone())));
            es.push((String::from_str("name"), DocValue::Str(String::from_str("Root"))));
            es.push((String::from_str("dateCreated"), DocValue::Int(s.date_created)));
            es.push((String::from_str("children"), build_str_arr(&s.children)));
        },
    }
    DocValue::Obj(es)
}

/// Reads one tracklist node back out of its document form.
pub fn parse_list_doc(d: &DocValue) -> (r: Option<TrackList>)
    ensures
        match r {
            Some(l) => list_doc_matches(*d, l),
            None => forall|l: TrackList| !list_doc_matches(*d, l),
        },
{
    proof {
        reveal_strlit("playlist");
        reveal_strlit("folder");
        reveal_strlit("special");
    }
    let es: &Vec<(String, DocValue)> = match d {
        DocValue::Obj(es) => es,
        _ => {
            return None;
        },
    };
    if es.len() < 1 {
        return None;
    }
    let tag = match get_str(&es[0], "type") {
        Some(s) => s,
        None => {
            proof {
                assert forall|l: TrackList| !list_doc_matches(*d, l) by {
                    if list_doc_matches(*d, l) {
                        match l {
                            TrackList::Playlist(_) => {
                                assert(es@[0].0@ == "type"@ && es@[0].1 is Str);
                            },
                            TrackList::Folder(_) => {
                                assert(es@[0].0@ == "type"@ && es@[0].1 is Str);
                            },
                            TrackList::Special(_) => {
                                assert(es@[0].0@ == "type"@ && es@[0].1 is Str);
                            },
                        }
                        let s0 = es@[0].1->Str_0;
                        assert(fld_str(es@[0], "type"@, s0));
                    }
                }
            }
            return None;
        },
    };
    if str_eq(tag.as_str(), "playlist") || str_eq(tag.as_str(), "folder") {
        let is_playlist = str_eq(tag.as_str(), "playlist");
        if es.len() != 6 {
            proof {
                assert forall|l: TrackList| !list_doc_matches(*d, l) by {
                    if list_doc_matches(*d, l) {
                        match l {
                            TrackList::Special(_) => {
                                assert(es@[0].1->Str_0@ == "special"@);
                                assert(tag@ == "special"@);
                            },
                            _ => {},
                        }
                    }
                }
            }
            return None;
        }
        let id = match get_str(&es[1], "id") {
            Some(s) => s,
            None => {
                return None;
            },
        };
        let name = match get_str(&es[2], "name") {
            Some(s) => s,
            None => {
                return None;
            },
        };
        let date_created = match get_int(&es[3], "dateCreated") {
            Some(v) => v,
            None => {
                return None;
            },
        };
        let description = match get_opt_str(&es[4], "description") {
            Some(v) => v,
            None => {
                return None;
            },
        };
        if is_playlist {
            if !str_eq(es[5].0.as_str(), "tracks") {
                proof {
                    assert forall|l: TrackList| !list_doc_matches(*d, l) by {
                        if list_doc_matches(*d, l) {
                            match l {
                                TrackList::Folder(_) => {
                                    assert(es@[0].1->Str_0@ == "folder"@);
                                    assert(tag@ == "folder"@);
                                },
                                TrackList::Playlist(_) => {
                                    assert(es@[0].1->Str_0@ == "playlist"@);
                                    assert(tag@ == "playlist"@);
                                },
                                _ => {},
                            }
                        }
                    }
                }
                return None;
            }
            let tracks = match &es[5].1 {
                DocValue::Arr(items) => match parse_str_arr(items) {
                    Some(w) => w,
                    None => {
                        proof {
                    assert forall|l: TrackList| !list_doc_matches(*d, l) by {
                        if list_doc_matches(*d, l) {
                            match l {
                                TrackList::Folder(_) => {
                                    assert(es@[0].1->Str_0@ == "folder"@);
                                    assert(tag@ == "folder"@);
                                },
                                TrackList::Playlist(_) => {
                                    assert(es@[0].1->Str_0@ == "playlist"@);
                                    assert(tag@ == "playlist"@);
                                },
                                _ => {},
                            }
                        }
                    }
                }
                return None;
                    },
                },
                _ => {
                    proof {
                    assert forall|l: TrackList| !list_doc_matches(*d, l) by {
                        if list_doc_matches(*d, l) {
                            match l {
                                TrackList::Folder(_) => {
                                    assert(es@[0].1->Str_0@ == "folder"@);
                                    assert(tag@ == "folder"@);
                                },
                                TrackList::Playlist(_) => {
                                    assert(es@[0].1->Str_0@ == "playlist"@);
                                    assert(tag@ == "playlist"@);
                                },
                                _ => {},
                            }
                        }
                    }
                }
                return None;
                },
            };
            Some(TrackList::Playlist(Playlist { id, name, date_created, description, tracks }))
        } else {
            if !str_eq(es[5].0.as_str(), "children") {
                proof {
                    assert forall|l: TrackList| !list_doc_matches(*d, l) by {
                        if list_doc_matches(*d, l) {
                            match l {
                                TrackList::Folder(_) => {
                                    assert(es@[0].1->Str_0@ == "folder"@);
                                    assert(tag@ == "folder"@);
                                },
                                TrackList::Playlist(_) => {
                                    assert(es@[0].1->Str_0@ == "playlist"@);
                                    assert(tag@ == "playlist"@);
                                },
                                _ => {},
                            }
                        }
                    }
                }
                return None;
            }
            let children = match &es[5].1 {
                DocValue::Arr(items) => match parse_str_arr(items) {
                    Some(w) => w,
                    None => {
                        proof {
                    assert forall|l: TrackList| !list_doc_matches(*d, l) by {
                        if list_doc_matches(*d, l) {
                            match l {
                                TrackList::Folder(_) => {
                                    assert(es@[0].1->Str_0@ == "folder"@);
                                    assert(tag@ == "folder"@);
                                },
                                TrackList::Playlist(_) => {
                                    assert(es@[0].1->Str_0@ == "playlist"@);
                                    assert(tag@ == "playlist"@);
                                },
                                _ => {},
                            }
                        }
                    }
                }
                return None;
                    },
                },
                _ => {
                    proof {
                    assert forall|l: TrackList| !list_doc_matches(*d, l) by {
                        if list_doc_matches(*d, l) {
                            match l {
                                TrackList::Folder(_) => {
                                    assert(es@[0].1->Str_0@ == "folder"@);
                                    assert(tag@ == "folder"@);
                                },
                                TrackList::Playlist(_) => {
                                    assert(es@[0].1->Str_0@ == "playlist"@);
                                    assert(tag@ == "playlist"@);
                                },
                                _ => {},
                            }
                        }
                    }
                }
                return None;
                },
            };
            Some(TrackList::Folder(Folder { id, name, date_created, description, children }))
        }
    } else if str_eq(tag.as_str(), "special") {
        if es.len() != 5 {
            return None;
        }
        let id = match get_str(&es[1], "id") {
            Some(s) => s,
            None => {
                return None;
            },
        };
        let nm = match get_str(&es[2], "name") {
            Some(s) => s,
            None => {
                proof {
                    assert forall|l: TrackList| !list_doc_matches(*d, l) by {
                        if list_doc_matches(*d, l) {
                            match l {
                                TrackList::Special(_) => {
                                    let s2 = es@[2].1->Str_0;
                                    assert(fld_str(es@[2], "name"@, s2));
                                },
                                _ => {},
                            }
                        }
                    }
                }
                return None;
            },
        };
        if !str_eq(nm.as_str(), "Root") {
            proof {
                assert forall|l: TrackList| !list_doc_matches(*d, l) by {
                    if list_doc_matches(*d, l) {
                        match l {
                            TrackList::Playlist(_) => {
                                assert(es@[0].1->Str_0@ == "playlist"@);
                                assert(tag@ == "playlist"@);
                            },
                            TrackList::Folder(_) => {
                                assert(es@[0].1->Str_0@ == "folder"@);
                                assert(tag@ == "folder"@);
                            },
                            TrackList::Special(_) => {
                                assert(es@[2].1 matches DocValue::Str(s) && s == nm);
                                assert(nm@ == "Root"@);
                            },
                        }
                    }
                }
            }
            return None;
        }
        let date_created = match get_int(&es[3], "dateCreated") {
            Some(v) => v,
            None => {
                return None;
            },
        };
        if !str_eq(es[4].0.as_str(), "children") {
            return None;
        }
        let children = match &es[4].1 {
            DocValue::Arr(items) => match parse_str_arr(items) {
                Some(w) => w,
                None => {
                    return None;
                },
            },
            _ => {
                return None;
            },
        };
        Some(TrackList::Special(Special {
            id,
            name: SpecialTrackListName::Root,
            date_created,
            children,
        }))
    } else {
        proof {
            assert forall|l: TrackList| !list_doc_matches(*d, l) by {
                if list_doc_matches(*d, l) {
                    match l {
                        TrackList::Playlist(_) => {
                            assert(es@[0].1->Str_0@ == "playlist"@);
                            assert(tag@ == "playlist"@);
                        },
                        TrackList::Folder(_) => {
                            assert(es@[0].1->Str_0@ == "folder"@);
                            assert(tag@ == "folder"@);
                        },
                        TrackList::Special(_) => {
                            assert(es@[0].1->Str_0@ == "special"@);
                            assert(tag@ == "special"@);
                        },
                    }
                }
            }
        }
        None
    }
}

// -- the whole library -----------------------------------------------------

/// One listening span, as a three-element array.
pub open spec fn play_time_matches(d: DocValue, p: PlayTime) -> bool {
    d matches DocValue::Arr(items) && items@.len() == 3
        && (items@[0] matches DocValue::Str(s) && s == p.id)
        && (items@[1] matches DocValue::Int(x) && x == p.start)
        && (items@[2] matches DocValue::Int(x) && x == p.duration)
}

/// The document form of the whole aggregate: the version tag, the play
/// history, the catalog and the tree, with every map key carried once.
pub open spec fn library_doc_matches(d: DocValue, lib: Library) -> bool {
    &&& d matches DocValue::Obj(es)
    &&& es@.len() == 4
    &&& fld_int(es@[0], "version"@, 1)
    &&& lib.version == Version::V1
    &&& es@[1].0@ == "playTime"@
    &&& (es@[1].1 matches DocValue::Arr(items) && items@.len() == lib.play_time@.len()
        && forall|i: int|
        0 <= i < lib.play_time@.len() ==> play_time_matches(
            #[trigger] items@[i],
            lib.play_time@[i],
        ))
    &&& es@[2].0@ == "tracks"@
    &&& (es@[2].1 matches DocValue::Obj(tes) && tes@.len() == lib.tracks.entries@.len()
        && forall|i: int|
        0 <= i < lib.tracks.entries@.len() ==> (#[trigger] tes@[i]).0
            == lib.tracks.entries@[i].0 && track_doc_matches(
            tes@[i].1,
            lib.tracks.entries@[i].1,
        ))
    &&& es@[3].0@ == "trackLists"@
    &&& (es@[3].1 matches DocValue::Obj(les) && les@.len() == lib.track_lists.entries@.len()
        && forall|i: int|
        0 <= i < lib.track_lists.entries@.len() ==> (#[trigger] les@[i]).0
            == lib.track_lists.entries@[i].0 && list_doc_matches(
            les@[i].1,
            lib.track_lists.entries@[i].1,
        ))
    &&& lib.tracks.wf()
    &&& lib.track_lists.wf()
}

/// Structural equality of two library aggregates: same version, same play
/// history, and the two maps equal entry by entry.
pub open spec fn library_struct_eq(a: Library, b: Library) -> bool {
    &&& a.version == b.version
    &&& a.play_time@ == b.play_time@
    &&& a.tracks.entries@.len() == b.tracks.entries@.len()
    &&& forall|i: int|
        0 <= i < a.tracks.entries@.len() ==> (#[trigger] a.tracks.entries@[i]).0
            == b.tracks.entries@[i].0 && track_struct_eq(
            a.tracks.entries@[i].1,
            b.tracks.entries@[i].1,
        )
    &&& a.track_lists.entries@.len() == b.track_lists.entries@.len()
    &&& forall|i: int|
        0 <= i < a.track_lists.entries@.len() ==> (#[trigger] a.track_lists.entries@[i]).0
            == b.track_lists.entries@[i].0 && list_struct_eq(
            a.track_lists.entries@[i].1,
            b.track_lists.entries@[i].1,
        )
}

/// The round-trip law: a library document determines the library, so
/// whatever was built from an aggregate parses back structurally equal.
pub proof fn lemma_library_doc_roundtrip(d: DocValue, l1: Library, l2: Library)
    requires
        library_doc_matches(d, l1),
        library_doc_matches(d, l2),
    ensures
        library_struct_eq(l1, l2),
{
    let es = d->Obj_0;
    let items = es@[1].1->Arr_0;
    assert forall|i: int|
        0 <= i < l1.play_time@.len() implies l1.play_time@[i] == l2.play_time@[i] by {
        assert(play_time_matches(items@[i], l1.play_time@[i]));
        assert(play_time_matches(items@[i], l2.play_time@[i]));
    }
    assert(l1.play_time@ =~= l2.play_time@);
    let tes = es@[2].1->Obj_0;
    assert forall|i: int|
        0 <= i < l1.tracks.entries@.len() implies (#[trigger] l1.tracks.entries@[i]).0
        == l2.tracks.entries@[i].0 && track_struct_eq(
        l1.tracks.entries@[i].1,
        l2.tracks.entries@[i].1,
    ) by {
        assert(track_doc_matches(tes@[i].1, l1.tracks.entries@[i].1));
        assert(track_doc_matches(tes@[i].1, l2.tracks.entries@[i].1));
        lemma_track_doc_functional(
            tes@[i].1,
            l1.tracks.entries@[i].1,
            l2.tracks.entries@[i].1,
        );
    }
    let les = es@[3].1->Obj_0;
    assert forall|i: int|
        0 <= i < l1.track_lists.entries@.len() implies (
    #[trigger] l1.track_lists.entries@[i]).0 == l2.track_lists.entries@[i].0
        && list_struct_eq(l1.track_lists.entries@[i].1, l2.track_lists.entries@[i].1) by {
        assert(list_doc_matches(les@[i].1, l1.track_lists.entries@[i].1));
        assert(list_doc_matches(les@[i].1, l2.track_lists.entries@[i].1));
        lemma_list_doc_functional(
            les@[i].1,
            l1.track_lists.entries@[i].1,
            l2.track_lists.entries@[i].1,
        );
    }
}

/// Every track of the catalog carries well-formed binary64 fields.
pub open spec fn library_nums_ok(lib: Library) -> bool {
    forall|i: int|
        0 <= i < lib.tracks.entries@.len() ==> track_nums_ok(
            (#[trigger] lib.tracks.entries@[i]).1,
        )
}

/// Builds the versioned document the library is persisted as.
pub fn build_library_doc(lib: &Library) -> (r: DocValue)
    requires
        lib.tracks.wf(),
        lib.track_lists.wf(),
        library_nums_ok(*lib),
    ensures
        library_doc_matches(r, *lib),
        lib.version == Version::V1,
{
    let mut es: Vec<(String, DocValue)> = Vec::new();
    es.push((String::from_str("version"), DocValue::Int(1)));
    let mut items: Vec<DocValue> = Vec::new();
    let n0 = lib.play_time.len();
    let mut i: usize = 0;
    while i < n0
        invariant
            n0 == lib.play_time@.len(),
            i <= n0,
            items@.len() == i,
            forall|j: int|
                0 <= j < i ==> play_time_matches(#[trigger] items@[j], lib.play_time@[j]),
        decreases n0 - i,
    {
        let p = &lib.play_time[i];
        let mut triple: Vec<DocValue> = Vec::new();
        triple.push(DocValue::Str(p.id.clone()));
        triple.push(DocValue::Int(p.start));
        triple.push(DocValue::Int(p.duration));
        items.push(DocValue::Arr(triple));
        i = i + 1;
    }
    es.push((String::from_str("playTime"), DocValue::Arr(items)));
    let mut tes: Vec<(String, DocValue)> = Vec::new();
    let n1 = lib.tracks.len();
    let mut k: usize = 0;
    while k < n1
        invariant
            n1 == lib.tracks.entries@.len(),
            k <= n1,
            tes@.len() == k,
            library_nums_ok(*lib),
            forall|j: int|
                0 <= j < k ==> (#[trigger] tes@[j]).0 == lib.tracks.entries@[j].0
                    && track_doc_matches(tes@[j].1, lib.tracks.entries@[j].1),
        decreases n1 - k,
    {
        let key = lib.tracks.key_at(k).clone();
        let td = build_track_doc(lib.tracks.value_at(k));
        tes.push((key, td));
        k = k + 1;
    }
    es.push((String::from_str("tracks"), DocValue::Obj(tes)));
    let mut les: Vec<(String, DocValue)> = Vec::new();
    let n2 = lib.track_lists.len();
    let mut m: usize = 0;
    while m < n2
        invariant
            n2 == lib.track_lists.entries@.len(),
            m <= n2,
            les@.len() == m,
            forall|j: int|
                0 <= j < m ==> (#[trigger] les@[j]).0 == lib.track_lists.entries@[j].0
                    && list_doc_matches(les@[j].1, lib.track_lists.entries@[j].1),
        decreases n2 - m,
    {
        let key = lib.track_lists.key_at(m).clone();
        let ld = build_list_doc(lib.track_lists.value_at(m));
        les.push((key, ld));
        m = m + 1;
    }
    es.push((String::from_str("trackLists"), DocValue::Obj(les)));
    DocValue::Obj(es)
}

/// Reads a library back out of its persisted document.
///
/// The result is `Some` exactly when the document is version-tagged and
/// shaped as `build_library_doc` writes it, with each map key unique;
/// anything else is a startup-fatal parse failure for the caller.
pub fn parse_library_doc(d: &DocValue) -> (r: Option<Library>)
    ensures
        match r {
            Some(lib) => library_doc_matches(*d, lib),
            None => forall|lib: Library| !library_doc_matches(*d, lib),
        },
{
    let es: &Vec<(String, DocValue)> = match d {
        DocValue::Obj(es) => es,
        _ => {
            return None;
        },
    };
    if es.len() != 4 {
        return None;
    }
    match get_int(&es[0], "version") {
        Some(v) => {
            if v != 1 {
                return None;
            }
        },
        None => {
            proof {
                assert forall|lib: Library| !library_doc_matches(*d, lib) by {
                    if library_doc_matches(*d, lib) {
                        assert(fld_int(es@[0], "version"@, 1));
                    }
                }
            }
            return None;
        },
    }
    if !str_eq(es[1].0.as_str(), "playTime") {
        return None;
    }
    let pt_items: &Vec<DocValue> = match &es[1].1 {
        DocValue::Arr(items) => items,
        _ => {
            return None;
        },
    };
    let mut play_time: Vec<PlayTime> = Vec::new();
    let n0 = pt_items.len();
    let mut i: usize = 0;
    while i < n0
        invariant
            n0 == pt_items@.len(),
            i <= n0,
            play_time@.len() == i,
            (*d) matches DocValue::Obj(w0) && w0@ == es@,
            es@.len() == 4,
            es@[1].1 matches DocValue::Arr(w) && w@ == pt_items@,
            forall|j: int|
                0 <= j < i ==> play_time_matches(#[trigger] pt_items@[j], play_time@[j]),
        decreases n0 - i,
    {
        match &pt_items[i] {
            DocValue::Arr(triple) => {
                if triple.len() != 3 {
                    proof {
                        lemma_bad_play_time(*d, i as int);
                    }
                    return None;
                }
                let id = match &triple[0] {
                    DocValue::Str(s) => s.clone(),
                    _ => {
                        proof {
                            lemma_bad_play_time(*d, i as int);
                        }
                        return None;
                    },
                };
                let start = match &triple[1] {
                    DocValue::Int(x) => *x,
                    _ => {
                        proof {
                            lemma_bad_play_time(*d, i as int);
                        }
                        return None;
                    },
                };
                let duration = match &triple[2] {
                    DocValue::Int(x) => *x,
                    _ => {
                        proof {
                            lemma_bad_play_time(*d, i as int);
                        }
                        return None;
                    },
                };
                play_time.push(PlayTime { id, start, duration });
            },
            _ => {
                proof {
                    lemma_bad_play_time(*d, i as int);
                }
                return None;
            },
        }
        i = i + 1;
    }
    if !str_eq(es[2].0.as_str(), "tracks") {
        return None;
    }
    let tes: &Vec<(String, DocValue)> = match &es[2].1 {
        DocValue::Obj(tes) => tes,
        _ => {
            return None;
        },
    };
    let mut tracks: crate::omap::OMap<Track> = crate::omap::OMap::new();
    let n1 = tes.len();
    let mut k: usize = 0;
    while k < n1
        invariant
            n1 == tes@.len(),
            k <= n1,
            tracks.entries@.len() == k,
            tracks.wf(),
            (*d) matches DocValue::Obj(w0) && w0@ == es@,
            es@.len() == 4,
            es@[2].1 matches DocValue::Obj(w) && w@ == tes@,
            forall|j: int|
                0 <= j < k ==> (#[trigger] tracks.entries@[j]).0 == tes@[j].0
                    && track_doc_matches(tes@[j].1, tracks.entries@[j].1),
        decreases n1 - k,
    {
        let key = tes[k].0.clone();
        if tracks.contains(&key) {
            proof {
                lemma_dup_key_tracks(*d, tracks.entries@, k as int);
            }
            return None;
        }
        let t = match parse_track_doc(&tes[k].1) {
            Some(t) => t,
            None => {
                proof {
                    assert forall|lib: Library| !library_doc_matches(*d, lib) by {
                        if library_doc_matches(*d, lib) {
                            assert(track_doc_matches(
                                tes@[k as int].1,
                                lib.tracks.entries@[k as int].1,
                            ));
                        }
                    }
                }
                return None;
            },
        };
        tracks.insert_new(key, t);
        k = k + 1;
    }
    if !str_eq(es[3].0.as_str(), "trackLists") {
        return None;
    }
    let les: &Vec<(String, DocValue)> = match &es[3].1 {
        DocValue::Obj(les) => les,
        _ => {
            return None;
        },
    };
    let mut track_lists: crate::omap::OMap<TrackList> = crate::omap::OMap::new();
    let n2 = les.len();
    let mut m: usize = 0;
    while m < n2
        invariant
            n2 == les@.len(),
            m <= n2,
            track_lists.entries@.len() == m,
            track_lists.wf(),
            (*d) matches DocValue::Obj(w0) && w0@ == es@,
            es@.len() == 4,
            es@[3].1 matches DocValue::Obj(w) && w@ == les@,
            forall|j: int|
                0 <= j < m ==> (#[trigger] track_lists.entries@[j]).0 == les@[j].0
                    && list_doc_matches(les@[j].1, track_lists.entries@[j].1),
        decreases n2 - m,
    {
        let key = les[m].0.clone();
        if track_lists.contains(&key) {
            proof {
                lemma_dup_key_lists(*d, track_lists.entries@, m as int);
            }
            return None;
        }
        let l = match parse_list_doc(&les[m].1) {
            Some(l) => l,
            None => {
                proof {
                    assert forall|lib: Library| !library_doc_matches(*d, lib) by {
                        if library_doc_matches(*d, lib) {
                            assert(list_doc_matches(
                                les@[m as int].1,
                                lib.track_lists.entries@[m as int].1,
                            ));
                        }
                    }
                }
                return None;
            },
        };
        track_lists.insert_new(key, l);
        m = m + 1;
    }
    Some(Library { version: Version::V1, play_time, tracks, track_lists })
}

/// A malformed play-time entry rules out every library.
proof fn lemma_bad_play_time(d: DocValue, i: int)
    requires
        d matches DocValue::Obj(es) && es@.len() == 4 && (es@[1].1 matches DocValue::Arr(
            items,
        ) && 0 <= i < items@.len() && forall|p: PlayTime|
            !play_time_matches(#[trigger] items@[i], p)),
    ensures
        forall|lib: Library| !library_doc_matches(d, lib),
{
    assert forall|lib: Library| !library_doc_matches(d, lib) by {
        if library_doc_matches(d, lib) {
            let items = d->Obj_0@[1].1->Arr_0;
            assert(play_time_matches(items@[i], lib.play_time@[i]));
        }
    }
}

/// A repeated catalog key rules out every library: a matching library's
/// catalog would carry duplicate keys and could not be well-formed.
proof fn lemma_dup_key_tracks(d: DocValue, parsed: Seq<(String, Track)>, k: int)
    requires
        d matches DocValue::Obj(es) && es@.len() == 4 && (es@[2].1 matches DocValue::Obj(tes)
            && 0 <= k < tes@.len() && parsed.len() == k && (forall|j: int|
            0 <= j < k ==> (#[trigger] parsed[j]).0 == tes@[j].0)
            && crate::omap::entry_keys(parsed).contains(tes@[k].0@)),
    ensures
        forall|lib: Library| !library_doc_matches(d, lib),
{
    assert forall|lib: Library| !library_doc_matches(d, lib) by {
        if library_doc_matches(d, lib) {
            let tes = d->Obj_0@[2].1->Obj_0;
            let j = choose|j: int|
                0 <= j < crate::omap::entry_keys(parsed).len() && crate::omap::entry_keys(
                    parsed,
                )[j] == tes@[k].0@;
            assert(parsed[j].0@ == tes@[k].0@);
            assert(lib.tracks.entries@[j].0 == tes@[j].0);
            assert(lib.tracks.entries@[k].0 == tes@[k].0);
            assert(lib.tracks.keys()[j] == lib.tracks.keys()[k]);
            assert(!lib.tracks.keys().no_duplicates());
        }
    }
}

/// A repeated tree key rules out every library, for the same reason.
proof fn lemma_dup_key_lists(d: DocValue, parsed: Seq<(String, TrackList)>, k: int)
    requires
        d matches DocValue::Obj(es) && es@.len() == 4 && (es@[3].1 matches DocValue::Obj(les)
            && 0 <= k < les@.len() && parsed.len() == k && (forall|j: int|
            0 <= j < k ==> (#[trigger] parsed[j]).0 == les@[j].0)
            && crate::omap::entry_keys(parsed).contains(les@[k].0@)),
    ensures
        forall|lib: Library| !library_doc_matches(d, lib),
{
    assert forall|lib: Library| !library_doc_matches(d, lib) by {
        if library_doc_matches(d, lib) {
            let les = d->Obj_0@[3].1->Obj_0;
            let j = choose|j: int|
                0 <= j < crate::omap::entry_keys(parsed).len() && crate::omap::entry_keys(
                    parsed,
                )[j] == les@[k].0@;
            assert(parsed[j].0@ == les@[k].0@);
            assert(lib.track_lists.entries@[j].0 == les@[j].0);
            assert(lib.track_lists.entries@[k].0 == les@[k].0);
            assert(lib.track_lists.keys()[j] == lib.track_lists.keys()[k]);
            assert(!lib.track_lists.keys().no_duplicates());
        }
    }
}

} // verus!
