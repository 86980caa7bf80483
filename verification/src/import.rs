//! The compute side of track import: judging a file's kind from its
//! extension, deriving a fallback title from the file stem, resolving the
//! recorded year from the tag fields, summing frame sizes, and generating
//! a collision-free destination filename. Reading the audio files and
//! their tags is the host's job; these functions work on the plain values
//! it extracts.

use vstd::prelude::*;

use crate::error::LibError;
use crate::strutil::{ids_view, str_eq, vec_contains_str};

verus! {

/// Index of the last occurrence of `c`, or -1.
pub open spec fn last_index_of(s: Seq<char>, c: char) -> int
    decreases s.len(),
{
    if s.len() == 0 {
        -1
    } else if s.last() == c {
        s.len() - 1
    } else {
        last_index_of(s.drop_last(), c)
    }
}

proof fn lemma_last_index_of(s: Seq<char>, c: char)
    ensures
        -1 <= last_index_of(s, c) < s.len(),
        last_index_of(s, c) >= 0 ==> s[last_index_of(s, c)] == c,
        forall|j: int| last_index_of(s, c) < j < s.len() ==> s[j] != c,
    decreases s.len(),
{
    if s.len() > 0 && s.last() != c {
        lemma_last_index_of(s.drop_last(), c);
        assert(forall|j: int| 0 <= j < s.len() - 1 ==> s[j] == s.drop_last()[j]);
    }
}

fn find_last(s: &str, c: char) -> (r: Option<usize>)
    ensures
        match r {
            Some(i) => i as int == last_index_of(s@, c),
            None => last_index_of(s@, c) == -1,
        },
{
    proof {
        lemma_last_index_of(s@, c);
    }
    let n = s.unicode_len();
    let mut i: usize = n;
    while i > 0
        invariant
            n == s@.len(),
            i <= n,
            forall|j: int| i <= j < n ==> s@[j] != c,
        decreases i,
    {
        i = i - 1;
        if s.get_char(i) == c {
            proof {
                if last_index_of(s@, c) != i as int {
                    lemma_last_index_of(s@, c);
                }
            }
            return Some(i);
        }
    }
    None
}

/// The extension of a path: what follows the last `.` of the final
/// component, provided that `.` is not the component's first character.
pub open spec fn spec_extension(p: Seq<char>) -> Seq<char> {
    let sep = last_index_of(p, '/');
    let dot = last_index_of(p, '.');
    if dot > sep + 1 {
        p.subrange(dot + 1, p.len() as int)
    } else {
        Seq::empty()
    }
}

/// The stem of a path: the final component without its extension.
pub open spec fn spec_file_stem(p: Seq<char>) -> Seq<char> {
    let sep = last_index_of(p, '/');
    let dot = last_index_of(p, '.');
    if dot > sep + 1 {
        p.subrange(sep + 1, dot)
    } else {
        p.subrange(sep + 1, p.len() as int)
    }
}

/// The extension of `path`, empty when it has none.
pub fn extension_of(path: &str) -> (r: String)
    ensures
        r@ == spec_extension(path@),
{
    proof {
        lemma_last_index_of(path@, '/');
        lemma_last_index_of(path@, '.');
    }
    let sep: Option<usize> = find_last(path, '/');
    let dot: Option<usize> = find_last(path, '.');
    let n = path.unicode_len();
    let sep_i: usize = match sep {
        Some(i) => i + 1,
        None => 0,
    };
    match dot {
        Some(d) => {
            if d > sep_i {
                path.substring_char(d + 1, n).to_owned()
            } else {
                proof {
                    assert(spec_extension(path@) =~= Seq::<char>::empty());
                }
                String::new()
            }
        },
        None => {
            proof {
                assert(spec_extension(path@) =~= Seq::<char>::empty());
            }
            String::new()
        },
    }
}

/// The stem of `path`: its final component without the extension.
pub fn file_stem_of(path: &str) -> (r: String)
    ensures
        r@ == spec_file_stem(path@),
{
    proof {
        lemma_last_index_of(path@, '/');
        lemma_last_index_of(path@, '.');
    }
    let sep: Option<usize> = find_last(path, '/');
    let dot: Option<usize> = find_last(path, '.');
    let n = path.unicode_len();
    let start: usize = match sep {
        Some(i) => i + 1,
        None => 0,
    };
    match dot {
        Some(d) => {
            if d > start {
                path.substring_char(start, d).to_owned()
            } else {
                path.substring_char(start, n).to_owned()
            }
        },
        None => path.substring_char(start, n).to_owned(),
    }
}

/// The audio kinds the importer understands.
#[derive(Clone, Copy, PartialEq, Eq, Structural, Debug)]
pub enum FileType {
    Mp3,
    M4a,
    Opus,
}

pub open spec fn spec_file_type_of(p: Seq<char>) -> Option<FileType> {
    let ext = spec_extension(p);
    if ext == "mp3"@ {
        Some(FileType::Mp3)
    } else if ext == "m4a"@ {
        Some(FileType::M4a)
    } else if ext == "opus"@ {
        Some(FileType::Opus)
    } else {
        None
    }
}

impl FileType {
    /// The kind of the file at `path`, judged by its extension.
    pub fn from_path(path: &str) -> (r: Result<FileType, LibError>)
        ensures
            match r {
                Ok(t) => spec_file_type_of(path@) == Some(t),
                Err(e) => e == LibError::UnsupportedFileExtension && spec_file_type_of(
                    path@,
                ) is None,
            },
    {
        let ext = extension_of(path);
        if str_eq(ext.as_str(), "mp3") {
            Ok(FileType::Mp3)
        } else if str_eq(ext.as_str(), "m4a") {
            Ok(FileType::M4a)
        } else if str_eq(ext.as_str(), "opus") {
            Ok(FileType::Opus)
        } else {
            Err(LibError::UnsupportedFileExtension)
        }
    }

    pub open spec fn spec_file_extension(&self) -> Seq<char> {
        match self {
            FileType::Mp3 => "mp3"@,
            FileType::M4a => "m4a"@,
            FileType::Opus => "opus"@,
        }
    }

    pub fn file_extension(&self) -> (r: &'static str)
        ensures
            r@ == self.spec_file_extension(),
    {
        match self {
            FileType::Mp3 => "mp3",
            FileType::M4a => "m4a",
            FileType::Opus => "opus",
        }
    }
}

/// The year recorded for an mp3 track, resolved from three tag fields in
/// order of preference: the recording date, the bare year, the release
/// date. The second component is the year the recording-date frame should
/// be set to when it was missing.
pub fn resolve_year(
    date_recorded_year: Option<i32>,
    year_tag: Option<i32>,
    date_released_year: Option<i32>,
) -> (r: (Option<i64>, Option<i32>))
    ensures
        r == match date_recorded_year {
            Some(y) => (Some(y as i64), None::<i32>),
            None => match year_tag {
                Some(y) => (Some(y as i64), Some(y)),
                None => match date_released_year {
                    Some(y) => (Some(y as i64), Some(y)),
                    None => (None::<i64>, None::<i32>),
                },
            },
        },
{
    match date_recorded_year {
        Some(y) => (Some(y as i64), None),
        None => match year_tag {
            Some(y) => (Some(y as i64), Some(y)),
            None => match date_released_year {
                Some(y) => (Some(y as i64), Some(y)),
                None => (None, None),
            },
        },
    }
}

pub open spec fn spec_sum_sizes(s: Seq<u32>) -> int
    decreases s.len(),
{
    if s.len() == 0 {
        0
    } else {
        spec_sum_sizes(s.drop_last()) + s.last()
    }
}

/// Total size of the audio frames, in bits: the sum of the frame sizes
/// times eight.
pub fn sum_frame_bits(sizes: &Vec<u32>) -> (r: u64)
    requires
        spec_sum_sizes(sizes@) * 8 <= u64::MAX,
    ensures
        r as int == spec_sum_sizes(sizes@) * 8,
{
    let n = sizes.len();
    let mut total: u64 = 0;
    let mut i: usize = 0;
    proof {
        assert(sizes@.subrange(0, 0) =~= Seq::<u32>::empty());
        lemma_sum_prefix_bound(sizes@, 0);
    }
    while i < n
        invariant
            n == sizes@.len(),
            i <= n,
            total as int == spec_sum_sizes(sizes@.subrange(0, i as int)),
            spec_sum_sizes(sizes@.subrange(0, i as int)) <= spec_sum_sizes(sizes@),
            spec_sum_sizes(sizes@) * 8 <= u64::MAX,
        decreases n - i,
    {
        proof {
            assert(sizes@.subrange(0, i + 1 as int).drop_last() =~= sizes@.subrange(
                0,
                i as int,
            ));
            assert(sizes@.subrange(0, i + 1 as int).last() == sizes@[i as int]);
            lemma_sum_prefix_bound(sizes@, i + 1);
        }
        total = total + sizes[i] as u64;
        i = i + 1;
    }
    proof {
        assert(sizes@.subrange(0, n as int) =~= sizes@);
    }
    total * 8
}

proof fn lemma_sum_prefix_bound(s: Seq<u32>, k: int)
    requires
        0 <= k <= s.len(),
    ensures
        spec_sum_sizes(s.subrange(0, k)) <= spec_sum_sizes(s),
    decreases s.len() - k,
{
    if k < s.len() {
        lemma_sum_prefix_bound(s, k + 1);
        assert(s.subrange(0, k + 1).drop_last() =~= s.subrange(0, k));
        assert(s.subrange(0, k + 1).last() == s[k]);
    } else {
        assert(s.subrange(0, k) =~= s);
    }
}

/// A run of `k` underscores.
pub open spec fn underscore_pad(k: int) -> Seq<char> {
    Seq::new(k as nat, |i: int| '_')
}

/// `/` mapped to `_`, so a derived filename stays one path component.
pub open spec fn spec_sanitize_char(c: char) -> char {
    if c == '/' {
        '_'
    } else {
        c
    }
}

/// The stem a managed file is named by: `artist - title`, or just the
/// title when the artist is empty, with separators replaced.
pub open spec fn spec_filename_stem(artist: Seq<char>, title: Seq<char>) -> Seq<char> {
    let joined = if artist.len() == 0 {
        title
    } else {
        artist + " - "@ + title
    };
    joined.map_values(|c: char| spec_sanitize_char(c))
}

fn sanitize(s: &str) -> (r: String)
    ensures
        r@ == s@.map_values(|c: char| spec_sanitize_char(c)),
{
    let n = s.unicode_len();
    let mut out = String::new();
    let mut i: usize = 0;
    while i < n
        invariant
            n == s@.len(),
            i <= n,
            out@ == s@.subrange(0, i as int).map_values(|c: char| spec_sanitize_char(c)),
        decreases n - i,
    {
        if s.get_char(i) == '/' {
            out.append("_");
        } else {
            let piece = s.substring_char(i, i + 1);
            out.append(piece);
        }
        proof {
            reveal_strlit("_");
            assert(out@ =~= s@.subrange(0, i + 1 as int).map_values(
                |c: char| spec_sanitize_char(c),
            ));
        }
        i = i + 1;
    }
    proof {
        assert(s@.subrange(0, n as int) =~= s@);
    }
    out
}

/// A destination filename derived from artist, title and extension that
/// collides with none of the names already taken: underscores are appended
/// to the stem until the name is free.
pub fn generate_filename(taken: &Vec<String>, artist: &str, title: &str, ext: &str) -> (r:
    String)
    ensures
        !ids_view(taken@).contains(r@),
        exists|k: int|
            0 <= k && r@ == spec_filename_stem(artist@, title@) + #[trigger] underscore_pad(k)
                + "."@ + ext@,
{
    let mut stem: String = if artist.is_empty() {
        sanitize(title)
    } else {
        let mut s = sanitize(artist);
        s.append(" - ");
        let t = sanitize(title);
        s.append(t.as_str());
        proof {
            assert((artist@ + " - "@ + title@).map_values(|c: char| spec_sanitize_char(c))
                =~= artist@.map_values(|c: char| spec_sanitize_char(c)) + " - "@.map_values(
                |c: char| spec_sanitize_char(c),
            ) + title@.map_values(|c: char| spec_sanitize_char(c)));
            assert(" - "@.map_values(|c: char| spec_sanitize_char(c)) =~= " - "@) by {
                reveal_strlit(" - ");
                reveal_strlit("/");
            }
        }
        s
    };
    let mut max_len: usize = 0;
    let n = taken.len();
    let mut j: usize = 0;
    while j < n
        invariant
            n == taken@.len(),
            j <= n,
            forall|j2: int| 0 <= j2 < j ==> ids_view(taken@)[j2].len() <= max_len,
        decreases n - j,
    {
        let l = taken[j].as_str().unicode_len();
        if l > max_len {
            max_len = l;
        }
        j = j + 1;
    }
    let mut pad_count: usize = 0;
    let mut name = make_name(&stem, pad_count, ext);
    while vec_contains_str(taken, &name)
        invariant
            forall|j2: int|
                0 <= j2 < taken@.len() ==> ids_view(taken@)[j2].len() <= max_len,
            name@ == spec_filename_stem(artist@, title@) + underscore_pad(pad_count as int)
                + "."@ + ext@,
            stem@ == spec_filename_stem(artist@, title@) + underscore_pad(pad_count as int),
        decreases max_len + 1 - name@.len(),
    {
        proof {
            let ki = choose|k: int|
                0 <= k < ids_view(taken@).len() && ids_view(taken@)[k] == name@;
            assert(ids_view(taken@)[ki].len() <= max_len);
        }
        proof {
            assert(name@.len() >= pad_count + 1) by {
                reveal_strlit(".");
                assert(underscore_pad(pad_count as int).len() == pad_count);
            }
        }
        stem.append("_");
        proof {
            reveal_strlit("_");
            assert(stem@ =~= spec_filename_stem(artist@, title@) + underscore_pad(
                pad_count + 1 as int,
            ));
        }
        pad_count = pad_count + 1;
        name = make_name(&stem, pad_count, ext);
    }
    name
}

fn make_name(stem: &String, pad_count: usize, ext: &str) -> (r: String)
    ensures
        r@ == stem@ + "."@ + ext@,
{
    let mut r = stem.clone();
    r.append(".");
    r.append(ext);
    r
}

} // verus!
