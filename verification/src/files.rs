//! Candidate files and directory listings as plain values.
//!
//! The scanner outside this crate lists a directory and hands over one
//! [`DirEntry`] per entry: the path and whether it is a regular file. The
//! functions here decide, path by path, which entries are timelapse
//! candidates — regular files whose name spells a valid capture timestamp —
//! and which files carry a wanted extension.

use vstd::prelude::*;

use crate::error::TimelapsifyError;
use crate::filename::{
    matches_day_pattern, matches_pattern, parse_day, parse_timestamp, pattern_day,
    pattern_timestamp,
};
use crate::seqs::{lemma_filter_push, lemma_map_push, lemma_take_push};
use crate::timestamp::Timestamp;

verus! {

/// A directory entry as the scanner reports it: the full path and whether
/// the entry is a regular file.
#[derive(Clone, Debug)]
pub struct DirEntry {
    pub path: String,
    pub is_file: bool,
}

/// A file path together with the capture timestamp its name spells.
#[derive(Debug)]
pub struct TimestampedFile {
    pub file: String,
    pub timestamp: Timestamp,
}

impl Clone for TimestampedFile {
    fn clone(&self) -> (r: Self)
        ensures
            r == *self,
    {
        TimestampedFile { file: self.file.clone(), timestamp: self.timestamp }
    }
}

/// The part of a path after its last `/`; the whole path if it has none.
pub open spec fn spec_file_name(p: Seq<char>) -> Seq<char>
    decreases p.len(),
{
    if p.len() == 0 {
        p
    } else {
        if p.last() == '/' {
            Seq::empty()
        } else {
            spec_file_name(p.drop_last()).push(p.last())
        }
    }
}

/// A path with its trailing slashes removed.
pub open spec fn spec_trim_slashes(p: Seq<char>) -> Seq<char>
    decreases p.len(),
{
    if p.len() > 0 && p.last() == '/' {
        spec_trim_slashes(p.drop_last())
    } else {
        p
    }
}

/// The last non-empty component of a path: its file name with trailing
/// slashes ignored, as the platform's path inspection reads it. Empty only
/// for an empty path or one of slashes alone.
pub open spec fn spec_last_component(p: Seq<char>) -> Seq<char> {
    spec_file_name(spec_trim_slashes(p))
}

/// The part of a name after its last `.`, if any. A dot as the very first
/// character starts a hidden name, not an extension.
pub open spec fn spec_extension(s: Seq<char>) -> Option<Seq<char>>
    decreases s.len(),
{
    if s.len() == 0 {
        None
    } else if s.last() == '.' {
        if s.len() > 1 {
            Some(Seq::empty())
        } else {
            None
        }
    } else {
        match spec_extension(s.drop_last()) {
            Some(e) => Some(e.push(s.last())),
            None => None,
        }
    }
}

/// Code point of a character with ASCII upper case folded to lower case.
pub open spec fn lower_code(c: char) -> int {
    if 65 <= c as u32 <= 90 {
        c as u32 + 32
    } else {
        c as int
    }
}

/// The file's extension, ASCII case folded to lower case, equals the
/// wanted extension exactly as given: only the file's side is folded.
pub open spec fn ext_matches(file_ext: Seq<char>, wanted: Seq<char>) -> bool {
    file_ext.len() == wanted.len() && forall|i: int|
        0 <= i < file_ext.len() ==> lower_code(file_ext[i]) == wanted[i] as u32
}

/// The path names a regular-file candidate: its file name has the timestamp
/// shape and every field is in range.
pub open spec fn spec_parses(p: Seq<char>) -> bool {
    matches_pattern(spec_last_component(p)) && pattern_timestamp(spec_last_component(p)).valid()
}

/// The entry the scanner keeps: a regular file whose name parses.
pub open spec fn spec_is_candidate(e: DirEntry) -> bool {
    e.is_file && spec_parses(e.path@)
}

/// The candidate built from a kept entry.
pub open spec fn spec_candidate_file(e: DirEntry) -> TimestampedFile {
    TimestampedFile { file: e.path, timestamp: pattern_timestamp(spec_last_component(e.path@)) }
}

/// The path names a produced day clip: its file name has the day-clip
/// shape and spells a real calendar day.
pub open spec fn spec_parses_day(p: Seq<char>) -> bool {
    matches_day_pattern(spec_last_component(p)) && pattern_day(spec_last_component(p)).valid()
}

/// The listed clip built from a kept path: the path and its day at midnight.
pub open spec fn spec_video_file(p: String) -> TimestampedFile {
    TimestampedFile { file: p, timestamp: pattern_day(spec_last_component(p@)) }
}

/// The entry kept by an extension scan: a regular file whose name carries
/// one of the wanted extensions — its own extension lowercased, the wanted
/// ones taken as given.
pub open spec fn spec_wanted(e: DirEntry, exts: Seq<String>) -> bool {
    &&& e.is_file
    &&& match spec_extension(spec_last_component(e.path@)) {
        Some(x) => exists|j: int| 0 <= j < exts.len() && ext_matches(x, exts[j]@),
        None => false,
    }
}

/// The part of a path after its last `/`, executable form.
pub fn file_name_of(p: &str) -> (r: String)
    ensures
        r@ == spec_file_name(p@),
{
    let n = p.unicode_len();
    let mut start: usize = 0;
    let mut i: usize = 0;
    while i < n
        invariant
            start <= i <= n,
            n == p@.len(),
            spec_file_name(p@.subrange(0, i as int)) == p@.subrange(start as int, i as int),
        decreases n - i,
    {
        proof {
            let s0 = p@.subrange(0, i as int);
            let s1 = p@.subrange(0, i + 1);
            assert(s1 =~= s0.push(p@[i as int]));
            assert(s1.drop_last() =~= s0);
            if p@[i as int] == '/' {
                assert(spec_file_name(s1) =~= p@.subrange(i + 1, i + 1));
            } else {
                assert(spec_file_name(s1) =~= p@.subrange(start as int, i + 1));
            }
        }
        if p.get_char(i) == '/' {
            start = i + 1;
        }
        i = i + 1;
    }
    proof {
        assert(p@.subrange(0, n as int) =~= p@);
    }
    String::from_str(p.substring_char(start, n))
}

/// The last non-empty component of a path, executable form.
pub fn last_component_of(p: &str) -> (r: String)
    ensures
        r@ == spec_last_component(p@),
{
    let n = p.unicode_len();
    let mut end: usize = n;
    proof {
        assert(p@.subrange(0, n as int) =~= p@);
    }
    while end > 0 && p.get_char(end - 1) == '/'
        invariant
            end <= n,
            n == p@.len(),
            spec_trim_slashes(p@) == spec_trim_slashes(p@.subrange(0, end as int)),
        decreases end,
    {
        proof {
            let s = p@.subrange(0, end as int);
            assert(s.last() == p@[end - 1]);
            assert(s.drop_last() =~= p@.subrange(0, end - 1));
        }
        end = end - 1;
    }
    proof {
        let s = p@.subrange(0, end as int);
        if end == 0 {
            assert(s =~= Seq::<char>::empty());
        } else {
            assert(s.last() == p@[end - 1]);
        }
        assert(spec_trim_slashes(p@) == s);
    }
    file_name_of(p.substring_char(0, end))
}

/// The extension of a file name, executable form.
pub fn extension_of(name: &str) -> (r: Option<String>)
    ensures
        match r {
            Some(e) => spec_extension(name@) == Some(e@),
            None => spec_extension(name@) is None,
        },
{
    let n = name.unicode_len();
    let mut dot: usize = 0;
    let mut found: bool = false;
    let mut i: usize = 0;
    while i < n
        invariant
            i <= n,
            n == name@.len(),
            found ==> dot < i,
            spec_extension(name@.subrange(0, i as int)) == if found {
                Some(name@.subrange(dot + 1, i as int))
            } else {
                Option::<Seq<char>>::None
            },
        decreases n - i,
    {
        proof {
            let s0 = name@.subrange(0, i as int);
            let s1 = name@.subrange(0, i + 1);
            assert(s1 =~= s0.push(name@[i as int]));
            assert(s1.drop_last() =~= s0);
            if name@[i as int] == '.' {
                if i > 0 {
                    assert(spec_extension(s1) == Some(name@.subrange(i + 1, i + 1))) by {
                        assert(name@.subrange(i + 1, i + 1) =~= Seq::<char>::empty());
                    }
                }
            } else {
                if found {
                    assert(name@.subrange(dot + 1, i as int).push(name@[i as int]) =~= name@
                        .subrange(dot + 1, i + 1));
                }
            }
        }
        if name.get_char(i) == '.' {
            if i > 0 {
                dot = i;
                found = true;
            }
        }
        i = i + 1;
    }
    proof {
        assert(name@.subrange(0, n as int) =~= name@);
    }
    if found {
        Some(String::from_str(name.substring_char(dot + 1, n)))
    } else {
        None
    }
}

/// Case-folded code point of a character, executable form.
fn lower_code_of(c: char) -> (u: u32)
    ensures
        u == lower_code(c),
{
    let v = c as u32;
    if 65 <= v && v <= 90 {
        v + 32
    } else {
        v
    }
}

/// Whether the first name, ASCII-lowercased, equals the second as given,
/// executable form.
pub fn ext_matches_exec(file_ext: &str, wanted: &str) -> (r: bool)
    ensures
        r == ext_matches(file_ext@, wanted@),
{
    let n = file_ext.unicode_len();
    if n != wanted.unicode_len() {
        return false;
    }
    let mut i: usize = 0;
    while i < n
        invariant
            i <= n,
            n == file_ext@.len(),
            n == wanted@.len(),
            forall|k: int| 0 <= k < i ==> lower_code(file_ext@[k]) == wanted@[k] as u32,
        decreases n - i,
    {
        if lower_code_of(file_ext.get_char(i)) != wanted.get_char(i) as u32 {
            return false;
        }
        i = i + 1;
    }
    true
}

impl TimestampedFile {
    /// Split the last non-empty path component out of the path — trailing
    /// slashes ignored, as the platform reads file names — and parse it as
    /// a capture timestamp. Succeeds exactly when the path names a
    /// candidate; each failure kind names what was wrong.
    pub fn try_from(file: String) -> (r: Result<TimestampedFile, TimelapsifyError>)
        ensures
            match r {
                Ok(tf) => {
                    &&& spec_parses(file@)
                    &&& tf.file == file
                    &&& tf.timestamp == pattern_timestamp(spec_last_component(file@))
                    &&& tf.timestamp.valid()
                },
                Err(TimelapsifyError::FileHuh { msg, rugrat }) => spec_last_component(
                    file@,
                ).len() == 0 && rugrat@ == file@,
                Err(TimelapsifyError::RegexNoMatch) => spec_last_component(file@).len() > 0
                    && !matches_pattern(spec_last_component(file@)),
                Err(TimelapsifyError::ParseOhNo(_)) => matches_pattern(spec_last_component(file@))
                    && !pattern_timestamp(spec_last_component(file@)).valid(),
                Err(_) => false,
            },
            r is Ok <==> spec_parses(file@),
    {
        let name = last_component_of(file.as_str());
        if name.unicode_len() == 0 {
            return Err(TimelapsifyError::file_option_issue(file.as_str()));
        }
        match parse_timestamp(name.as_str()) {
            Ok(ts) => Ok(TimestampedFile { file, timestamp: ts }),
            Err(e) => Err(e),
        }
    }
}

/// Keep the regular files whose names parse as capture timestamps, in
/// listing order, each paired with its timestamp. This is the only door
/// into the pipeline: every other entry is excluded.
pub fn candidates(entries: Vec<DirEntry>) -> (r: Vec<TimestampedFile>)
    ensures
        r@ == entries@.filter(|e: DirEntry| spec_is_candidate(e)).map_values(
            |e: DirEntry| spec_candidate_file(e),
        ),
{
    let mut r: Vec<TimestampedFile> = Vec::new();
    let mut i: usize = 0;
    proof {
        assert(entries@.take(0) =~= Seq::<DirEntry>::empty());
        reveal(Seq::filter);
    }
    while i < entries.len()
        invariant
            i <= entries@.len(),
            r@ == entries@.take(i as int).filter(|e: DirEntry| spec_is_candidate(e)).map_values(
                |e: DirEntry| spec_candidate_file(e),
            ),
        decreases entries@.len() - i,
    {
        proof {
            lemma_take_push(entries@, i as int);
            lemma_filter_push(
                entries@.take(i as int),
                |e: DirEntry| spec_is_candidate(e),
                entries@[i as int],
            );
            if spec_is_candidate(entries@[i as int]) {
                lemma_map_push(
                    entries@.take(i as int).filter(|e: DirEntry| spec_is_candidate(e)),
                    |e: DirEntry| spec_candidate_file(e),
                    entries@[i as int],
                );
            }
        }
        let e = &entries[i];
        if e.is_file {
            match TimestampedFile::try_from(e.path.clone()) {
                Ok(tf) => {
                    proof {
                        assert(tf == spec_candidate_file(entries@[i as int]));
                    }
                    r.push(tf);
                },
                Err(_) => {},
            }
        }
        i = i + 1;
    }
    proof {
        assert(entries@.take(entries@.len() as int) =~= entries@);
    }
    r
}

/// Keep the paths whose names carry a day-named clip, in order, each
/// paired with that day at midnight: the video-listing helper that turns
/// the output folder back into the published clip list.
pub fn listed_videos(paths: Vec<String>) -> (r: Vec<TimestampedFile>)
    ensures
        r@ == paths@.filter(|p: String| spec_parses_day(p@)).map_values(
            |p: String| spec_video_file(p),
        ),
{
    let mut r: Vec<TimestampedFile> = Vec::new();
    let mut i: usize = 0;
    proof {
        assert(paths@.take(0) =~= Seq::<String>::empty());
        reveal(Seq::filter);
    }
    while i < paths.len()
        invariant
            i <= paths@.len(),
            r@ == paths@.take(i as int).filter(|p: String| spec_parses_day(p@)).map_values(
                |p: String| spec_video_file(p),
            ),
        decreases paths@.len() - i,
    {
        proof {
            lemma_take_push(paths@, i as int);
            lemma_filter_push(
                paths@.take(i as int),
                |p: String| spec_parses_day(p@),
                paths@[i as int],
            );
            if spec_parses_day(paths@[i as int]@) {
                lemma_map_push(
                    paths@.take(i as int).filter(|p: String| spec_parses_day(p@)),
                    |p: String| spec_video_file(p),
                    paths@[i as int],
                );
            }
        }
        let name = last_component_of(paths[i].as_str());
        match parse_day(name.as_str()) {
            Ok(day) => {
                let video = TimestampedFile { file: paths[i].clone(), timestamp: day };
                proof {
                    assert(video == spec_video_file(paths@[i as int]));
                }
                r.push(video);
            },
            Err(_) => {},
        }
        i = i + 1;
    }
    proof {
        assert(paths@.take(paths@.len() as int) =~= paths@);
    }
    r
}

/// Keep the regular files that carry one of the wanted extensions, in
/// listing order: each file's extension is ASCII-lowercased before the
/// comparison, the wanted extensions are taken exactly as given.
pub fn files_of_ext_in(entries: Vec<DirEntry>, exts: &Vec<String>) -> (r: Vec<String>)
    ensures
        r@ == entries@.filter(|e: DirEntry| spec_wanted(e, exts@)).map_values(
            |e: DirEntry| e.path,
        ),
{
    let mut r: Vec<String> = Vec::new();
    let mut i: usize = 0;
    proof {
        assert(entries@.take(0) =~= Seq::<DirEntry>::empty());
        reveal(Seq::filter);
    }
    while i < entries.len()
        invariant
            i <= entries@.len(),
            r@ == entries@.take(i as int).filter(|e: DirEntry| spec_wanted(e, exts@)).map_values(
                |e: DirEntry| e.path,
            ),
        decreases entries@.len() - i,
    {
        proof {
            lemma_take_push(entries@, i as int);
            lemma_filter_push(
                entries@.take(i as int),
                |e: DirEntry| spec_wanted(e, exts@),
                entries@[i as int],
            );
            if spec_wanted(entries@[i as int], exts@) {
                lemma_map_push(
                    entries@.take(i as int).filter(|e: DirEntry| spec_wanted(e, exts@)),
                    |e: DirEntry| e.path,
                    entries@[i as int],
                );
            }
        }
        let e = &entries[i];
        if e.is_file {
            let name = last_component_of(e.path.as_str());
            match extension_of(name.as_str()) {
                Some(x) => {
                    let mut j: usize = 0;
                    let mut hit: bool = false;
                    while j < exts.len()
                        invariant
                            j <= exts@.len(),
                            hit ==> exists|k: int|
                                0 <= k < exts@.len() && ext_matches(x@, exts@[k]@),
                            !hit ==> forall|k: int|
                                0 <= k < j ==> !ext_matches(x@, exts@[k]@),
                        decreases exts@.len() - j,
                    {
                        if !hit && ext_matches_exec(x.as_str(), exts[j].as_str()) {
                            hit = true;
                            proof {
                                assert(ext_matches(x@, exts@[j as int]@));
                            }
                        }
                        j = j + 1;
                    }
                    if hit {
                        r.push(e.path.clone());
                    }
                },
                None => {},
            }
        }
        i = i + 1;
    }
    proof {
        assert(entries@.take(entries@.len() as int) =~= entries@);
    }
    r
}

} // verus!
