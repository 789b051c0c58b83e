//! MinerU: settings, the service's limits, and the merge of chunked results.
use vstd::prelude::*;

use crate::text::{chars_of, join_with, trim_string, trim_ws};

verus! {

/// MinerU settings.
#[derive(Debug, Clone)]
pub struct MineruConfig {
    pub token: String,
    pub model_version: String,
    pub is_ocr: bool,
    pub language: Option<String>,
}

/// Largest file MinerU takes (bytes).
pub const MAX_BYTES: u64 = 209715200;

/// Most pages MinerU takes in one file.
pub const MAX_PAGES: u64 = 200;

/// Pages per chunk when a file is split (a margin under the limit).
pub const CHUNK_PAGES: u64 = 190;

/// Whether a file of `size` bytes is refused as too large, and its size in
/// whole MiB for the message.
pub fn size_check(size: u64) -> (r: Option<u64>)
    ensures
        r == (if size > MAX_BYTES { Some((size / 1024 / 1024) as u64) } else { None::<u64> }),
{
    if size > MAX_BYTES {
        Some(size / 1024 / 1024)
    } else {
        None
    }
}

/// Whether a file must be split first: its page count is known and exceeds
/// the limit.
pub fn needs_chunking(pages: Option<u64>) -> (b: bool)
    ensures
        b == (pages matches Some(p) && p > MAX_PAGES),
{
    match pages {
        Some(p) => p > MAX_PAGES,
        None => false,
    }
}

/// The chunks' Markdown trimmed, empty ones dropped.
pub open spec fn merged_parts(parts: Seq<Seq<char>>) -> Seq<Seq<char>>
    decreases parts.len(),
{
    if parts.len() == 0 {
        Seq::<Seq<char>>::empty()
    } else {
        let r = merged_parts(parts.drop_last());
        if trim_ws(parts.last()).len() > 0 {
            r.push(trim_ws(parts.last()))
        } else {
            r
        }
    }
}

/// The Markdown of a chunked file: each chunk's text trimmed, empty ones
/// dropped, joined by a blank line.
pub fn merge_markdown(parts: &Vec<String>) -> (r: String)
    ensures
        r@ == join_with(merged_parts(parts@.map_values(|p: String| p@)), "\n\n"@),
{
    let ghost ps = parts@.map_values(|p: String| p@);
    let mut kept: Vec<Vec<char>> = Vec::new();
    let mut i: usize = 0;
    while i < parts.len()
        invariant
            i <= parts@.len(),
            ps == parts@.map_values(|p: String| p@),
            kept@.map_values(|v: Vec<char>| v@) == merged_parts(ps.take(i as int)),
        decreases parts@.len() - i,
    {
        proof {
            assert(ps.take(i + 1).drop_last() =~= ps.take(i as int));
            assert(ps.take(i + 1).last() == parts@[i as int]@);
        }
        let t = trim_string(parts[i].as_str());
        if !t.as_str().is_empty() {
            let ghost before = kept@;
            let cs = chars_of(t.as_str());
            kept.push(cs);
            proof {
                assert(kept@.map_values(|v: Vec<char>| v@) =~= before.map_values(|v: Vec<char>| v@).push(t@));
            }
        }
        i += 1;
    }
    proof {
        assert(ps.take(parts@.len() as int) =~= ps);
    }
    let sep = chars_of("\n\n");
    let joined = crate::text::join_vecs(&kept, &sep);
    crate::text::string_from_chars(joined.as_slice())
}

/// What a poll of a MinerU job found.
#[derive(Debug, Clone, Copy, PartialEq, Eq, Structural)]
pub enum JobState {
    Done,
    Failed,
    Running,
}

/// The job's state from the reported state name (`pending` when absent):
/// `done`, `failed`, anything else still running.
pub fn job_state(state: Option<&str>) -> (r: JobState)
    ensures
        r == (match state {
            Some(s) => if s@ == "done"@ {
                JobState::Done
            } else if s@ == "failed"@ {
                JobState::Failed
            } else {
                JobState::Running
            },
            None => JobState::Running,
        }),
{
    match state {
        Some(s) => {
            let cs = chars_of(s);
            if crate::text::text_is(&cs, "done") {
                JobState::Done
            } else if crate::text::text_is(&cs, "failed") {
                JobState::Failed
            } else {
                JobState::Running
            }
        },
        None => JobState::Running,
    }
}

} // verus!
