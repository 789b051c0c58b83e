//! The built-in tools' host side: tool names, path resolution against the
//! session's working directory, the read window, the UTF-16 size a write
//! reports, literal replace-all for edits, and line matching for grep.
use vstd::prelude::*;

use crate::paths::{is_absolute, join_of, path_absolute, path_join};
use crate::text::{chars_of, lines, lines_of, lowercase, push_str_chars, string_from_chars, text_is, to_lowercase, trim_string, trim_ws};

verus! {

/// Largest file `read` returns whole (bytes).
pub const READ_TOOL_MAX_BYTES: u64 = 104857600;

/// Largest content `write` and `edit` store (bytes).
pub const WRITE_TOOL_MAX_BYTES: usize = 104857600;

/// `bash` timeout when none is given (ms).
pub const DEFAULT_BASH_TIMEOUT_MS: u64 = 60000;

/// `grep`/`find` timeout when none is given (ms).
pub const DEFAULT_GREP_TIMEOUT_MS: u64 = 60000;

/// `find`/`ls`/`grep` result limit when none is given.
pub const DEFAULT_LIST_LIMIT: usize = 100;

/// A tool failure: a code (`invalid_request`, `io`, `timeout`) and a message.
#[derive(Debug)]
pub struct ToolError {
    pub code: &'static str,
    pub message: String,
}

impl ToolError {
    /// A bad request.
    pub fn invalid(message: String) -> (e: Self)
        ensures
            e.code@ == "invalid_request"@,
            e.message@ == message@,
    {
        ToolError { code: "invalid_request", message }
    }

    /// A file or process failure.
    pub fn io(message: String) -> (e: Self)
        ensures
            e.code@ == "io"@,
            e.message@ == message@,
    {
        ToolError { code: "io", message }
    }

    /// A time-out.
    pub fn timeout(message: String) -> (e: Self)
        ensures
            e.code@ == "timeout"@,
            e.message@ == message@,
    {
        ToolError { code: "timeout", message }
    }

    /// `code: message`.
    pub fn display_string(&self) -> (s: String)
        ensures
            s@ == self.code@ + ": "@ + self.message@,
    {
        let mut s = String::new();
        push_str_chars(&mut s, self.code);
        push_str_chars(&mut s, ": ");
        push_str_chars(&mut s, self.message.as_str());
        s
    }
}

/// The built-in tools.
#[derive(Debug, Clone, Copy, PartialEq, Eq, Structural)]
pub enum BuiltinTool {
    Read,
    Write,
    Edit,
    Grep,
    Find,
    Ls,
    Bash,
}

pub open spec fn tool_spec(name: Seq<char>) -> Option<BuiltinTool> {
    let n = trim_ws(name);
    if n == "read"@ {
        Some(BuiltinTool::Read)
    } else if n == "write"@ {
        Some(BuiltinTool::Write)
    } else if n == "edit"@ {
        Some(BuiltinTool::Edit)
    } else if n == "grep"@ {
        Some(BuiltinTool::Grep)
    } else if n == "find"@ {
        Some(BuiltinTool::Find)
    } else if n == "ls"@ {
        Some(BuiltinTool::Ls)
    } else if n == "bash"@ {
        Some(BuiltinTool::Bash)
    } else {
        None
    }
}

/// The built-in tool a (trimmed) name calls; `None` for any other name,
/// plugin tools included.
pub fn tool_named(name: &str) -> (r: Option<BuiltinTool>)
    ensures
        r == tool_spec(name@),
{
    let t = trim_string(name);
    let cs = chars_of(t.as_str());
    if text_is(&cs, "read") {
        Some(BuiltinTool::Read)
    } else if text_is(&cs, "write") {
        Some(BuiltinTool::Write)
    } else if text_is(&cs, "edit") {
        Some(BuiltinTool::Edit)
    } else if text_is(&cs, "grep") {
        Some(BuiltinTool::Grep)
    } else if text_is(&cs, "find") {
        Some(BuiltinTool::Find)
    } else if text_is(&cs, "ls") {
        Some(BuiltinTool::Ls)
    } else if text_is(&cs, "bash") {
        Some(BuiltinTool::Bash)
    } else {
        None
    }
}

/// The host of the built-in tools; relative paths resolve under `cwd`.
pub struct BuiltinTools {
    cwd: String,
}

impl BuiltinTools {
    pub closed spec fn cwd_view(&self) -> Seq<char> {
        self.cwd@
    }

    /// Tools working in `cwd`.
    pub fn new(cwd: String) -> (t: Self)
        ensures
            t.cwd_view() == cwd@,
    {
        BuiltinTools { cwd }
    }

    /// The working directory.
    pub fn cwd(&self) -> (r: &str)
        ensures
            r@ == self.cwd_view(),
    {
        self.cwd.as_str()
    }

    /// An absolute path as it is; a relative one joined under `cwd`.
    pub fn resolve(&self, path: &str) -> (r: String)
        ensures
            r@ == if path_absolute(path@) { path@ } else { path_join(self.cwd_view(), path@) },
    {
        if is_absolute(path) {
            path.to_owned()
        } else {
            join_of(self.cwd.as_str(), path)
        }
    }
}

/// The byte window `read` returns from a file of `len` bytes: skip `offset`
/// clamped to the file; take `limit` when positive (clamped to what is left),
/// otherwise the rest; never more than the read limit.
pub fn read_window(len: usize, offset: i64, limit: Option<i64>) -> (r: (usize, usize))
    ensures
        ({
            let skip: int = if offset <= 0 { 0 } else if offset >= len { len as int } else { offset as int };
            let rest: int = len - skip;
            let take: int = match limit {
                Some(l) => if l > 0 { if l < rest { l as int } else { rest } } else { rest },
                None => rest,
            };
            let take2: int = if take < READ_TOOL_MAX_BYTES { take } else { READ_TOOL_MAX_BYTES as int };
            r.0 == skip && r.1 == take2 && r.0 + r.1 <= len
        }),
{
    let skip: usize = if offset <= 0 {
        0
    } else if offset as u64 >= len as u64 {
        len
    } else {
        offset as usize
    };
    let rest = len - skip;
    let take: usize = match limit {
        Some(l) => if l > 0 {
            if (l as u64) < (rest as u64) { l as usize } else { rest }
        } else {
            rest
        },
        None => rest,
    };
    let cap: u64 = READ_TOOL_MAX_BYTES;
    let take2: usize = if (take as u64) < cap { take } else { cap as usize };
    (skip, take2)
}

/// UTF-16 code units of a text (what `write` reports as bytes written).
pub open spec fn utf16_units(s: Seq<char>) -> nat
    decreases s.len(),
{
    if s.len() == 0 {
        0
    } else {
        utf16_units(s.drop_last()) + if (s.last() as u32) >= 0x10000 { 2nat } else { 1nat }
    }
}

/// `str::encode_utf16().count()`.
pub fn utf16_len(s: &str) -> (n: usize)
    requires
        2 * s@.len() <= usize::MAX,
    ensures
        n == utf16_units(s@),
{
    let cs = chars_of(s);
    let mut n: usize = 0;
    let mut i: usize = 0;
    while i < cs.len()
        invariant
            i <= cs@.len(),
            cs@ == s@,
            2 * s@.len() <= usize::MAX,
            n == utf16_units(cs@.take(i as int)),
            n <= 2 * i,
        decreases cs@.len() - i,
    {
        proof {
            assert(cs@.take(i + 1).drop_last() =~= cs@.take(i as int));
        }
        if (cs[i] as u32) >= 0x10000 {
            n += 2;
        } else {
            n += 1;
        }
        i += 1;
    }
    assert(cs@.take(i as int) =~= cs@);
    n
}

/// `s` with every non-overlapping occurrence of `old` (scanning from the
/// left) replaced by `new`.
pub open spec fn replaced(s: Seq<char>, old: Seq<char>, new: Seq<char>) -> Seq<char>
    decreases s.len(),
{
    if old.len() == 0 || s.len() == 0 {
        s
    } else if old.len() <= s.len() && s.take(old.len() as int) == old {
        new + replaced(s.skip(old.len() as int), old, new)
    } else {
        seq![s[0]] + replaced(s.skip(1), old, new)
    }
}

/// The number of occurrences `replaced` replaces.
pub open spec fn occurrences(s: Seq<char>, old: Seq<char>) -> nat
    decreases s.len(),
{
    if old.len() == 0 || s.len() == 0 {
        0
    } else if old.len() <= s.len() && s.take(old.len() as int) == old {
        1 + occurrences(s.skip(old.len() as int), old)
    } else {
        occurrences(s.skip(1), old)
    }
}

proof fn lemma_occurrences_bound(s: Seq<char>, old: Seq<char>)
    ensures
        occurrences(s, old) <= s.len(),
    decreases s.len(),
{
    if old.len() > 0 && s.len() > 0 {
        if old.len() <= s.len() && s.take(old.len() as int) == old {
            lemma_occurrences_bound(s.skip(old.len() as int), old);
        } else {
            lemma_occurrences_bound(s.skip(1), old);
        }
    }
}

/// `edit`'s replacement: every occurrence of the non-empty `old` replaced by
/// `new` (`str::replace`), and how many there were (`str::matches().count()`).
pub fn replace_all(content: &str, old: &str, new: &str) -> (r: (String, usize))
    requires
        old@.len() > 0,
    ensures
        r.0@ == replaced(content@, old@, new@),
        r.1 == occurrences(content@, old@),
{
    let cs = chars_of(content);
    let os = chars_of(old);
    let ghost s = cs@;
    let mut out = String::new();
    let mut count: usize = 0;
    let mut i: usize = 0;
    let total = cs.len();
    proof {
        assert(s.skip(0) =~= s);
        lemma_occurrences_bound(s, os@);
    }
    while i < cs.len()
        invariant
            i <= s.len(),
            total == s.len(),
            cs@ == s,
            s == content@,
            os@ == old@,
            os@.len() > 0,
            out@ + replaced(s.skip(i as int), os@, new@) == replaced(s, os@, new@),
            count + occurrences(s.skip(i as int), os@) == occurrences(s, os@),
            occurrences(s, os@) <= s.len(),
        decreases s.len() - i,
    {
        let ghost t = s.skip(i as int);
        let mut matched = os.len() <= cs.len() - i;
        let mut k: usize = 0;
        while matched && k < os.len()
            invariant
                i < s.len(),
                total == s.len(),
                cs@ == s,
                t == s.skip(i as int),
                k <= os@.len(),
                matched ==> os@.len() <= s.len() - i,
                matched ==> forall|j: int| 0 <= j < k ==> s[i + j] == os@[j],
                !matched ==> !(os@.len() <= t.len() && t.take(os@.len() as int) == os@),
            decreases os@.len() - k,
        {
            if cs[i + k] != os[k] {
                matched = false;
                proof {
                    if os@.len() <= t.len() && t.take(os@.len() as int) == os@ {
                        assert(t.take(os@.len() as int)[k as int] == s[i + k]);
                    }
                }
            }
            k += 1;
        }
        if matched {
            proof {
                assert(t.take(os@.len() as int) =~= os@);
                assert(t.skip(os@.len() as int) =~= s.skip(i + os@.len()));
                lemma_occurrences_bound(s.skip(i + os@.len()), os@);
            }
            push_str_chars(&mut out, new);
            count += 1;
            i += os.len();
        } else {
            proof {
                assert(t.skip(1) =~= s.skip(i + 1));
                assert(t[0] == s[i as int]);
            }
            crate::text::push_char(&mut out, cs[i]);
            i += 1;
        }
        proof {
            assert(out@ + replaced(s.skip(i as int), os@, new@) =~= replaced(s, os@, new@));
        }
    }
    (out, count)
}

/// Forward slashes in a displayed path.
pub fn forward_slashes(path: &str) -> (r: String)
    ensures
        r@ == path@.map_values(|c: char| if c == '\\' { '/' } else { c }),
{
    let cs = chars_of(path);
    let mut out: Vec<char> = Vec::new();
    let mut i: usize = 0;
    while i < cs.len()
        invariant
            i <= cs@.len(),
            out@ == cs@.take(i as int).map_values(|c: char| if c == '\\' { '/' } else { c }),
        decreases cs@.len() - i,
    {
        let c = cs[i];
        out.push(if c == '\\' { '/' } else { c });
        i += 1;
        proof {
            assert(out@ =~= cs@.take(i as int).map_values(|c: char| if c == '\\' { '/' } else { c }));
        }
    }
    assert(cs@.take(i as int) =~= cs@);
    string_from_chars(out.as_slice())
}

/// A given positive timeout, or the default.
pub fn timeout_or_default(given: Option<u64>, default: u64) -> (t: u64)
    ensures
        t == (match given {
            Some(x) => if x > 0 { x } else { default },
            None => default,
        }),
{
    match given {
        Some(x) => if x > 0 { x } else { default },
        None => default,
    }
}

/// Whether a line matches a grep pattern (literal substring; with
/// `ignore_case`, both lower-cased).
pub open spec fn grep_hit(line: Seq<char>, pattern: Seq<char>, ignore_case: bool) -> bool {
    if ignore_case {
        crate::text::contains_sub(lowercase(line), lowercase(pattern))
    } else {
        crate::text::contains_sub(line, pattern)
    }
}

/// The 1-based numbers and texts of the lines of `text` that match, at most
/// `limit` of them, in order.
pub open spec fn grep_hits(ls: Seq<Seq<char>>, pattern: Seq<char>, ignore_case: bool) -> Seq<(int, Seq<char>)>
    decreases ls.len(),
{
    if ls.len() == 0 {
        Seq::empty()
    } else {
        let r = grep_hits(ls.drop_last(), pattern, ignore_case);
        if grep_hit(ls.last(), pattern, ignore_case) {
            r.push((ls.len() as int, ls.last()))
        } else {
            r
        }
    }
}

/// The matching lines of one file's text for `grep`: (line number, line),
/// the first `limit` of them.
pub fn grep_lines(text: &str, pattern: &str, ignore_case: bool, limit: usize) -> (r: Vec<(usize, String)>)
    ensures
        ({
            let all = grep_hits(lines(text@), pattern@, ignore_case);
            let n: int = if limit < all.len() { limit as int } else { all.len() as int };
            r@.len() == n && forall|k: int| 0 <= k < n ==> (#[trigger] r@[k]).0 == all[k].0 && r@[k].1@ == all[k].1
        }),
{
    let cs = chars_of(text);
    let ls = lines_of(&cs);
    let ghost lv = lines(cs@);
    let needle_text = if ignore_case { to_lowercase(pattern) } else { pattern.to_owned() };
    let needle = chars_of(needle_text.as_str());
    let mut r: Vec<(usize, String)> = Vec::new();
    let mut i: usize = 0;
    while i < ls.len() && r.len() < limit
        invariant
            i <= ls@.len() == lv.len(),
            forall|k: int| 0 <= k < ls@.len() ==> #[trigger] ls@[k]@ == lv[k],
            needle@ == if ignore_case { lowercase(pattern@) } else { pattern@ },
            r@.len() <= limit,
            r@.len() == grep_hits(lv.take(i as int), pattern@, ignore_case).len(),
            forall|k: int| 0 <= k < r@.len() ==> (#[trigger] r@[k]).0 == grep_hits(lv.take(i as int), pattern@, ignore_case)[k].0
                && r@[k].1@ == grep_hits(lv.take(i as int), pattern@, ignore_case)[k].1,
        decreases ls@.len() - i,
    {
        proof {
            assert(lv.take(i + 1).drop_last() =~= lv.take(i as int));
            assert(lv.take(i + 1).last() == ls@[i as int]@);
        }
        let line = string_from_chars(ls[i].as_slice());
        let cand = if ignore_case { to_lowercase(line.as_str()) } else { line.clone() };
        let cc = chars_of(cand.as_str());
        let hit = crate::text::contains_in_range(&cc, 0, cc.len(), &needle);
        proof {
            assert(cc@.subrange(0, cc@.len() as int) =~= cc@);
        }
        if hit {
            r.push((i + 1, line));
        }
        i += 1;
    }
    proof {
        lemma_grep_hits_prefix(lv, pattern@, ignore_case, i as int);
        if i == ls@.len() {
            assert(lv.take(i as int) =~= lv);
        }
    }
    r
}

proof fn lemma_grep_hits_prefix(ls: Seq<Seq<char>>, pattern: Seq<char>, ignore_case: bool, i: int)
    requires
        0 <= i <= ls.len(),
    ensures
        ({
            let a = grep_hits(ls.take(i), pattern, ignore_case);
            let b = grep_hits(ls, pattern, ignore_case);
            a.len() <= b.len() && forall|k: int| 0 <= k < a.len() ==> a[k] == b[k]
        }),
    decreases ls.len() - i,
{
    if i < ls.len() {
        lemma_grep_hits_prefix(ls, pattern, ignore_case, i + 1);
        assert(ls.take(i + 1).drop_last() =~= ls.take(i));
    } else {
        assert(ls.take(i) =~= ls);
    }
}

/// The JSON type of a tool parameter.
#[derive(Debug, Clone, Copy, PartialEq, Eq, Structural)]
pub enum ParamKind {
    String,
    Integer,
    Boolean,
}

/// One property of a tool's input schema.
pub struct ToolParam {
    pub name: String,
    pub kind: ParamKind,
    pub description: Option<String>,
}

/// A tool definition handed to the model: name, description, the input
/// schema's properties (in order) and its required properties.
pub struct ToolDef {
    pub name: String,
    pub description: String,
    pub params: Vec<ToolParam>,
    pub required: Vec<String>,
}

impl ToolParam {
    pub open spec fn view_param(&self) -> (Seq<char>, ParamKind, Option<Seq<char>>) {
        (self.name@, self.kind, match self.description { Some(d) => Some(d@), None => None })
    }
}

impl ToolDef {
    pub open spec fn view_def(&self) -> (Seq<char>, Seq<char>, Seq<(Seq<char>, ParamKind, Option<Seq<char>>)>, Seq<Seq<char>>) {
        (
            self.name@,
            self.description@,
            self.params@.map_values(|p: ToolParam| p.view_param()),
            self.required@.map_values(|r: String| r@),
        )
    }
}

/// The definitions of the built-in tools, in order: read, write, edit, grep,
/// find, ls, bash.
pub open spec fn builtin_defs_spec() -> Seq<(Seq<char>, Seq<char>, Seq<(Seq<char>, ParamKind, Option<Seq<char>>)>, Seq<Seq<char>>)> {
    seq![
        ("read"@, "Read a file's text content (relative or absolute path; offset/limit in bytes)."@, seq![("path"@, ParamKind::String, Some("Path to the file"@)), ("offset"@, ParamKind::Integer, Some("Byte offset to start from"@)), ("limit"@, ParamKind::Integer, Some("Max bytes to read"@))], seq!["path"@]),
        ("write"@, "Write content to a file. Creates the file and parent directories; overwrites if it exists."@, seq![("path"@, ParamKind::String, Some("Path to the file"@)), ("content"@, ParamKind::String, Some("Content to write"@))], seq!["path"@, "content"@]),
        ("edit"@, "Replace all occurrences of old_text with new_text in a file (literal match)."@, seq![("path"@, ParamKind::String, None), ("old_text"@, ParamKind::String, None), ("new_text"@, ParamKind::String, None)], seq!["path"@, "old_text"@, "new_text"@]),
        ("grep"@, "Recursively search files for a literal substring (ignore_case optional; respects .gitignore/.ignore and skips hidden files)."@, seq![("pattern"@, ParamKind::String, None), ("path"@, ParamKind::String, Some("Root directory (default: working dir)"@)), ("ignore_case"@, ParamKind::Boolean, None), ("limit"@, ParamKind::Integer, None), ("timeout"@, ParamKind::Integer, Some("Timeout in ms (default 60000)"@))], seq!["pattern"@]),
        ("find"@, "Recursively find files whose name contains the pattern (respects .gitignore/.ignore and skips hidden files)."@, seq![("pattern"@, ParamKind::String, None), ("path"@, ParamKind::String, None), ("limit"@, ParamKind::Integer, None), ("timeout"@, ParamKind::Integer, Some("Timeout in ms (default 60000)"@))], seq!["pattern"@]),
        ("ls"@, "List a directory's entries (directories marked with trailing '/')."@, seq![("path"@, ParamKind::String, None), ("limit"@, ParamKind::Integer, None)], Seq::<Seq<char>>::empty()),
        ("bash"@, "Run a shell command (Windows: cmd /C; others: /bin/sh -c). Returns {stdout, stderr, code, killed}."@, seq![("command"@, ParamKind::String, None), ("cwd"@, ParamKind::String, None), ("timeout"@, ParamKind::Integer, Some("Timeout in ms (default 60000)"@))], seq!["command"@]),
    ]
}

fn tool_param(name: &str, kind: ParamKind, description: Option<&str>) -> (p: ToolParam)
    ensures
        p.view_param() == (name@, kind, match description { Some(d) => Some(d@), None => None }),
{
    let description = match description {
        Some(d) => Some(d.to_owned()),
        None => None,
    };
    ToolParam { name: name.to_owned(), kind, description }
}

fn push_param(params: &mut Vec<ToolParam>, name: &str, kind: ParamKind, description: Option<&str>)
    ensures
        final(params)@.map_values(|p: ToolParam| p.view_param()) == old(params)@.map_values(|p: ToolParam| p.view_param()).push(
            (name@, kind, match description { Some(d) => Some(d@), None => None }),
        ),
{
    let ghost before = params@;
    params.push(tool_param(name, kind, description));
    proof {
        assert(params@.map_values(|p: ToolParam| p.view_param()) =~= before.map_values(|p: ToolParam| p.view_param()).push(params@.last().view_param()));
    }
}

fn push_required(required: &mut Vec<String>, name: &str)
    ensures
        final(required)@.map_values(|r: String| r@) == old(required)@.map_values(|r: String| r@).push(name@),
{
    let ghost before = required@;
    required.push(name.to_owned());
    proof {
        assert(required@.map_values(|r: String| r@) =~= before.map_values(|r: String| r@).push(name@));
    }
}

impl BuiltinTools {
    /// The definitions of the built-in tools handed to the model.
    pub fn definitions() -> (r: Vec<ToolDef>)
        ensures
            r@.map_values(|t: ToolDef| t.view_def()) == builtin_defs_spec(),
    {
        let mut defs: Vec<ToolDef> = Vec::new();
        {
            let mut params: Vec<ToolParam> = Vec::new();
            push_param(&mut params, "path", ParamKind::String, Some("Path to the file"));
            push_param(&mut params, "offset", ParamKind::Integer, Some("Byte offset to start from"));
            push_param(&mut params, "limit", ParamKind::Integer, Some("Max bytes to read"));
            let mut required: Vec<String> = Vec::new();
            push_required(&mut required, "path");
            let ghost before = defs@;
            defs.push(ToolDef { name: "read".to_owned(), description: "Read a file's text content (relative or absolute path; offset/limit in bytes).".to_owned(), params, required });
            proof { assert(defs@.map_values(|t: ToolDef| t.view_def()) =~= before.map_values(|t: ToolDef| t.view_def()).push(defs@.last().view_def())); }
        }
        {
            let mut params: Vec<ToolParam> = Vec::new();
            push_param(&mut params, "path", ParamKind::String, Some("Path to the file"));
            push_param(&mut params, "content", ParamKind::String, Some("Content to write"));
            let mut required: Vec<String> = Vec::new();
            push_required(&mut required, "path");
            push_required(&mut required, "content");
            let ghost before = defs@;
            defs.push(ToolDef { name: "write".to_owned(), description: "Write content to a file. Creates the file and parent directories; overwrites if it exists.".to_owned(), params, required });
            proof { assert(defs@.map_values(|t: ToolDef| t.view_def()) =~= before.map_values(|t: ToolDef| t.view_def()).push(defs@.last().view_def())); }
        }
        {
            let mut params: Vec<ToolParam> = Vec::new();
            push_param(&mut params, "path", ParamKind::String, None);
            push_param(&mut params, "old_text", ParamKind::String, None);
            push_param(&mut params, "new_text", ParamKind::String, None);
            let mut required: Vec<String> = Vec::new();
            push_required(&mut required, "path");
            push_required(&mut required, "old_text");
            push_required(&mut required, "new_text");
            let ghost before = defs@;
            defs.push(ToolDef { name: "edit".to_owned(), description: "Replace all occurrences of old_text with new_text in a file (literal match).".to_owned(), params, required });
            proof { assert(defs@.map_values(|t: ToolDef| t.view_def()) =~= before.map_values(|t: ToolDef| t.view_def()).push(defs@.last().view_def())); }
        }
        {
            let mut params: Vec<ToolParam> = Vec::new();
            push_param(&mut params, "pattern", ParamKind::String, None);
            push_param(&mut params, "path", ParamKind::String, Some("Root directory (default: working dir)"));
            push_param(&mut params, "ignore_case", ParamKind::Boolean, None);
            push_param(&mut params, "limit", ParamKind::Integer, None);
            push_param(&mut params, "timeout", ParamKind::Integer, Some("Timeout in ms (default 60000)"));
            let mut required: Vec<String> = Vec::new();
            push_required(&mut required, "pattern");
            let ghost before = defs@;
            defs.push(ToolDef { name: "grep".to_owned(), description: "Recursively search files for a literal substring (ignore_case optional; respects .gitignore/.ignore and skips hidden files).".to_owned(), params, required });
            proof { assert(defs@.map_values(|t: ToolDef| t.view_def()) =~= before.map_values(|t: ToolDef| t.view_def()).push(defs@.last().view_def())); }
        }
        {
            let mut params: Vec<ToolParam> = Vec::new();
            push_param(&mut params, "pattern", ParamKind::String, None);
            push_param(&mut params, "path", ParamKind::String, None);
            push_param(&mut params, "limit", ParamKind::Integer, None);
            push_param(&mut params, "timeout", ParamKind::Integer, Some("Timeout in ms (default 60000)"));
            let mut required: Vec<String> = Vec::new();
            push_required(&mut required, "pattern");
            let ghost before = defs@;
            defs.push(ToolDef { name: "find".to_owned(), description: "Recursively find files whose name contains the pattern (respects .gitignore/.ignore and skips hidden files).".to_owned(), params, required });
            proof { assert(defs@.map_values(|t: ToolDef| t.view_def()) =~= before.map_values(|t: ToolDef| t.view_def()).push(defs@.last().view_def())); }
        }
        {
            let mut params: Vec<ToolParam> = Vec::new();
            push_param(&mut params, "path", ParamKind::String, None);
            push_param(&mut params, "limit", ParamKind::Integer, None);
            let mut required: Vec<String> = Vec::new();

            let ghost before = defs@;
            defs.push(ToolDef { name: "ls".to_owned(), description: "List a directory's entries (directories marked with trailing '/').".to_owned(), params, required });
            proof { assert(defs@.map_values(|t: ToolDef| t.view_def()) =~= before.map_values(|t: ToolDef| t.view_def()).push(defs@.last().view_def())); }
        }
        {
            let mut params: Vec<ToolParam> = Vec::new();
            push_param(&mut params, "command", ParamKind::String, None);
            push_param(&mut params, "cwd", ParamKind::String, None);
            push_param(&mut params, "timeout", ParamKind::Integer, Some("Timeout in ms (default 60000)"));
            let mut required: Vec<String> = Vec::new();
            push_required(&mut required, "command");
            let ghost before = defs@;
            defs.push(ToolDef { name: "bash".to_owned(), description: "Run a shell command (Windows: cmd /C; others: /bin/sh -c). Returns {stdout, stderr, code, killed}.".to_owned(), params, required });
            proof { assert(defs@.map_values(|t: ToolDef| t.view_def()) =~= before.map_values(|t: ToolDef| t.view_def()).push(defs@.last().view_def())); }
        }
        proof { assert(defs@.map_values(|t: ToolDef| t.view_def()) =~~= builtin_defs_spec()); }
        defs
    }
}

/// The built-in tool named exactly `name` (no trimming).
pub open spec fn builtin_exact(name: Seq<char>) -> Option<BuiltinTool> {
    if trim_ws(name) == name { tool_spec(name) } else { None }
}

/// Where a tool call from the model goes.
#[derive(Debug, Clone, Copy, PartialEq, Eq, Structural)]
pub enum ToolRoute {
    /// `subagent`: a child agent process.
    Subagent,
    /// `set_wake` with the steward attached.
    SetWake,
    /// `todo` with the event log attached.
    Todo,
    /// One of the built-in tools.
    Builtin(BuiltinTool),
    /// A plugin tool, through the plugin engine.
    Plugin,
    /// `set_wake` without the steward.
    SetWakeUnavailable,
    /// `todo` without the event log.
    TodoUnavailable,
    /// A plugin tool without the plugin engine.
    PluginUnavailable,
}

/// The route of a tool call named `name`, given what the session has
/// attached: the steward store, the event log, the plugin engine.
pub open spec fn route_spec(name: Seq<char>, steward: bool, event_log: bool, engine: bool) -> ToolRoute {
    if name == "subagent"@ {
        ToolRoute::Subagent
    } else if name == "set_wake"@ {
        if steward { ToolRoute::SetWake } else { ToolRoute::SetWakeUnavailable }
    } else if name == "todo"@ {
        if event_log { ToolRoute::Todo } else { ToolRoute::TodoUnavailable }
    } else if builtin_exact(name) is Some {
        ToolRoute::Builtin(builtin_exact(name).unwrap())
    } else if engine {
        ToolRoute::Plugin
    } else {
        ToolRoute::PluginUnavailable
    }
}

/// Routes a tool call: `subagent`, then `set_wake` and `todo` (each needing
/// what it writes to), then the built-in tools by exact name, then the plugin
/// engine.
pub fn route_tool(name: &str, steward: bool, event_log: bool, engine: bool) -> (r: ToolRoute)
    ensures
        r == route_spec(name@, steward, event_log, engine),
{
    let cs = chars_of(name);
    if text_is(&cs, "subagent") {
        ToolRoute::Subagent
    } else if text_is(&cs, "set_wake") {
        if steward { ToolRoute::SetWake } else { ToolRoute::SetWakeUnavailable }
    } else if text_is(&cs, "todo") {
        if event_log { ToolRoute::Todo } else { ToolRoute::TodoUnavailable }
    } else {
        let t = trim_string(name);
        let same = crate::text::same_text(t.as_str(), name);
        let b = if same { tool_named(name) } else { None };
        match b {
            Some(tool) => ToolRoute::Builtin(tool),
            None => if engine { ToolRoute::Plugin } else { ToolRoute::PluginUnavailable },
        }
    }
}

/// The failure text of a route that cannot run; `None` for the others.
pub fn route_unavailable_text(r: ToolRoute) -> (s: Option<&'static str>)
    ensures
        match r {
            ToolRoute::SetWakeUnavailable => s matches Some(t) && t@ == "管家未启用（set_wake 不可用）"@,
            ToolRoute::TodoUnavailable => s matches Some(t) && t@ == "todo 工具不可用（事件日志未挂载）"@,
            ToolRoute::PluginUnavailable => s matches Some(t) && t@ == "插件引擎未启用（bm-compat 启动失败或已禁用）"@,
            _ => s is None,
        },
{
    match r {
        ToolRoute::SetWakeUnavailable => Some("管家未启用（set_wake 不可用）"),
        ToolRoute::TodoUnavailable => Some("todo 工具不可用（事件日志未挂载）"),
        ToolRoute::PluginUnavailable => Some("插件引擎未启用（bm-compat 启动失败或已禁用）"),
        _ => None,
    }
}

} // verus!
