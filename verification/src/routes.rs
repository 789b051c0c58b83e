//! HTTP request shapes whose handling holds a decision of its own: skill
//! installation sources, defaults of query and body fields, the log page's
//! window, a steward report's message, an APP profile update, the MCP status
//! list and stored server list, and the daily plugin quota.
use vstd::prelude::*;

use crate::hex::{dec_padded, dec_padded_chars};
use crate::log_buffer::{query_result, LogBuffer, LogEntry};
use crate::mcp::config::{McpServerConfig, McpTransportKind};
use crate::permission_store::{days_to_ymd, days_to_ymd_spec, push_all};
use crate::text::{push_char, same_text, trim_string, trim_ws};

verus! {

/// Create a session, optionally with a provider, model, title and APP.
#[derive(Debug, Clone)]
pub struct CreateSessionRequest {
    pub provider_id: Option<String>,
    pub model: Option<String>,
    pub title: Option<String>,
    /// The APP (scene) the session belongs to: chat, coding, …
    pub app: Option<String>,
}

/// Rename a session.
#[derive(Debug, Clone)]
pub struct RenameSessionRequest {
    pub title: String,
}

/// A new session's APP: the one asked for, else `chat`.
pub fn session_app(req: &CreateSessionRequest) -> (r: String)
    ensures
        r@ == match req.app {
            Some(a) => a@,
            None => "chat"@,
        },
{
    match &req.app {
        Some(a) => a.clone(),
        None => "chat".to_owned(),
    }
}

/// A title as stored: trimmed; `None` when blank (a new session then keeps
/// its default title, a rename is refused).
pub fn session_title(title: &str) -> (r: Option<String>)
    ensures
        match r {
            Some(t) => t@ == trim_ws(title@) && t@.len() > 0,
            None => trim_ws(title@).len() == 0,
        },
{
    let t = trim_string(title);
    if t.as_str().is_empty() {
        None
    } else {
        Some(t)
    }
}

/// Install a skill from skills.sh/GitHub (owner, repo, skill id) or from a
/// local path.
#[derive(Debug, Clone)]
pub struct InstallSkillRequest {
    pub owner: Option<String>,
    pub repo: Option<String>,
    pub skill_id: Option<String>,
    pub path: Option<String>,
}

/// Where a skill is installed from.
#[derive(Debug, Clone, PartialEq, Eq)]
pub enum SkillSource {
    Github { owner: String, repo: String, skill_id: String },
    Path(String),
    /// Neither a complete GitHub source nor a path.
    Missing,
}

/// The installation source: GitHub when owner, repo and skill id are all
/// given, else the local path when given.
pub fn skill_source(req: InstallSkillRequest) -> (r: SkillSource)
    ensures
        match (req.owner, req.repo, req.skill_id) {
            (Some(o), Some(p), Some(s)) => r == SkillSource::Github { owner: o, repo: p, skill_id: s },
            _ => match req.path {
                Some(p) => r == SkillSource::Path(p),
                None => r == SkillSource::Missing,
            },
        },
{
    match (req.owner, req.repo, req.skill_id) {
        (Some(owner), Some(repo), Some(skill_id)) => SkillSource::Github { owner, repo, skill_id },
        _ => match req.path {
            Some(p) => SkillSource::Path(p),
            None => SkillSource::Missing,
        },
    }
}

/// How many random skills to draw.
#[derive(Debug, Clone, Copy)]
pub struct RandomSkillsParams {
    pub count: usize,
}

/// Random skills drawn when the query gives no count.
pub fn default_random_count() -> (n: usize)
    ensures
        n == 5,
{
    5
}

/// Open a terminal in `cwd` (the working directory when absent).
#[derive(Debug, Clone)]
pub struct CreateTerminalRequest {
    pub cwd: Option<String>,
    pub cols: u16,
    pub rows: u16,
}

/// Terminal columns when none are given.
pub fn default_cols() -> (n: u16)
    ensures
        n == 100,
{
    100
}

/// Terminal rows when none are given.
pub fn default_rows() -> (n: u16)
    ensures
        n == 30,
{
    30
}

/// Input to a terminal: base64 bytes.
#[derive(Debug, Clone)]
pub struct TerminalInputRequest {
    pub data: String,
}

/// Resize a terminal.
#[derive(Debug, Clone, Copy)]
pub struct TerminalResizeRequest {
    pub cols: u16,
    pub rows: u16,
}

/// Create a wiki.
#[derive(Debug, Clone)]
pub struct CreateWikiBody {
    pub name: String,
}

/// The wiki name when none is given.
pub fn default_wiki_name() -> (s: String)
    ensures
        s@ == "my-wiki"@,
{
    "my-wiki".to_owned()
}

/// `YYYY-MM-DD` (UTC) of Unix seconds.
pub open spec fn utc_date_spec(secs: u64) -> Seq<char> {
    let ymd = days_to_ymd_spec(secs / 86400);
    dec_padded(ymd.0 as nat, 4) + seq!['-'] + dec_padded(ymd.1 as nat, 2) + seq!['-'] + dec_padded(ymd.2 as nat, 2)
}

/// The UTC date key of Unix seconds (the daily quota's key).
pub fn utc_date(secs: u64) -> (r: String)
    ensures
        r@ == utc_date_spec(secs),
{
    let (y, m, d) = days_to_ymd(secs / 86400);
    let mut out = String::new();
    push_all(&mut out, &dec_padded_chars(y, 4));
    push_char(&mut out, '-');
    push_all(&mut out, &dec_padded_chars(m, 2));
    push_char(&mut out, '-');
    push_all(&mut out, &dec_padded_chars(d, 2));
    out
}

/// The log page's query: lowest level, keyword, page size and offset.
#[derive(Debug, Clone)]
pub struct LogQuery {
    pub level: Option<String>,
    pub q: Option<String>,
    pub limit: Option<usize>,
    pub offset: Option<usize>,
}

/// Entries per page when the query names none.
pub const DEFAULT_LOG_LIMIT: usize = 200;

/// The most entries a page holds.
pub const MAX_LOG_LIMIT: usize = 2000;

/// The page size: the query's (at most 2000), or 200.
pub open spec fn log_limit(q: LogQuery) -> int {
    match q.limit {
        Some(l) => if l < MAX_LOG_LIMIT { l as int } else { MAX_LOG_LIMIT as int },
        None => DEFAULT_LOG_LIMIT as int,
    }
}

pub open spec fn opt_view(o: Option<String>) -> Option<Seq<char>> {
    match o {
        Some(s) => Some(s@),
        None => None,
    }
}

fn opt_str(o: &Option<String>) -> (r: Option<&str>)
    ensures
        opt_view(*o) == match r { Some(s) => Some(s@), None => None::<Seq<char>> },
{
    match o {
        Some(s) => Some(s.as_str()),
        None => None,
    }
}

/// The log page: the ring's matching entries, newest first, for the query's
/// window; nothing when no ring is installed.
pub fn get_logs(buffer: Option<&LogBuffer>, q: &LogQuery) -> (r: Vec<LogEntry>)
    ensures
        match buffer {
            None => r@ == Seq::<LogEntry>::empty(),
            Some(b) => r@ == query_result(
                b.view_entries(),
                opt_view(q.level),
                opt_view(q.q),
                log_limit(*q),
                match q.offset { Some(o) => o as int, None => 0 },
            ),
        },
{
    let limit: usize = match q.limit {
        Some(l) => if l < MAX_LOG_LIMIT { l } else { MAX_LOG_LIMIT },
        None => DEFAULT_LOG_LIMIT,
    };
    let offset: usize = match q.offset {
        Some(o) => o,
        None => 0,
    };
    match buffer {
        Some(b) => b.query(opt_str(&q.level), opt_str(&q.q), limit, offset),
        None => Vec::new(),
    }
}

/// A report to the steward: the event and, optionally, when to wake next.
#[derive(Debug, Clone)]
pub struct InjectRequest {
    pub message: String,
    pub wake_after_seconds: Option<i64>,
}

/// The message a report hands the steward: trimmed; `None` (refused) when
/// nothing is left.
pub fn inject_message(req: &InjectRequest) -> (r: Option<String>)
    ensures
        match r {
            Some(m) => m@ == trim_ws(req.message@) && m@.len() > 0,
            None => trim_ws(req.message@).len() == 0,
        },
{
    let m = trim_string(req.message.as_str());
    if m.as_str().is_empty() {
        None
    } else {
        Some(m)
    }
}

/// An APP's own settings: default expert, memory bucket, working directory.
#[derive(Debug, Clone)]
pub struct PutAppProfileRequest {
    pub expert: Option<String>,
    pub memory: Option<String>,
    pub working_dir: Option<String>,
}

/// A stored APP profile (absent fields use the global settings).
#[derive(Debug, Clone)]
pub struct AppProfile {
    pub expert: Option<String>,
    pub memory: Option<String>,
    pub working_dir: Option<String>,
}

/// What an update does to the stored profile.
#[derive(Debug, Clone)]
pub enum ProfileUpdate {
    /// Store this profile.
    Store(AppProfile),
    /// Every field is empty: the APP's entry is removed.
    Remove,
}

/// Why an update is refused.
#[derive(Debug, Clone, Copy, PartialEq, Eq)]
pub enum AppProfileError {
    /// The APP id is empty.
    EmptyAppId,
}

/// A field as stored: an empty text counts as absent.
pub open spec fn non_empty(o: Option<String>) -> Option<String> {
    match o {
        Some(s) => if s@.len() > 0 { Some(s) } else { None },
        None => None,
    }
}

fn keep_non_empty(o: Option<String>) -> (r: Option<String>)
    ensures
        r == non_empty(o),
{
    match o {
        Some(s) => if s.as_str().is_empty() { None } else { Some(s) },
        None => None,
    }
}

/// The update of APP `app_id` (whole-profile overwrite): refused for an empty
/// id; empty fields are cleared, and a profile left with no field is removed.
pub fn app_profile_update(app_id: &str, req: PutAppProfileRequest) -> (r: Result<ProfileUpdate, AppProfileError>)
    ensures
        app_id@.len() == 0 <==> r == Err::<ProfileUpdate, AppProfileError>(AppProfileError::EmptyAppId),
        app_id@.len() > 0 ==> {
            let e = non_empty(req.expert);
            let m = non_empty(req.memory);
            let w = non_empty(req.working_dir);
            if e is None && m is None && w is None {
                r matches Ok(ProfileUpdate::Remove)
            } else {
                r matches Ok(ProfileUpdate::Store(p)) && p.expert == e && p.memory == m && p.working_dir == w
            }
        },
{
    if app_id.is_empty() {
        return Err(AppProfileError::EmptyAppId);
    }
    let expert = keep_non_empty(req.expert);
    let memory = keep_non_empty(req.memory);
    let working_dir = keep_non_empty(req.working_dir);
    if expert.is_none() && memory.is_none() && working_dir.is_none() {
        Ok(ProfileUpdate::Remove)
    } else {
        Ok(ProfileUpdate::Store(AppProfile { expert, memory, working_dir }))
    }
}

/// A connected MCP server as the settings page lists it.
#[derive(Debug, Clone)]
pub struct McpServerStatus {
    pub name: String,
    /// `stdio` or `http`.
    pub transport: String,
    /// The negotiated protocol version.
    pub protocol_version: String,
    /// How many of the exposed tools are the server's.
    pub tool_count: usize,
}

pub open spec fn transport_text(t: McpTransportKind) -> Seq<char> {
    match t {
        McpTransportKind::Stdio => "stdio"@,
        McpTransportKind::Http => "http"@,
    }
}

/// How many tools name `server` as theirs.
pub open spec fn tools_of(tool_servers: Seq<Seq<char>>, server: Seq<char>) -> nat
    decreases tool_servers.len(),
{
    if tool_servers.len() == 0 {
        0
    } else {
        tools_of(tool_servers.drop_last(), server) + if tool_servers.last() == server { 1nat } else { 0nat }
    }
}

proof fn lemma_tools_of_bound(tool_servers: Seq<Seq<char>>, server: Seq<char>)
    ensures
        tools_of(tool_servers, server) <= tool_servers.len(),
    decreases tool_servers.len(),
{
    if tool_servers.len() > 0 {
        lemma_tools_of_bound(tool_servers.drop_last(), server);
    }
}

fn transport_name(t: McpTransportKind) -> (r: String)
    ensures
        r@ == transport_text(t),
{
    match t {
        McpTransportKind::Stdio => {
            proof { reveal_strlit("stdio"); }
            "stdio".to_owned()
        },
        McpTransportKind::Http => {
            proof { reveal_strlit("http"); }
            "http".to_owned()
        },
    }
}

/// The status list: per server (name, transport, protocol version), in order,
/// with the count of `tool_servers` entries (each tool's server) that name it.
pub fn server_statuses(servers: &Vec<(String, McpTransportKind, String)>, tool_servers: &Vec<String>) -> (r: Vec<McpServerStatus>)
    ensures
        r@.len() == servers@.len(),
        forall|i: int| 0 <= i < r@.len() ==> {
            &&& (#[trigger] r@[i]).name@ == servers@[i].0@
            &&& r@[i].transport@ == transport_text(servers@[i].1)
            &&& r@[i].protocol_version@ == servers@[i].2@
            &&& r@[i].tool_count == tools_of(tool_servers@.map_values(|t: String| t@), servers@[i].0@)
        },
{
    let ghost ts = tool_servers@.map_values(|t: String| t@);
    let mut r: Vec<McpServerStatus> = Vec::new();
    let mut i: usize = 0;
    while i < servers.len()
        invariant
            i <= servers@.len(),
            ts == tool_servers@.map_values(|t: String| t@),
            r@.len() == i,
            forall|k: int| 0 <= k < i ==> {
                &&& (#[trigger] r@[k]).name@ == servers@[k].0@
                &&& r@[k].transport@ == transport_text(servers@[k].1)
                &&& r@[k].protocol_version@ == servers@[k].2@
                &&& r@[k].tool_count == tools_of(ts, servers@[k].0@)
            },
        decreases servers@.len() - i,
    {
        let name = &servers[i].0;
        let mut count: usize = 0;
        let mut j: usize = 0;
        while j < tool_servers.len()
            invariant
                j <= tool_servers@.len(),
                ts == tool_servers@.map_values(|t: String| t@),
                count == tools_of(ts.take(j as int), name@),
            decreases tool_servers@.len() - j,
        {
            proof {
                assert(ts.take(j + 1).drop_last() =~= ts.take(j as int));
                assert(ts.take(j + 1).last() == tool_servers@[j as int]@);
                lemma_tools_of_bound(ts.take(j as int), name@);
            }
            if same_text(tool_servers[j].as_str(), name.as_str()) {
                count += 1;
            }
            j += 1;
        }
        proof { assert(ts.take(j as int) =~= ts); }
        r.push(McpServerStatus {
            name: name.clone(),
            transport: transport_name(servers[i].1),
            protocol_version: servers[i].2.clone(),
            tool_count: count,
        });
        i += 1;
    }
    r
}

/// Whether a stored server keeps its place next to `name`'s new entry.
pub open spec fn other_name(name: Seq<char>) -> spec_fn(McpServerConfig) -> bool {
    |s: McpServerConfig| s.name@ != name
}

/// The stored server list after connecting `config`: entries of the same name
/// dropped, the others in order, `config` last.
pub fn upsert_server(servers: Vec<McpServerConfig>, config: McpServerConfig) -> (r: Vec<McpServerConfig>)
    ensures
        r@ == servers@.filter(other_name(config.name@)).push(config),
{
    let ghost s0 = servers@;
    let ghost p = other_name(config.name@);
    let mut rest = servers;
    let mut r: Vec<McpServerConfig> = Vec::new();
    let ghost mut k: int = 0;
    while rest.len() > 0
        invariant
            0 <= k <= s0.len(),
            rest@ == s0.skip(k),
            r@ == s0.take(k).filter(p),
            p == other_name(config.name@),
        decreases rest@.len(),
    {
        let s = rest.remove(0);
        proof {
            assert(s0.take(k + 1) =~= s0.take(k).push(s));
            s0.take(k).lemma_filter_push(s, p);
        }
        if !same_text(s.name.as_str(), config.name.as_str()) {
            r.push(s);
        }
        proof {
            assert(s0.skip(k + 1) =~= s0.skip(k).remove(0));
            k = k + 1;
        }
    }
    proof { assert(s0.take(k) =~= s0); }
    r.push(config);
    r
}

/// One source's counters in a plugin's quota file.
#[derive(Debug, Clone, Copy, PartialEq, Eq)]
pub struct QuotaCounter {
    /// The source is billed per call (`unit` is `calls`).
    pub per_call: bool,
    pub total: i64,
    pub used: i64,
    pub calls_today: i64,
}

/// A successful test of a per-call source spends one call: `used` grows by
/// one while under a positive `total`; every test counts toward today.
pub fn bump_quota(c: QuotaCounter) -> (r: QuotaCounter)
    requires
        c.calls_today < i64::MAX,
    ensures
        r.per_call == c.per_call,
        r.total == c.total,
        r.used == if c.per_call && c.total > 0 && c.used < c.total { c.used + 1 } else { c.used as int },
        r.calls_today == c.calls_today + 1,
{
    let used = if c.per_call && c.total > 0 && c.used < c.total { c.used + 1 } else { c.used };
    QuotaCounter { per_call: c.per_call, total: c.total, used, calls_today: c.calls_today + 1 }
}

/// A skill's scope: the APPs it is offered in.
#[derive(Debug, Clone)]
pub struct PutSkillScopeRequest {
    /// Empty, or holding `*`, means every APP.
    pub scopes: Vec<String>,
}

pub open spec fn scope_kept(s: Seq<char>) -> bool {
    trim_ws(s).len() > 0 && trim_ws(s) != "*"@
}

/// The stored scope list: the entries trimmed, blanks and `*` dropped (an
/// empty result removes the skill's entry: public).
pub open spec fn scope_list(scopes: Seq<Seq<char>>) -> Seq<Seq<char>>
    decreases scopes.len(),
{
    if scopes.len() == 0 {
        Seq::empty()
    } else {
        let r = scope_list(scopes.drop_last());
        if scope_kept(scopes.last()) { r.push(trim_ws(scopes.last())) } else { r }
    }
}

/// The scopes to store for a skill.
pub fn skill_scopes(req: &PutSkillScopeRequest) -> (r: Vec<String>)
    ensures
        r@.map_values(|s: String| s@) == scope_list(req.scopes@.map_values(|s: String| s@)),
{
    let ghost sv = req.scopes@.map_values(|s: String| s@);
    let mut r: Vec<String> = Vec::new();
    let mut i: usize = 0;
    while i < req.scopes.len()
        invariant
            i <= req.scopes@.len(),
            sv == req.scopes@.map_values(|s: String| s@),
            r@.map_values(|s: String| s@) == scope_list(sv.take(i as int)),
        decreases req.scopes@.len() - i,
    {
        proof {
            assert(sv.take(i + 1).drop_last() =~= sv.take(i as int));
            assert(sv.take(i + 1).last() == req.scopes@[i as int]@);
        }
        let t = trim_string(req.scopes[i].as_str());
        if !t.as_str().is_empty() && !same_text(t.as_str(), "*") {
            let ghost before = r@;
            r.push(t);
            proof {
                assert(r@.map_values(|s: String| s@) =~= before.map_values(|s: String| s@).push(trim_ws(sv[i as int])));
            }
        }
        i += 1;
    }
    proof {
        assert(sv.take(req.scopes@.len() as int) =~= sv);
    }
    r
}

/// Why a saved configuration is refused.
#[derive(Debug, Clone, PartialEq, Eq)]
pub enum ProviderConfigError {
    /// A provider id is blank.
    EmptyId,
    /// This id names two providers.
    DuplicateId(String),
    /// The default provider is none of the providers.
    UnknownDefault(String),
}

/// The first problem among provider ids, in order: a blank id, or an id
/// that an earlier provider already has (`true` for blank).
pub open spec fn id_problem(ids: Seq<Seq<char>>) -> Option<(bool, Seq<char>)>
    decreases ids.len(),
{
    if ids.len() == 0 {
        None
    } else {
        match id_problem(ids.drop_last()) {
            Some(p) => Some(p),
            None => {
                let x = ids.last();
                if trim_ws(x).len() == 0 {
                    Some((true, x))
                } else if ids.drop_last().contains(x) {
                    Some((false, x))
                } else {
                    None
                }
            },
        }
    }
}

fn contains_text(v: &Vec<String>, t: &str) -> (b: bool)
    ensures
        b == v@.map_values(|s: String| s@).contains(t@),
{
    let ghost sv = v@.map_values(|s: String| s@);
    let mut i: usize = 0;
    while i < v.len()
        invariant
            i <= v@.len(),
            sv == v@.map_values(|s: String| s@),
            forall|k: int| 0 <= k < i ==> sv[k] != t@,
        decreases v@.len() - i,
    {
        if same_text(v[i].as_str(), t) {
            assert(sv[i as int] == t@);
            return true;
        }
        i += 1;
    }
    false
}

/// The checks on a saved configuration's providers: ids non-blank and
/// distinct (the first problem in order is reported), then the default
/// provider, when named, among them.
pub fn validate_providers(ids: &Vec<String>, default_provider: Option<&str>) -> (r: Result<(), ProviderConfigError>)
    ensures
        ({
            let iv = ids@.map_values(|s: String| s@);
            match id_problem(iv) {
                Some((true, _)) => r == Err::<(), ProviderConfigError>(ProviderConfigError::EmptyId),
                Some((false, x)) => r matches Err(ProviderConfigError::DuplicateId(d)) && d@ == x,
                None => match default_provider {
                    Some(d) => if iv.contains(d@) {
                        r is Ok
                    } else {
                        r matches Err(ProviderConfigError::UnknownDefault(e)) && e@ == d@
                    },
                    None => r is Ok,
                },
            }
        }),
{
    let ghost iv = ids@.map_values(|s: String| s@);
    let mut i: usize = 0;
    while i < ids.len()
        invariant
            i <= ids@.len(),
            iv == ids@.map_values(|s: String| s@),
            id_problem(iv.take(i as int)) is None,
        decreases ids@.len() - i,
    {
        proof {
            assert(iv.take(i + 1).drop_last() =~= iv.take(i as int));
            assert(iv.take(i + 1).last() == ids@[i as int]@);
        }
        if trim_string(ids[i].as_str()).as_str().is_empty() {
            proof { lemma_id_problem_prefix(iv, i as int + 1); }
            return Err(ProviderConfigError::EmptyId);
        }
        let earlier = ids_before(ids, i);
        if contains_text(&earlier, ids[i].as_str()) {
            proof { lemma_id_problem_prefix(iv, i as int + 1); }
            return Err(ProviderConfigError::DuplicateId(ids[i].clone()));
        }
        i += 1;
    }
    proof { assert(iv.take(ids@.len() as int) =~= iv); }
    match default_provider {
        Some(d) => {
            if contains_text(ids, d) {
                Ok(())
            } else {
                Err(ProviderConfigError::UnknownDefault(d.to_owned()))
            }
        },
        None => Ok(()),
    }
}

fn ids_before(ids: &Vec<String>, n: usize) -> (r: Vec<String>)
    requires
        n <= ids@.len(),
    ensures
        r@.map_values(|s: String| s@) == ids@.map_values(|s: String| s@).take(n as int),
{
    let mut r: Vec<String> = Vec::new();
    let mut k: usize = 0;
    while k < n
        invariant
            k <= n <= ids@.len(),
            r@.map_values(|s: String| s@) == ids@.map_values(|s: String| s@).take(k as int),
        decreases n - k,
    {
        let ghost before = r@;
        r.push(ids[k].clone());
        proof {
            assert(r@.map_values(|s: String| s@) =~= before.map_values(|s: String| s@).push(ids@[k as int]@));
            assert(ids@.map_values(|s: String| s@).take(k + 1) =~= ids@.map_values(|s: String| s@).take(k as int).push(ids@[k as int]@));
        }
        k += 1;
    }
    r
}

/// A problem found in a prefix is the problem of the whole list.
proof fn lemma_id_problem_prefix(ids: Seq<Seq<char>>, n: int)
    requires
        0 <= n <= ids.len(),
        id_problem(ids.take(n)) is Some,
    ensures
        id_problem(ids) == id_problem(ids.take(n)),
    decreases ids.len() - n,
{
    if n < ids.len() {
        assert(ids.take(n + 1).drop_last() =~= ids.take(n));
        lemma_id_problem_prefix(ids, n + 1);
    } else {
        assert(ids.take(n) =~= ids);
    }
}

} // verus!
