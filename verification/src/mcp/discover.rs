//! Discovery of standard `mcpServers` files: where they are looked for, and
//! how one entry becomes a server configuration (its transport, then the
//! configuration's own checks).
use std::collections::BTreeMap;

use vstd::prelude::*;

use super::config::{missing_or_empty, valid_server_name, validation_result, McpServerConfig, McpTransportKind};
use crate::json::{
    json_node_of, member, member_of, member_views, object_members, opt_seq, parse_json_node, str_of_text, string_views, text_str,
    JsonNode, JsonNodeView,
};
use crate::text::{chars_of, same_text, text_is};

verus! {

/// Where a discovered configuration came from.
#[derive(Debug, Clone, Copy, PartialEq, Eq, Structural)]
pub enum McpConfigSource {
    /// The project's `.mcp.json`.
    Project,
    /// `~/.agents/mcp.json`.
    Agents,
    /// `~/.config/mcp/mcp.json`.
    Config,
}

/// The project-level file.
pub const PROJECT_MCP_FILE: &'static str = ".mcp.json";

/// The user-level file of the agents ecosystem (under the home directory).
pub const AGENTS_MCP_FILE: &'static str = "agents/mcp.json";

/// The user-level file of the mcp adapter (under the home directory).
pub const CONFIG_MCP_FILE: &'static str = "config/mcp/mcp.json";

/// The names of discovered servers.
pub open spec fn names_of(found: Seq<(McpServerConfig, McpConfigSource)>) -> Seq<Seq<char>> {
    found.map_values(|f: (McpServerConfig, McpConfigSource)| f.0.name@)
}

/// The discovered servers with later entries of a name already seen dropped
/// (files are read highest priority first, so the first one wins).
pub open spec fn first_by_name(found: Seq<(McpServerConfig, McpConfigSource)>) -> Seq<(McpServerConfig, McpConfigSource)>
    decreases found.len(),
{
    if found.len() == 0 {
        found
    } else {
        let r = first_by_name(found.drop_last());
        if names_of(found.drop_last()).contains(found.last().0.name@) {
            r
        } else {
            r.push(found.last())
        }
    }
}

proof fn lemma_first_by_name_names(found: Seq<(McpServerConfig, McpConfigSource)>)
    ensures
        names_of(first_by_name(found)).no_duplicates(),
        names_of(first_by_name(found)).to_set() == names_of(found).to_set(),
    decreases found.len(),
{
    if found.len() > 0 {
        let init = found.drop_last();
        lemma_first_by_name_names(init);
        let r = first_by_name(init);
        let x = found.last();
        assert(names_of(found) =~= names_of(init).push(x.0.name@));
        names_of(init).lemma_push_to_set_commute(x.0.name@);
        if !names_of(init).contains(x.0.name@) {
            assert(names_of(r.push(x)) =~= names_of(r).push(x.0.name@));
            names_of(r).lemma_push_to_set_commute(x.0.name@);
            assert(!names_of(r).contains(x.0.name@)) by {
                if names_of(r).contains(x.0.name@) {
                    assert(names_of(r).to_set().contains(x.0.name@));
                    assert(names_of(init).to_set().contains(x.0.name@));
                }
            }
        } else {
            assert(names_of(init).to_set().contains(x.0.name@));
        }
    }
}

/// Discovery never yields two servers of one name, and drops no name: every
/// server named in any file is in the result once.
pub proof fn law_discovered_names_unique(found: Seq<(McpServerConfig, McpConfigSource)>)
    ensures
        names_of(first_by_name(found)).no_duplicates(),
        names_of(first_by_name(found)).to_set() == names_of(found).to_set(),
{
    lemma_first_by_name_names(found);
}

fn name_seen(seen: &Vec<String>, name: &str) -> (b: bool)
    ensures
        b == seen@.map_values(|s: String| s@).contains(name@),
{
    let ghost sv = seen@.map_values(|s: String| s@);
    let mut i: usize = 0;
    while i < seen.len()
        invariant
            i <= seen@.len(),
            sv == seen@.map_values(|s: String| s@),
            forall|k: int| 0 <= k < i ==> sv[k] != name@,
        decreases seen@.len() - i,
    {
        if same_text(seen[i].as_str(), name) {
            assert(sv[i as int] == name@);
            return true;
        }
        i += 1;
    }
    false
}

/// Merges the servers found in the files, highest priority first: a name
/// already taken by an earlier entry is skipped.
pub fn merge_discovered(found: Vec<(McpServerConfig, McpConfigSource)>) -> (r: Vec<(McpServerConfig, McpConfigSource)>)
    ensures
        r@ == first_by_name(found@),
{
    let ghost s0 = found@;
    let mut rest = found;
    let mut r: Vec<(McpServerConfig, McpConfigSource)> = Vec::new();
    let mut seen: Vec<String> = Vec::new();
    let ghost mut k: int = 0;
    while rest.len() > 0
        invariant
            0 <= k <= s0.len(),
            rest@ == s0.skip(k),
            r@ == first_by_name(s0.take(k)),
            seen@.map_values(|s: String| s@) == names_of(s0.take(k)),
        decreases rest@.len(),
    {
        let item = rest.remove(0);
        proof {
            assert(s0.take(k + 1) =~= s0.take(k).push(item));
            assert(s0.take(k + 1).drop_last() =~= s0.take(k));
        }
        let name = item.0.name.clone();
        if !name_seen(&seen, item.0.name.as_str()) {
            r.push(item);
        }
        let ghost before = seen@;
        seen.push(name);
        proof {
            assert(seen@.map_values(|s: String| s@) =~= before.map_values(|s: String| s@).push(name@));
            assert(names_of(s0.take(k + 1)) =~= names_of(s0.take(k)).push(name@));
            assert(s0.skip(k + 1) =~= s0.skip(k).remove(0));
            k = k + 1;
        }
    }
    proof { assert(s0.take(k) =~= s0); }
    r
}

/// One `mcpServers` entry, as the parser reads it (string fields that are not
/// strings read as absent; non-string list items and map values dropped).
#[derive(Debug, Clone)]
pub struct ServerEntry {
    /// The entry is a JSON object.
    pub is_object: bool,
    /// `type`, or `transport` when `type` is absent.
    pub entry_type: Option<String>,
    pub command: Option<String>,
    pub url: Option<String>,
    pub args: Vec<String>,
    pub env: BTreeMap<String, String>,
    pub headers: BTreeMap<String, String>,
    pub scopes: Vec<String>,
}

/// Why an entry is skipped.
#[derive(Debug, Clone, PartialEq, Eq)]
pub enum EntryError {
    /// The entry is not an object.
    NotAnObject,
    /// Legacy SSE, which the client does not speak.
    SseDeprecated,
    /// WebSocket transport.
    WsUnsupported,
    /// Another transport name.
    UnknownTransport(String),
    /// Neither a command nor a url.
    NoEndpoint,
    /// The configuration's own check failed, with its message.
    Invalid(String),
}

/// The transport an entry asks for: stdio for `stdio` or no type with a
/// command; http for `http` or no type with a url; `sse`, `ws` and other names
/// are refused.
pub open spec fn transport_spec(entry_type: Option<Seq<char>>, has_command: bool, has_url: bool) -> Result<McpTransportKind, EntryError> {
    match entry_type {
        Some(t) => if t == "stdio"@ && has_command {
            Ok(McpTransportKind::Stdio)
        } else if t == "http"@ {
            Ok(McpTransportKind::Http)
        } else if t == "sse"@ {
            Err(EntryError::SseDeprecated)
        } else if t == "ws"@ {
            Err(EntryError::WsUnsupported)
        } else {
            Err(EntryError::UnknownTransport(arbitrary()))
        },
        None => if has_command {
            Ok(McpTransportKind::Stdio)
        } else if has_url {
            Ok(McpTransportKind::Http)
        } else {
            Err(EntryError::NoEndpoint)
        },
    }
}

/// Resolves an entry's transport.
pub fn resolve_transport(entry_type: Option<&str>, has_command: bool, has_url: bool) -> (r: Result<McpTransportKind, EntryError>)
    ensures
        match (r, transport_spec(match entry_type { Some(t) => Some(t@), None => None }, has_command, has_url)) {
            (Ok(a), Ok(b)) => a == b,
            (Err(EntryError::UnknownTransport(n)), Err(EntryError::UnknownTransport(_))) => entry_type matches Some(t) && n@ == t@,
            (Err(a), Err(b)) => !(b is UnknownTransport) && a == b,
            _ => false,
        },
{
    match entry_type {
        Some(t) => {
            let cs = chars_of(t);
            if text_is(&cs, "stdio") && has_command {
                Ok(McpTransportKind::Stdio)
            } else if text_is(&cs, "http") {
                Ok(McpTransportKind::Http)
            } else if text_is(&cs, "sse") {
                Err(EntryError::SseDeprecated)
            } else if text_is(&cs, "ws") {
                Err(EntryError::WsUnsupported)
            } else {
                Err(EntryError::UnknownTransport(t.to_owned()))
            }
        },
        None => {
            if has_command {
                Ok(McpTransportKind::Stdio)
            } else if has_url {
                Ok(McpTransportKind::Http)
            } else {
                Err(EntryError::NoEndpoint)
            }
        },
    }
}

/// An entry's configuration before environment expansion: the transport as
/// resolved, the entry's fields, no tool timeout; refused when the entry is
/// not an object, its transport is refused, or the configuration's own check
/// fails.
pub fn server_config_from_entry(name: &str, entry: ServerEntry) -> (r: Result<McpServerConfig, EntryError>)
    ensures
        !entry.is_object ==> r == Err::<McpServerConfig, EntryError>(EntryError::NotAnObject),
        entry.is_object ==> match transport_spec(
            match entry.entry_type { Some(t) => Some(t@), None => None },
            entry.command is Some,
            entry.url is Some,
        ) {
            Err(e) => r matches Err(f) && (e is UnknownTransport ==> f is UnknownTransport) && (!(e is UnknownTransport) ==> f == e)
                && (e is UnknownTransport ==> (f matches EntryError::UnknownTransport(n) && entry.entry_type matches Some(t) && n@ == t@)),
            Ok(t) => {
                let c = McpServerConfig {
                    name: arbitrary(),
                    transport: t,
                    command: entry.command,
                    args: entry.args,
                    env: entry.env,
                    url: entry.url,
                    headers: entry.headers,
                    tool_timeout_ms: None,
                    scopes: entry.scopes,
                };
                match r {
                    Ok(cfg) => cfg.name@ == name@ && cfg.transport == t && cfg.command == entry.command
                        && cfg.args == entry.args && cfg.env == entry.env && cfg.url == entry.url
                        && cfg.headers == entry.headers && cfg.tool_timeout_ms is None
                        && cfg.scopes == entry.scopes && validation_result(cfg) is Ok,
                    Err(EntryError::Invalid(m)) => exists|n: String| n@ == name@
                        && validation_result(McpServerConfig { name: n, ..c }) == Err::<(), Seq<char>>(m@),
                    _ => false,
                }
            },
        },
{
    if !entry.is_object {
        return Err(EntryError::NotAnObject);
    }
    let transport = match &entry.entry_type {
        Some(t) => resolve_transport(Some(t.as_str()), entry.command.is_some(), entry.url.is_some()),
        None => resolve_transport(None, entry.command.is_some(), entry.url.is_some()),
    };
    let transport = match transport {
        Ok(t) => t,
        Err(e) => return Err(e),
    };
    let config = McpServerConfig {
        name: name.to_owned(),
        transport,
        command: entry.command,
        args: entry.args,
        env: entry.env,
        url: entry.url,
        headers: entry.headers,
        tool_timeout_ms: None,
        scopes: entry.scopes,
    };
    match config.validate() {
        Ok(()) => Ok(config),
        Err(m) => {
            assert(config == McpServerConfig { name: config.name, ..config });
            Err(EntryError::Invalid(m))
        },
    }
}

/// The scheme and host of a URL as `url::Url::parse` reads them; `None` when
/// it does not parse.
pub uninterp spec fn url_parts(u: Seq<char>) -> Option<(Seq<char>, Option<Seq<char>>)>;

/// `url::Url::parse`, then `scheme()` and `host_str()`. Trusted: the parts
/// are the named ones.
#[verifier::external_body]
fn parse_url_parts(u: &str) -> (r: Option<(String, Option<String>)>)
    ensures
        match (r, url_parts(u@)) {
            (Some((s, h)), Some((s2, h2))) => s@ == s2 && match (h, h2) {
                (Some(a), Some(b)) => a@ == b,
                (None, None) => true,
                _ => false,
            },
            (None, None) => true,
            _ => false,
        },
{
    match url::Url::parse(u) {
        Ok(p) => Some((p.scheme().to_string(), p.host_str().map(|h| h.to_string()))),
        Err(_) => None,
    }
}

/// What the URL check of an http server decides before looking at addresses.
#[derive(Debug, Clone, PartialEq, Eq)]
pub enum UrlVerdict {
    /// Not a URL.
    Invalid,
    /// Neither http nor https.
    NotHttp,
    /// No host.
    NoHost,
    /// `localhost` (any case): allowed.
    Localhost,
    /// Allowed unless this host, brackets stripped, is a private, link-local
    /// or unspecified address.
    CheckAddress(String),
}

/// `s` without leading `[` and trailing `]` characters.
pub open spec fn strip_brackets(s: Seq<char>) -> Seq<char>
    decreases s.len(),
{
    if s.len() > 0 && s[0] == '[' {
        strip_brackets(s.skip(1))
    } else if s.len() > 0 && s.last() == ']' {
        strip_brackets(s.drop_last())
    } else {
        s
    }
}

pub open spec fn ascii_lower(c: char) -> char {
    if 'A' <= c <= 'Z' { ((c as u32) + 32) as char } else { c }
}

/// Equal ignoring ASCII case.
pub open spec fn eq_ignore_ascii_case(a: Seq<char>, b: Seq<char>) -> bool {
    a.len() == b.len() && forall|i: int| 0 <= i < a.len() ==> ascii_lower(#[trigger] a[i]) == ascii_lower(b[i])
}

pub open spec fn url_verdict(u: Seq<char>) -> UrlVerdict {
    match url_parts(u) {
        None => UrlVerdict::Invalid,
        Some((scheme, host)) => if !(scheme == "http"@ || scheme == "https"@) {
            UrlVerdict::NotHttp
        } else {
            match host {
                None => UrlVerdict::NoHost,
                Some(h) => if eq_ignore_ascii_case(strip_brackets(h), "localhost"@) {
                    UrlVerdict::Localhost
                } else {
                    UrlVerdict::CheckAddress(arbitrary())
                },
            }
        },
    }
}

pub(crate) fn lower_ascii(c: char) -> (r: char)
    ensures
        r == ascii_lower(c),
{
    if 'A' <= c && c <= 'Z' {
        ((c as u32) + 32) as u8 as char
    } else {
        c
    }
}

/// The first part of the SSRF check of an http server's url: it must parse,
/// be http(s) and have a host; `localhost` passes; any other host goes on to
/// the address check.
pub fn classify_http_url(u: &str) -> (r: UrlVerdict)
    ensures
        match (r, url_verdict(u@)) {
            (UrlVerdict::CheckAddress(h), UrlVerdict::CheckAddress(_)) =>
                url_parts(u@) matches Some((_, Some(host))) && h@ == strip_brackets(host),
            (a, b) => !(b is CheckAddress) && a == b,
        },
{
    let (scheme, host) = match parse_url_parts(u) {
        None => return UrlVerdict::Invalid,
        Some(p) => p,
    };
    let sc = chars_of(scheme.as_str());
    if !(text_is(&sc, "http") || text_is(&sc, "https")) {
        return UrlVerdict::NotHttp;
    }
    let h = match host {
        None => return UrlVerdict::NoHost,
        Some(h) => h,
    };
    let hc = chars_of(h.as_str());
    let mut lo: usize = 0;
    let mut hi: usize = hc.len();
    assert(hc@.subrange(0, hc@.len() as int) =~= hc@);
    while lo < hi && hc[lo] == '['
        invariant
            lo <= hi == hc@.len(),
            strip_brackets(hc@) == strip_brackets(hc@.subrange(lo as int, hi as int)),
        decreases hi - lo,
    {
        proof {
            assert(hc@.subrange(lo as int, hi as int).skip(1) =~= hc@.subrange(lo + 1, hi as int));
        }
        lo += 1;
    }
    while lo < hi && hc[hi - 1] == ']'
        invariant
            lo <= hi <= hc@.len(),
            strip_brackets(hc@) == strip_brackets(hc@.subrange(lo as int, hi as int)),
            lo < hi ==> hc@[lo as int] != '[',
        decreases hi - lo,
    {
        proof {
            let t = hc@.subrange(lo as int, hi as int);
            assert(t[0] != '[');
            assert(t.drop_last() =~= hc@.subrange(lo as int, hi - 1));
        }
        hi -= 1;
    }
    proof {
        let t = hc@.subrange(lo as int, hi as int);
        assert(!(t.len() > 0 && t[0] == '['));
        assert(!(t.len() > 0 && t.last() == ']'));
    }
    let mut bare: Vec<char> = Vec::new();
    let mut k = lo;
    while k < hi
        invariant
            lo <= k <= hi <= hc@.len(),
            bare@ == hc@.subrange(lo as int, k as int),
        decreases hi - k,
    {
        bare.push(hc[k]);
        k += 1;
        proof { assert(bare@ =~= hc@.subrange(lo as int, k as int)); }
    }
    let target = chars_of("localhost");
    let mut same = bare.len() == target.len();
    let mut i: usize = 0;
    while same && i < bare.len()
        invariant
            same ==> bare@.len() == target@.len(),
            i <= bare@.len(),
            same ==> forall|j: int| 0 <= j < i ==> ascii_lower(#[trigger] bare@[j]) == ascii_lower(target@[j]),
            !same ==> !eq_ignore_ascii_case(bare@, target@),
        decreases bare@.len() - i,
    {
        if lower_ascii(bare[i]) != lower_ascii(target[i]) {
            same = false;
        }
        i += 1;
    }
    if same {
        UrlVerdict::Localhost
    } else {
        UrlVerdict::CheckAddress(crate::text::string_from_chars(bare.as_slice()))
    }
}

/// The string under `key`, if there is one.
pub open spec fn field_str(ms: Seq<(Seq<char>, Seq<char>)>, key: Seq<char>) -> Option<Seq<char>> {
    match member(ms, key) {
        Some(t) => text_str(t),
        None => None,
    }
}

/// An entry's transport name: `type` when present (if it is a string), else
/// `transport`.
pub open spec fn entry_type_field(ms: Seq<(Seq<char>, Seq<char>)>) -> Option<Seq<char>> {
    match member(ms, "type"@) {
        Some(t) => text_str(t),
        None => field_str(ms, "transport"@),
    }
}

/// The strings among JSON texts, in order.
pub open spec fn strings_among(items: Seq<Seq<char>>) -> Seq<Seq<char>>
    decreases items.len(),
{
    if items.len() == 0 {
        Seq::empty()
    } else {
        let r = strings_among(items.drop_last());
        match text_str(items.last()) {
            Some(s) => r.push(s),
            None => r,
        }
    }
}

/// The strings of the array under `key` (none when it is absent or not an
/// array).
pub open spec fn field_list(ms: Seq<(Seq<char>, Seq<char>)>, key: Seq<char>) -> Seq<Seq<char>> {
    match member(ms, key) {
        Some(t) => match json_node_of(t) {
            Ok(JsonNodeView::Array(items)) => strings_among(items),
            _ => Seq::empty(),
        },
        None => Seq::empty(),
    }
}

/// The configuration check over the fields it reads.
pub open spec fn config_check(name: Seq<char>, t: McpTransportKind, command: Option<Seq<char>>, url: Option<Seq<char>>) -> Result<(), Seq<char>> {
    if name.len() == 0 {
        Err("server 名不能为空"@)
    } else if !valid_server_name(name) {
        Err("server 名 `"@ + name + "` 含非法字符（限字母/数字/_/-）"@)
    } else if t == McpTransportKind::Stdio && (command is None || command.unwrap().len() == 0) {
        Err("server `"@ + name + "`（stdio）缺少 command"@)
    } else if t == McpTransportKind::Http && (url is None || url.unwrap().len() == 0) {
        Err("server `"@ + name + "`（http）缺少 url"@)
    } else {
        Ok(())
    }
}

proof fn lemma_config_check(c: McpServerConfig)
    ensures
        validation_result(c) == config_check(c.name@, c.transport, opt_seq(c.command), opt_seq(c.url)),
{
}

/// What becomes of the entry `name` with JSON text `e`: refused when it is
/// not an object or its transport is refused or the configuration check
/// fails; otherwise a configuration with the entry's fields (its `env` and
/// `headers` maps hold the entry's string members).
pub open spec fn entry_outcome_ok(name: Seq<char>, e: Seq<char>, out: Result<McpServerConfig, EntryError>) -> bool {
    match object_members(e) {
        None => out == Err::<McpServerConfig, EntryError>(EntryError::NotAnObject),
        Some(ms) => {
            let ty = entry_type_field(ms);
            let cmd = field_str(ms, "command"@);
            let url = field_str(ms, "url"@);
            match transport_spec(ty, cmd is Some, url is Some) {
                Err(err) => if err is UnknownTransport {
                    out matches Err(EntryError::UnknownTransport(n)) && ty == Some(n@)
                } else {
                    out == Err::<McpServerConfig, EntryError>(err)
                },
                Ok(t) => match config_check(name, t, cmd, url) {
                    Err(m) => out matches Err(EntryError::Invalid(x)) && x@ == m,
                    Ok(()) => out matches Ok(cfg) && cfg.name@ == name && cfg.transport == t
                        && opt_seq(cfg.command) == cmd && opt_seq(cfg.url) == url
                        && string_views(cfg.args@) == field_list(ms, "args"@)
                        && string_views(cfg.scopes@) == field_list(ms, "scopes"@)
                        && cfg.tool_timeout_ms is None,
                },
            }
        },
    }
}

/// The configurations among the outcomes, in order.
pub open spec fn accepted(outs: Seq<Result<McpServerConfig, EntryError>>) -> Seq<McpServerConfig>
    decreases outs.len(),
{
    if outs.len() == 0 {
        Seq::empty()
    } else {
        let r = accepted(outs.drop_last());
        match outs.last() {
            Ok(c) => r.push(c),
            Err(_) => r,
        }
    }
}

/// The refused entries with their errors, in order.
pub open spec fn refused(names: Seq<Seq<char>>, outs: Seq<Result<McpServerConfig, EntryError>>) -> Seq<(Seq<char>, EntryError)>
    decreases outs.len(),
{
    if outs.len() == 0 || names.len() != outs.len() {
        Seq::empty()
    } else {
        let r = refused(names.drop_last(), outs.drop_last());
        match outs.last() {
            Ok(_) => r,
            Err(e) => r.push((names.last(), e)),
        }
    }
}

/// Why an `mcpServers` file is refused as a whole.
#[derive(Debug, Clone, PartialEq, Eq)]
pub enum ServersFileError {
    /// Not JSON; `serde_json`'s message.
    Json(String),
    /// No top-level `mcpServers` object.
    MissingServers,
}

impl ServersFileError {
    /// The message logged for the file.
    pub fn message(&self) -> (s: String)
        ensures
            s@ == match self {
                ServersFileError::Json(m) => "JSON 解析失败: "@ + m@,
                ServersFileError::MissingServers => "缺少顶层 `mcpServers` 对象"@,
            },
    {
        match self {
            ServersFileError::Json(m) => {
                let mut s = "JSON 解析失败: ".to_owned();
                crate::text::push_str_chars(&mut s, m.as_str());
                s
            },
            ServersFileError::MissingServers => "缺少顶层 `mcpServers` 对象".to_owned(),
        }
    }
}

/// The entries of an `mcpServers` file: `Err(Some(m))` when it is not JSON
/// (with `serde_json`'s message), `Err(None)` when it has no top-level
/// `mcpServers` object, else that object's members (name, entry text).
pub open spec fn servers_members(text: Seq<char>) -> Result<Seq<(Seq<char>, Seq<char>)>, Option<Seq<char>>> {
    match json_node_of(text) {
        Err(m) => Err(Some(m)),
        Ok(JsonNodeView::Object(ms)) => match member(ms, "mcpServers"@) {
            Some(t) => match object_members(t) {
                Some(servers) => Ok(servers),
                None => Err(None),
            },
            None => Err(None),
        },
        Ok(_) => Err(None),
    }
}

fn str_field(ms: &Vec<(String, String)>, key: &str) -> (r: Option<String>)
    ensures
        opt_seq(r) == field_str(member_views(ms@), key@),
{
    match member_of(ms, key) {
        Some(t) => str_of_text(t.as_str()),
        None => None,
    }
}

fn list_field(ms: &Vec<(String, String)>, key: &str) -> (r: Vec<String>)
    ensures
        string_views(r@) == field_list(member_views(ms@), key@),
{
    let mut r: Vec<String> = Vec::new();
    let t = match member_of(ms, key) {
        Some(t) => t,
        None => {
            assert(string_views(r@) =~= Seq::<Seq<char>>::empty());
            return r;
        },
    };
    let items = match parse_json_node(t.as_str()) {
        Ok(JsonNode::Array(items)) => items,
        _ => {
            assert(string_views(r@) =~= Seq::<Seq<char>>::empty());
            return r;
        },
    };
    let ghost iv = string_views(items@);
    let mut i: usize = 0;
    while i < items.len()
        invariant
            i <= items@.len() == iv.len(),
            iv == string_views(items@),
            string_views(r@) == strings_among(iv.take(i as int)),
        decreases items@.len() - i,
    {
        proof {
            assert(iv.take(i + 1).drop_last() =~= iv.take(i as int));
            assert(iv.take(i + 1).last() == items@[i as int]@);
        }
        match str_of_text(items[i].as_str()) {
            Some(s) => {
                let ghost before = r@;
                r.push(s);
                proof { assert(string_views(r@) =~= string_views(before).push(r@.last()@)); }
            },
            None => {},
        }
        i += 1;
    }
    proof { assert(iv.take(i as int) =~= iv); }
    r
}

fn map_field(ms: &Vec<(String, String)>, key: &str) -> (r: BTreeMap<String, String>) {
    let mut r: BTreeMap<String, String> = BTreeMap::new();
    if let Some(t) = member_of(ms, key) {
        if let Ok(JsonNode::Object(ps)) = parse_json_node(t.as_str()) {
            let mut i: usize = 0;
            while i < ps.len()
                decreases ps@.len() - i,
            {
                if let Some(s) = str_of_text(ps[i].1.as_str()) {
                    r.insert(ps[i].0.clone(), s);
                }
                i += 1;
            }
        }
    }
    r
}

/// The library's reading of one entry.
fn entry_of(e: &str) -> (r: ServerEntry)
    ensures
        r.is_object == (object_members(e@) is Some),
        object_members(e@) matches Some(ms) ==> {
            &&& opt_seq(r.entry_type) == entry_type_field(ms)
            &&& opt_seq(r.command) == field_str(ms, "command"@)
            &&& opt_seq(r.url) == field_str(ms, "url"@)
            &&& string_views(r.args@) == field_list(ms, "args"@)
            &&& string_views(r.scopes@) == field_list(ms, "scopes"@)
        },
{
    let ms = match parse_json_node(e) {
        Ok(JsonNode::Object(ms)) => ms,
        _ => {
            return ServerEntry {
                is_object: false,
                entry_type: None,
                command: None,
                url: None,
                args: Vec::new(),
                env: BTreeMap::new(),
                headers: BTreeMap::new(),
                scopes: Vec::new(),
            };
        },
    };
    let entry_type = match member_of(&ms, "type") {
        Some(t) => str_of_text(t.as_str()),
        None => str_field(&ms, "transport"),
    };
    ServerEntry {
        is_object: true,
        entry_type,
        command: str_field(&ms, "command"),
        url: str_field(&ms, "url"),
        args: list_field(&ms, "args"),
        env: map_field(&ms, "env"),
        headers: map_field(&ms, "headers"),
        scopes: list_field(&ms, "scopes"),
    }
}

/// One `mcpServers` entry, given as JSON text, read and checked (before
/// environment expansion).
pub fn parse_server_entry(name: &str, text: &str) -> (r: Result<McpServerConfig, EntryError>)
    ensures
        entry_outcome_ok(name@, text@, r),
{
    let entry = entry_of(text);
    let ghost ev = entry;
    let out = server_config_from_entry(name, entry);
    let ghost go = out;
    proof {
        if object_members(text@) is Some {
            match transport_spec(opt_seq(ev.entry_type), ev.command is Some, ev.url is Some) {
                Ok(t) => {
                    match go {
                        Ok(cfg) => {
                            lemma_config_check(cfg);
                        },
                        Err(EntryError::Invalid(m)) => {
                            let n = choose|n: String| n@ == name@ && validation_result(
                                McpServerConfig {
                                    name: n,
                                    transport: t,
                                    command: ev.command,
                                    args: ev.args,
                                    env: ev.env,
                                    url: ev.url,
                                    headers: ev.headers,
                                    tool_timeout_ms: None,
                                    scopes: ev.scopes,
                                },
                            ) == Err::<(), Seq<char>>(m@);
                            lemma_config_check(
                                McpServerConfig {
                                    name: n,
                                    transport: t,
                                    command: ev.command,
                                    args: ev.args,
                                    env: ev.env,
                                    url: ev.url,
                                    headers: ev.headers,
                                    tool_timeout_ms: None,
                                    scopes: ev.scopes,
                                },
                            );
                        },
                        _ => {},
                    }
                },
                Err(_) => {},
            }
        }
        assert(entry_outcome_ok(name@, text@, out));
    }
    out
}

/// Parses an `mcpServers` file: the configurations of the entries that pass,
/// in the file's member order, and the refused entries with their errors.
/// Refused as a whole when it is not JSON or has no `mcpServers` object.
pub fn parse_mcp_servers_file(text: &str) -> (r: Result<(Vec<McpServerConfig>, Vec<(String, EntryError)>), ServersFileError>)
    ensures
        match servers_members(text@) {
            Err(Some(m)) => r matches Err(ServersFileError::Json(x)) && x@ == m,
            Err(None) => r matches Err(ServersFileError::MissingServers),
            Ok(servers) => r matches Ok(res) && exists|outs: Seq<Result<McpServerConfig, EntryError>>| {
                &&& outs.len() == servers.len()
                &&& forall|k: int| 0 <= k < servers.len() ==> #[trigger] entry_outcome_ok(servers[k].0, servers[k].1, outs[k])
                &&& res.0@ == accepted(outs)
                &&& res.1@.map_values(|p: (String, EntryError)| (p.0@, p.1)) == refused(servers.map_values(|m: (Seq<char>, Seq<char>)| m.0), outs)
            },
        },
{
    let root = match parse_json_node(text) {
        Err(m) => return Err(ServersFileError::Json(m)),
        Ok(JsonNode::Object(ms)) => ms,
        Ok(_) => return Err(ServersFileError::MissingServers),
    };
    let servers_text = match member_of(&root, "mcpServers") {
        Some(t) => t,
        None => return Err(ServersFileError::MissingServers),
    };
    let servers = match parse_json_node(servers_text.as_str()) {
        Ok(JsonNode::Object(ms)) => ms,
        _ => return Err(ServersFileError::MissingServers),
    };
    let ghost sv = member_views(servers@);
    let ghost names = sv.map_values(|m: (Seq<char>, Seq<char>)| m.0);
    let ghost mut outs: Seq<Result<McpServerConfig, EntryError>> = Seq::empty();
    let mut configs: Vec<McpServerConfig> = Vec::new();
    let mut skipped: Vec<(String, EntryError)> = Vec::new();
    let mut i: usize = 0;
    while i < servers.len()
        invariant
            i <= servers@.len() == sv.len() == names.len(),
            sv == member_views(servers@),
            names == sv.map_values(|m: (Seq<char>, Seq<char>)| m.0),
            outs.len() == i,
            forall|k: int| 0 <= k < i ==> #[trigger] entry_outcome_ok(sv[k].0, sv[k].1, outs[k]),
            configs@ == accepted(outs),
            skipped@.map_values(|p: (String, EntryError)| (p.0@, p.1)) == refused(names.take(i as int), outs),
        decreases servers@.len() - i,
    {
        let name = &servers[i].0;
        let out = parse_server_entry(name.as_str(), servers[i].1.as_str());
        let ghost old_outs = outs;
        proof { outs = outs.push(out); }
        proof {
            assert(outs.drop_last() =~= old_outs);
            assert(names.take(i + 1).drop_last() =~= names.take(i as int));
            assert(names.take(i + 1).last() == name@);
        }
        match out {
            Ok(cfg) => {
                configs.push(cfg);
            },
            Err(e) => {
                let ghost before = skipped@;
                skipped.push((name.clone(), e));
                proof {
                    assert(skipped@.map_values(|p: (String, EntryError)| (p.0@, p.1)) =~= before.map_values(|p: (String, EntryError)| (p.0@, p.1)).push((name@, e)));
                }
            },
        }
        i += 1;
    }
    proof { assert(names.take(i as int) =~= names); }
    Ok((configs, skipped))
}

} // verus!
