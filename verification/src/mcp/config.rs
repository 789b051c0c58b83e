//! Configuration of one MCP server connection.
use std::collections::BTreeMap;

use vstd::prelude::*;

use crate::text::{chars_of, push_str_chars};

verus! {

/// How an MCP server is reached.
#[derive(Debug, Clone, Copy, PartialEq, Eq, Structural)]
pub enum McpTransportKind {
    /// A child process over stdio (`command` / `args` / `env`).
    Stdio,
    /// Streamable HTTP (`url` / `headers`).
    Http,
}

/// One MCP server's connection settings (the shape of an `mcpServers` entry).
#[derive(Debug, Clone)]
pub struct McpServerConfig {
    /// Unique server name (tool-name prefix; letters, digits, `_`, `-`).
    pub name: String,
    pub transport: McpTransportKind,
    /// stdio: the program to run.
    pub command: Option<String>,
    pub args: Vec<String>,
    /// Environment added for the child process.
    pub env: BTreeMap<String, String>,
    /// http: the endpoint.
    pub url: Option<String>,
    pub headers: BTreeMap<String, String>,
    /// Per-call tool timeout in milliseconds (default 60 s).
    pub tool_timeout_ms: Option<u64>,
    /// Apps the server is visible to; empty or `*` means all.
    pub scopes: Vec<String>,
}

pub open spec fn is_ascii_alnum(c: char) -> bool {
    ('a' <= c <= 'z') || ('A' <= c <= 'Z') || ('0' <= c <= '9')
}

/// A valid server-name character: ASCII letter or digit, `_` or `-`.
pub open spec fn is_name_char(c: char) -> bool {
    is_ascii_alnum(c) || c == '_' || c == '-'
}

pub open spec fn valid_server_name(s: Seq<char>) -> bool {
    forall|k: int| 0 <= k < s.len() ==> #[trigger] is_name_char(s[k])
}

pub open spec fn missing_or_empty(o: Option<String>) -> bool {
    match o {
        None => true,
        Some(s) => s@.len() == 0,
    }
}

/// What `validate` answers for a configuration.
pub open spec fn validation_result(c: McpServerConfig) -> Result<(), Seq<char>> {
    if c.name@.len() == 0 {
        Err("server 名不能为空"@)
    } else if !valid_server_name(c.name@) {
        Err("server 名 `"@ + c.name@ + "` 含非法字符（限字母/数字/_/-）"@)
    } else if c.transport == McpTransportKind::Stdio && missing_or_empty(c.command) {
        Err("server `"@ + c.name@ + "`（stdio）缺少 command"@)
    } else if c.transport == McpTransportKind::Http && missing_or_empty(c.url) {
        Err("server `"@ + c.name@ + "`（http）缺少 url"@)
    } else {
        Ok(())
    }
}

fn is_name_char_exec(c: char) -> (b: bool)
    ensures
        b == is_name_char(c),
{
    ('a' <= c && c <= 'z') || ('A' <= c && c <= 'Z') || ('0' <= c && c <= '9') || c == '_' || c == '-'
}

/// `a + middle + b` as a `String`.
pub(crate) fn framed(a: &str, middle: &str, b: &str) -> (s: String)
    ensures
        s@ == a@ + middle@ + b@,
{
    let mut s = a.to_owned();
    push_str_chars(&mut s, middle);
    push_str_chars(&mut s, b);
    s
}

fn is_missing_or_empty(o: &Option<String>) -> (b: bool)
    ensures
        b == missing_or_empty(*o),
{
    match o {
        None => true,
        Some(s) => s.as_str().is_empty(),
    }
}

impl McpServerConfig {
    /// Checks the name (non-empty, letters/digits/`_`/`-`) and that a stdio
    /// server has a command and an http server a url.
    pub fn validate(&self) -> (r: Result<(), String>)
        ensures
            match validation_result(*self) {
                Ok(()) => r is Ok,
                Err(m) => r matches Err(e) && e@ == m,
            },
    {
        if self.name.as_str().is_empty() {
            return Err("server 名不能为空".to_owned());
        }
        let cs = chars_of(self.name.as_str());
        let mut k: usize = 0;
        while k < cs.len()
            invariant
                k <= cs@.len(),
                cs@ == self.name@,
                forall|j: int| 0 <= j < k ==> #[trigger] is_name_char(cs@[j]),
            decreases cs@.len() - k,
        {
            if !is_name_char_exec(cs[k]) {
                return Err(framed("server 名 `", self.name.as_str(), "` 含非法字符（限字母/数字/_/-）"));
            }
            k += 1;
        }
        match self.transport {
            McpTransportKind::Stdio => {
                if is_missing_or_empty(&self.command) {
                    return Err(framed("server `", self.name.as_str(), "`（stdio）缺少 command"));
                }
            },
            McpTransportKind::Http => {
                if is_missing_or_empty(&self.url) {
                    return Err(framed("server `", self.name.as_str(), "`（http）缺少 url"));
                }
            },
        }
        Ok(())
    }
}

} // verus!
