//! Role injection: the active role's prompt from `roles.json` appended to the
//! request's system message (read only; a missing, broken or inactive file
//! injects nothing).
use vstd::prelude::*;

use crate::json::{json_node_of, member, member_of, object_members, parse_json_node, str_of_text, text_str, JsonNode, JsonNodeView};
use crate::payload::{appends_or_inserts, plan_append_or_insert, Injection, PayloadMessage};
use crate::text::{chars_of, push_str_chars, string_from_chars, trim_string, trim_ws};

verus! {

/// The roles file's name under the app directory.
pub const ROLES_FILE: &'static str = "roles.json";

/// Most characters of a role prompt injected.
pub const MAX_ROLE_PROMPT_CHARS: usize = 2000;

/// One role as stored (fields that are not strings read as absent).
#[derive(Debug, Clone)]
pub struct RoleEntry {
    pub id: Option<String>,
    pub name: Option<String>,
    pub prompt: Option<String>,
}

/// The roles file: the active id (absent when not a string) and the roles
/// (absent when not an array).
#[derive(Debug, Clone)]
pub struct RolesFile {
    pub active: Option<String>,
    pub roles: Option<Vec<RoleEntry>>,
}

/// Injects the active role into requests; reads `path` on each request.
#[derive(Debug, Clone)]
pub struct RoleInjector {
    path: String,
}

impl RoleInjector {
    pub closed spec fn path_view(&self) -> Seq<char> {
        self.path@
    }

    /// An injector reading `path` (the app directory's `roles.json`).
    pub fn new(path: String) -> (r: Self)
        ensures
            r.path_view() == path@,
    {
        RoleInjector { path }
    }

    /// The file it reads.
    pub fn path(&self) -> (r: &str)
        ensures
            r@ == self.path_view(),
    {
        self.path.as_str()
    }
}

pub open spec fn opt_text(o: Option<String>) -> Option<Seq<char>> {
    match o {
        Some(s) => Some(s@),
        None => None,
    }
}

/// Index of the first role whose id is `id`.
pub open spec fn role_index(rs: Seq<RoleEntry>, id: Seq<char>) -> Option<int>
    decreases rs.len(),
{
    if rs.len() == 0 {
        None
    } else if opt_text(rs[0].id) == Some(id) {
        Some(0)
    } else {
        match role_index(rs.skip(1), id) {
            Some(i) => Some(i + 1),
            None => None,
        }
    }
}

/// The active role's (name, prompt): the active id is non-empty, the first
/// role with that id has a name and a prompt that is not blank; the prompt is
/// trimmed and cut to 2000 characters.
pub open spec fn active_role_spec(f: RolesFile) -> Option<(Seq<char>, Seq<char>)> {
    match f.active {
        None => None,
        Some(a) => if a@.len() == 0 {
            None
        } else {
            match f.roles {
                None => None,
                Some(rs) => match role_index(rs@, a@) {
                    None => None,
                    Some(i) => match (rs@[i].name, rs@[i].prompt) {
                        (Some(n), Some(p)) => {
                            let t = trim_ws(p@);
                            if t.len() == 0 {
                                None
                            } else {
                                Some((n@, t.take(if t.len() < 2000 { t.len() as int } else { 2000int })))
                            }
                        },
                        _ => None,
                    },
                },
            }
        },
    }
}

proof fn lemma_role_index(rs: Seq<RoleEntry>, id: Seq<char>)
    ensures
        role_index(rs, id) matches Some(i) ==> 0 <= i < rs.len() && opt_text(rs[i].id) == Some(id)
            && forall|j: int| 0 <= j < i ==> opt_text(#[trigger] rs[j].id) != Some(id),
        role_index(rs, id) is None ==> forall|j: int| 0 <= j < rs.len() ==> opt_text(#[trigger] rs[j].id) != Some(id),
    decreases rs.len(),
{
    if rs.len() > 0 && opt_text(rs[0].id) != Some(id) {
        lemma_role_index(rs.skip(1), id);
        assert forall|j: int| 1 <= j < rs.len() implies rs[j] == rs.skip(1)[j - 1] by {}
    }
}

/// The active role of a roles file, if any.
pub fn active_role(f: &RolesFile) -> (r: Option<(String, String)>)
    ensures
        match (r, active_role_spec(*f)) {
            (Some((n, p)), Some((n2, p2))) => n@ == n2 && p@ == p2,
            (None, None) => true,
            _ => false,
        },
{
    let a = match &f.active {
        Some(a) => a,
        None => return None,
    };
    if a.as_str().is_empty() {
        return None;
    }
    let rs = match &f.roles {
        Some(rs) => rs,
        None => return None,
    };
    proof { lemma_role_index(rs@, a@); }
    let mut k: usize = 0;
    while k < rs.len()
        invariant
            k <= rs@.len(),
            f.active matches Some(x) && x@ == a@,
            a@.len() > 0,
            f.roles matches Some(v) && v@ == rs@,
            forall|j: int| 0 <= j < k ==> opt_text(#[trigger] rs@[j].id) != Some(a@),
            role_index(rs@, a@) matches Some(i) ==> 0 <= i < rs@.len() && opt_text(rs@[i].id) == Some(a@)
                && forall|j: int| 0 <= j < i ==> opt_text(#[trigger] rs@[j].id) != Some(a@),
            role_index(rs@, a@) is None ==> forall|j: int| 0 <= j < rs@.len() ==> opt_text(#[trigger] rs@[j].id) != Some(a@),
        decreases rs@.len() - k,
    {
        let hit = match &rs[k].id {
            Some(id) => crate::text::same_text(id.as_str(), a.as_str()),
            None => false,
        };
        if hit {
            assert(role_index(rs@, a@) == Some(k as int));
            let name = match &rs[k].name {
                Some(n) => n,
                None => return None,
            };
            let prompt = match &rs[k].prompt {
                Some(p) => p,
                None => return None,
            };
            let t = trim_string(prompt.as_str());
            if t.as_str().is_empty() {
                return None;
            }
            let tc = chars_of(t.as_str());
            let cut = crate::hex::take_chars(&tc, MAX_ROLE_PROMPT_CHARS);
            return Some((name.clone(), string_from_chars(cut.as_slice())));
        }
        k += 1;
    }
    None
}

/// The block appended for a role: a blank line, `[当前角色：<name>]`, then the
/// prompt on its own line.
pub fn role_block(name: &str, prompt: &str) -> (r: String)
    ensures
        r@ == "\n\n[当前角色："@ + name@ + "]\n"@ + prompt@,
{
    let mut s = String::new();
    push_str_chars(&mut s, "\n\n[当前角色：");
    push_str_chars(&mut s, name);
    push_str_chars(&mut s, "]\n");
    push_str_chars(&mut s, prompt);
    s
}

/// The edit that injects the active role into a request: its block appended
/// to (or inserted as) the system message; nothing when no role is active.
pub fn role_injection(f: &RolesFile, ms: &Vec<PayloadMessage>) -> (r: Injection)
    ensures
        match active_role_spec(*f) {
            None => r is Unchanged,
            Some((name, prompt)) => appends_or_inserts(ms@, "\n\n[当前角色："@ + name + "]\n"@ + prompt, r),
        },
{
    match active_role(f) {
        None => Injection::Unchanged,
        Some((name, prompt)) => {
            let block = role_block(name.as_str(), prompt.as_str());
            plan_append_or_insert(ms, block.as_str())
        },
    }
}

/// A role as read from the JSON text of an array item: its `id`, `name` and
/// `prompt` strings (all absent when the item is not an object).
pub open spec fn role_entry_spec(t: Seq<char>) -> (Option<Seq<char>>, Option<Seq<char>>, Option<Seq<char>>) {
    match object_members(t) {
        Some(ms) => (str_at(ms, "id"@), str_at(ms, "name"@), str_at(ms, "prompt"@)),
        None => (None, None, None),
    }
}

pub open spec fn str_at(ms: Seq<(Seq<char>, Seq<char>)>, key: Seq<char>) -> Option<Seq<char>> {
    match member(ms, key) {
        Some(t) => text_str(t),
        None => None,
    }
}

pub open spec fn role_entry_view(e: RoleEntry) -> (Option<Seq<char>>, Option<Seq<char>>, Option<Seq<char>>) {
    (opt_text(e.id), opt_text(e.name), opt_text(e.prompt))
}

/// The roles file a JSON text holds: `None` when it is not JSON; otherwise
/// the `active` string and the `roles` array's items (each absent when the
/// document is not an object or the member has another type).
pub open spec fn roles_file_spec(text: Seq<char>) -> Option<(Option<Seq<char>>, Option<Seq<(Option<Seq<char>>, Option<Seq<char>>, Option<Seq<char>>)>>)> {
    match json_node_of(text) {
        Err(_) => None,
        Ok(JsonNodeView::Object(ms)) => Some((
            str_at(ms, "active"@),
            match member(ms, "roles"@) {
                Some(t) => match json_node_of(t) {
                    Ok(JsonNodeView::Array(items)) => Some(items.map_values(|it: Seq<char>| role_entry_spec(it))),
                    _ => None,
                },
                None => None,
            },
        )),
        Ok(_) => Some((None, None)),
    }
}

fn str_member(ms: &Vec<(String, String)>, key: &str) -> (r: Option<String>)
    ensures
        opt_text(r) == str_at(crate::json::member_views(ms@), key@),
{
    match member_of(ms, key) {
        Some(t) => str_of_text(t.as_str()),
        None => None,
    }
}

fn role_entry_of(t: &str) -> (r: RoleEntry)
    ensures
        role_entry_view(r) == role_entry_spec(t@),
{
    match parse_json_node(t) {
        Ok(JsonNode::Object(ms)) => RoleEntry {
            id: str_member(&ms, "id"),
            name: str_member(&ms, "name"),
            prompt: str_member(&ms, "prompt"),
        },
        _ => RoleEntry { id: None, name: None, prompt: None },
    }
}

/// Reads `roles.json` from its text; `None` when it is not JSON.
pub fn roles_file_from_text(text: &str) -> (r: Option<RolesFile>)
    ensures
        match roles_file_spec(text@) {
            None => r is None,
            Some(v) => r matches Some(f) && opt_text(f.active) == v.0 && match (f.roles, v.1) {
                (None, None) => true,
                (Some(rs), Some(items)) => rs@.map_values(|e: RoleEntry| role_entry_view(e)) == items,
                _ => false,
            },
        },
{
    let ms = match parse_json_node(text) {
        Err(_) => return None,
        Ok(JsonNode::Object(ms)) => ms,
        Ok(_) => return Some(RolesFile { active: None, roles: None }),
    };
    let active = str_member(&ms, "active");
    let roles = match member_of(&ms, "roles") {
        Some(t) => match parse_json_node(t.as_str()) {
            Ok(JsonNode::Array(items)) => {
                let ghost iv = crate::json::string_views(items@);
                let mut rs: Vec<RoleEntry> = Vec::new();
                let mut i: usize = 0;
                while i < items.len()
                    invariant
                        i <= items@.len() == iv.len(),
                        iv == crate::json::string_views(items@),
                        rs@.map_values(|e: RoleEntry| role_entry_view(e)) == iv.take(i as int).map_values(|it: Seq<char>| role_entry_spec(it)),
                    decreases items@.len() - i,
                {
                    let ghost before = rs@;
                    rs.push(role_entry_of(items[i].as_str()));
                    proof {
                        assert(rs@.map_values(|e: RoleEntry| role_entry_view(e)) =~= before.map_values(|e: RoleEntry| role_entry_view(e)).push(role_entry_spec(iv[i as int])));
                        assert(iv.take(i + 1).map_values(|it: Seq<char>| role_entry_spec(it)) =~= iv.take(i as int).map_values(|it: Seq<char>| role_entry_spec(it)).push(role_entry_spec(iv[i as int])));
                    }
                    i += 1;
                }
                proof { assert(iv.take(i as int) =~= iv); }
                Some(rs)
            },
            _ => None,
        },
        None => None,
    };
    Some(RolesFile { active, roles })
}

} // verus!
