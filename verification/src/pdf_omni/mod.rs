//! PDF parsing through MinerU (primary) and LlamaParse (cross-check and
//! cascade): engine and tier choice, request planning, statistics, budget,
//! cascade planning and MinerU-style post-processing.
pub mod budget;
pub mod cascade;
pub mod layout;
pub mod llamaparse;
pub mod mineru;
pub mod pdf_ops;
pub mod refine;
pub mod verify;

use vstd::prelude::*;

use crate::text::{chars_of, lowercase, text_is, to_lowercase, trim_string, trim_ws};

verus! {

/// A parsing engine (Doc2X is not offered).
#[derive(Debug, Clone, Copy, PartialEq, Eq, Structural)]
pub enum Engine {
    Mineru,
    Llamaparse,
    Auto,
}

impl Engine {
    /// The engine's name as the API spells it.
    pub fn name(&self) -> (r: &'static str)
        ensures
            r@ == engine_name(*self),
    {
        match self {
            Engine::Mineru => "mineru",
            Engine::Llamaparse => "llamaparse",
            Engine::Auto => "auto",
        }
    }
}

pub open spec fn engine_name(e: Engine) -> Seq<char> {
    match e {
        Engine::Mineru => "mineru"@,
        Engine::Llamaparse => "llamaparse"@,
        Engine::Auto => "auto"@,
    }
}

/// A LlamaParse tier (credits per page: fast 1, cost_effective 3, agentic 10,
/// agentic_plus 45). `Fast` yields no Markdown.
#[derive(Debug, Clone, Copy, PartialEq, Eq, Structural)]
pub enum Tier {
    Fast,
    CostEffective,
    Agentic,
    AgenticPlus,
}

pub open spec fn tier_rate(t: Tier) -> u64 {
    match t {
        Tier::Fast => 1,
        Tier::CostEffective => 3,
        Tier::Agentic => 10,
        Tier::AgenticPlus => 45,
    }
}

pub open spec fn tier_name(t: Tier) -> Seq<char> {
    match t {
        Tier::Fast => "fast"@,
        Tier::CostEffective => "cost_effective"@,
        Tier::Agentic => "agentic"@,
        Tier::AgenticPlus => "agentic_plus"@,
    }
}

impl Tier {
    /// Credits per page.
    pub fn rate(&self) -> (r: u64)
        ensures
            r == tier_rate(*self),
    {
        match self {
            Tier::Fast => 1,
            Tier::CostEffective => 3,
            Tier::Agentic => 10,
            Tier::AgenticPlus => 45,
        }
    }

    /// The tier's name as the API spells it.
    pub fn name(&self) -> (r: &'static str)
        ensures
            r@ == tier_name(*self),
    {
        match self {
            Tier::Fast => "fast",
            Tier::CostEffective => "cost_effective",
            Tier::Agentic => "agentic",
            Tier::AgenticPlus => "agentic_plus",
        }
    }
}

impl Default for Tier {
    /// `Agentic`: the best quality, and faster.
    fn default() -> (t: Self)
        ensures
            t == Tier::Agentic,
    {
        Tier::Agentic
    }
}

/// The `parse_pdf` tool's arguments.
#[derive(Debug, Clone)]
pub struct ParsePdfRequest {
    /// A local PDF (workspace-relative or absolute) or an http(s) URL
    /// (MinerU only).
    pub file: String,
    /// Engine; `mineru` when absent. `auto` means MinerU.
    pub engine: Option<String>,
    /// LlamaParse tier; `agentic` when absent.
    pub tier: Option<String>,
    /// Cascade enhancement (MinerU on a local file only).
    pub cascade: bool,
    /// Run the other engine too and compare.
    pub verify: bool,
    /// MinerU model version; `vlm` when absent.
    pub model_version: Option<String>,
    /// Force OCR.
    pub is_ocr: bool,
    /// Document language; `ch` when absent.
    pub language: Option<String>,
    /// Markdown output directory (workspace-relative; the root when absent).
    pub out_dir: Option<String>,
    /// Apply MinerU-style post-processing (default true).
    pub refine: bool,
}

/// The default of `refine`.
pub fn default_true() -> (b: bool)
    ensures
        b,
{
    true
}

/// The engines' API keys. `llamaparse` may hold several, comma-separated.
#[derive(Debug, Clone, Default)]
pub struct EngineKeys {
    pub mineru: String,
    pub llamaparse: String,
}

/// Markdown statistics.
#[derive(Debug, Clone, Copy, PartialEq, Eq, Default)]
pub struct MdStats {
    /// The number of characters.
    pub chars: usize,
    pub paragraphs: usize,
    pub table_rows: usize,
    pub formula_blocks: usize,
    pub inline_formulas: usize,
    pub code_blocks: usize,
}

/// Why a request cannot be planned.
#[derive(Debug, Clone, PartialEq, Eq)]
pub enum PlanError {
    /// The engine name (lower-cased) is none of mineru, llamaparse, auto.
    UnsupportedEngine(String),
    /// The tier name (lower-cased) is none of the four tiers.
    UnsupportedTier(String),
    /// MinerU is needed and its key is blank.
    MissingMineruKey,
    /// LlamaParse is needed and its keys are blank.
    MissingLlamaParseKey,
}

/// What a request resolves to before any engine runs.
#[derive(Debug, Clone, Copy, PartialEq, Eq)]
pub struct ParsePlan {
    /// The primary engine (`Auto` resolved to MinerU).
    pub engine: Engine,
    pub tier: Tier,
    /// The file is an http(s) URL.
    pub is_url: bool,
}

pub open spec fn engine_choice(name: Seq<char>) -> Option<Engine> {
    if name == "mineru"@ || name == Seq::<char>::empty() {
        Some(Engine::Mineru)
    } else if name == "llamaparse"@ {
        Some(Engine::Llamaparse)
    } else if name == "auto"@ {
        Some(Engine::Auto)
    } else {
        None
    }
}

pub open spec fn tier_choice(name: Seq<char>) -> Option<Tier> {
    if name == "fast"@ {
        Some(Tier::Fast)
    } else if name == "cost_effective"@ {
        Some(Tier::CostEffective)
    } else if name == "agentic"@ {
        Some(Tier::Agentic)
    } else if name == "agentic_plus"@ {
        Some(Tier::AgenticPlus)
    } else {
        None
    }
}

pub open spec fn opt_or(o: Option<String>, d: Seq<char>) -> Seq<char> {
    match o {
        Some(s) => s@,
        None => d,
    }
}

pub open spec fn is_web_url(f: Seq<char>) -> bool {
    ||| (f.len() >= 7 && f.take(7) == "http://"@)
    ||| (f.len() >= 8 && f.take(8) == "https://"@)
}

/// The plan of `req` under `keys`, as `plan_parse` decides it.
pub open spec fn plan_spec(req: ParsePdfRequest, keys: EngineKeys) -> Result<ParsePlan, PlanError> {
    let ename = lower_opt(req.engine, "mineru"@);
    let tname = lower_opt(req.tier, "agentic"@);
    let named_llama = lower_opt(req.engine, Seq::<char>::empty()) == "llamaparse"@;
    match engine_choice(ename) {
        None => Err(PlanError::UnsupportedEngine(arbitrary())),
        Some(e0) => match tier_choice(tname) {
            None => Err(PlanError::UnsupportedTier(arbitrary())),
            Some(tier) => {
                let engine = if e0 == Engine::Auto { Engine::Mineru } else { e0 };
                let need_mineru = engine == Engine::Mineru || (req.verify && !named_llama);
                let need_llama = engine == Engine::Llamaparse || (req.verify && named_llama)
                    || (req.cascade && engine == Engine::Mineru);
                if need_mineru && trim_ws(keys.mineru@).len() == 0 {
                    Err(PlanError::MissingMineruKey)
                } else if need_llama && trim_ws(keys.llamaparse@).len() == 0 {
                    Err(PlanError::MissingLlamaParseKey)
                } else {
                    Ok(ParsePlan { engine, tier, is_url: is_web_url(req.file@) })
                }
            },
        },
    }
}

/// The lower case of a given name; the default (already lower case) when
/// none is given.
pub open spec fn lower_opt(o: Option<String>, d: Seq<char>) -> Seq<char> {
    match o {
        Some(s) => lowercase(s@),
        None => d,
    }
}

fn lower_or(o: &Option<String>, d: &str) -> (r: Vec<char>)
    ensures
        r@ == lower_opt(*o, d@),
{
    match o {
        Some(s) => {
            let l = to_lowercase(s.as_str());
            chars_of(l.as_str())
        },
        None => chars_of(d),
    }
}

fn is_blank(s: &str) -> (b: bool)
    ensures
        b == (trim_ws(s@).len() == 0),
{
    let t = trim_string(s);
    t.as_str().is_empty()
}

fn starts_with_text(s: &str, p: &str) -> (b: bool)
    ensures
        b == (p@.len() <= s@.len() && s@.take(p@.len() as int) == p@),
{
    let cs = chars_of(s);
    let ps = chars_of(p);
    let r = crate::text::starts_with_chars(&cs, &ps);
    proof {
        if p@.len() <= s@.len() {
            assert(s@.take(p@.len() as int) =~= s@.subrange(0, p@.len() as int));
        }
    }
    r
}

/// Resolves the engine and tier of `req` and checks that every engine the
/// request needs has a key: MinerU when it is the primary or the verifying
/// engine, LlamaParse when it is the primary, the verifying engine, or the
/// cascade's.
pub fn plan_parse(req: &ParsePdfRequest, keys: &EngineKeys) -> (r: Result<ParsePlan, PlanError>)
    ensures
        match (r, plan_spec(*req, *keys)) {
            (Ok(p), Ok(q)) => p == q,
            (Err(PlanError::UnsupportedEngine(n)), Err(PlanError::UnsupportedEngine(_))) =>
                n@ == lower_opt(req.engine, "mineru"@),
            (Err(PlanError::UnsupportedTier(n)), Err(PlanError::UnsupportedTier(_))) =>
                n@ == lower_opt(req.tier, "agentic"@),
            (Err(PlanError::MissingMineruKey), Err(PlanError::MissingMineruKey)) => true,
            (Err(PlanError::MissingLlamaParseKey), Err(PlanError::MissingLlamaParseKey)) => true,
            _ => false,
        },
{
    let ename = lower_or(&req.engine, "mineru");
    let e0 = if text_is(&ename, "mineru") || ename.len() == 0 {
        assert(ename.len() == 0 ==> ename@ =~= Seq::<char>::empty());
        Engine::Mineru
    } else if text_is(&ename, "llamaparse") {
        Engine::Llamaparse
    } else if text_is(&ename, "auto") {
        Engine::Auto
    } else {
        return Err(PlanError::UnsupportedEngine(crate::text::string_from_chars(ename.as_slice())));
    };
    let tname = lower_or(&req.tier, "agentic");
    let tier = if text_is(&tname, "fast") {
        Tier::Fast
    } else if text_is(&tname, "cost_effective") {
        Tier::CostEffective
    } else if text_is(&tname, "agentic") {
        Tier::Agentic
    } else if text_is(&tname, "agentic_plus") {
        Tier::AgenticPlus
    } else {
        return Err(PlanError::UnsupportedTier(crate::text::string_from_chars(tname.as_slice())));
    };
    let is_url = starts_with_text(req.file.as_str(), "http://") || starts_with_text(req.file.as_str(), "https://");
    let engine = if e0 == Engine::Auto { Engine::Mineru } else { e0 };
    let named = lower_or(&req.engine, "");
    let named_llama = text_is(&named, "llamaparse");
    let need_mineru = engine == Engine::Mineru || (req.verify && !named_llama);
    let need_llama = engine == Engine::Llamaparse || (req.verify && named_llama) || (req.cascade && engine
        == Engine::Mineru);
    proof {
        assert(Seq::<char>::empty() =~= ""@) by {
            reveal_strlit("");
        }
        reveal_strlit("http://");
        reveal_strlit("https://");
    }
    if need_mineru && is_blank(keys.mineru.as_str()) {
        return Err(PlanError::MissingMineruKey);
    }
    if need_llama && is_blank(keys.llamaparse.as_str()) {
        return Err(PlanError::MissingLlamaParseKey);
    }
    Ok(ParsePlan { engine, tier, is_url })
}

/// The engine that cross-checks `primary`: the other one, when its key is set.
pub fn secondary_engine(primary: Engine, keys: &EngineKeys) -> (r: Option<Engine>)
    ensures
        r == (if primary == Engine::Mineru {
            if trim_ws(keys.llamaparse@).len() == 0 { None } else { Some(Engine::Llamaparse) }
        } else {
            if trim_ws(keys.mineru@).len() == 0 { None } else { Some(Engine::Mineru) }
        }),
{
    if primary == Engine::Mineru {
        if is_blank(keys.llamaparse.as_str()) { None } else { Some(Engine::Llamaparse) }
    } else {
        if is_blank(keys.mineru.as_str()) { None } else { Some(Engine::Mineru) }
    }
}

/// Whether the cascade runs: asked for, MinerU primary, a local file, and a
/// LlamaParse key set.
pub fn cascade_applies(req: &ParsePdfRequest, plan: &ParsePlan, keys: &EngineKeys) -> (b: bool)
    ensures
        b == (req.cascade && plan.engine == Engine::Mineru && !plan.is_url && trim_ws(keys.llamaparse@).len() > 0),
{
    req.cascade && plan.engine == Engine::Mineru && !plan.is_url && !is_blank(keys.llamaparse.as_str())
}

/// The longest prefix of `b` that ends on a UTF-8 character boundary and
/// holds at most `max` bytes.
pub open spec fn utf8_prefix_len(b: Seq<u8>, max: int) -> int
    decreases max,
{
    if max >= b.len() {
        b.len() as int
    } else if max <= 0 {
        0
    } else if vstd::utf8::is_char_boundary(b, max) {
        max
    } else {
        utf8_prefix_len(b, max - 1)
    }
}

/// `s` cut to at most `max_bytes` bytes, backing off to a character boundary.
pub fn truncate_utf8(s: &str, max_bytes: usize) -> (r: String)
    ensures
        vstd::utf8::encode_utf8(r@) == vstd::utf8::encode_utf8(s@).take(
            utf8_prefix_len(vstd::utf8::encode_utf8(s@), max_bytes as int),
        ),
{
    let b = s.as_bytes();
    if b.len() <= max_bytes {
        proof { assert(b@.take(b@.len() as int) =~= b@); }
        return s.to_owned();
    }
    let mut idx = max_bytes;
    while idx > 0 && !s.is_char_boundary(idx)
        invariant
            idx <= max_bytes < b@.len(),
            b@ == vstd::utf8::encode_utf8(s@),
            utf8_prefix_len(b@, max_bytes as int) == utf8_prefix_len(b@, idx as int),
        decreases idx,
    {
        idx -= 1;
    }
    proof {
        vstd::utf8::encode_utf8_valid_utf8(s@);
        vstd::utf8::is_char_boundary_start_end_of_seq(b@);
        assert(b@.subrange(0, idx as int) =~= b@.take(idx as int));
    }
    crate::utf8::substr(s, 0, idx).to_owned()
}

/// Which engines have a key (the settings page's probe): `(mineru,
/// llamaparse)`; `None` when neither has one.
pub fn configured_engines(keys: &EngineKeys) -> (r: Option<(bool, bool)>)
    ensures
        ({
            let m = keys.mineru@.len() > 0;
            let l = keys.llamaparse@.len() > 0;
            if !m && !l { r is None } else { r == Some((m, l)) }
        }),
{
    let m = !keys.mineru.as_str().is_empty();
    let l = !keys.llamaparse.as_str().is_empty();
    if !m && !l {
        None
    } else {
        Some((m, l))
    }
}

} // verus!
