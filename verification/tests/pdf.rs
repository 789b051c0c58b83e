use boenmind::pdf_omni::pdf_ops::{page_count_of, PageCountError};
use lopdf::{Dictionary, Document, Object, Stream};
use boenmind::pdf_omni::cascade::{
    canvas_members, cascade_credits, insert_sorted, plan_cascade, problem_page_count, CascadeElement, ElementKind,
};
use boenmind::pdf_omni::mineru::{job_state, merge_markdown, needs_chunking, size_check, JobState};
use boenmind::pdf_omni::verify::{assemble_stats, compute_stats, content_lines, count_mismatches, lcs_len, overlap_counts};
use boenmind::pdf_omni::{
    cascade_applies, configured_engines, default_true, plan_parse, secondary_engine, truncate_utf8, Engine, EngineKeys, ParsePdfRequest,
    PlanError, Tier,
};

#[test]
fn stats_counts() {
    let md = "# 标题\n\n正文段落。\n\n| a | b |\n| 1 | 2 |\n\n$$x^2$$\n\n```rust\nfn x() {}\n```";
    let s = compute_stats(md);
    assert_eq!(s.table_rows, 2);
    assert_eq!(s.formula_blocks, 1);
    assert_eq!(s.code_blocks, 1);
    assert!(s.paragraphs >= 4);
}

#[test]
fn stats_exact_counts() {
    let md = "a\n\n\n\nb\n\n  \n\n| x |";
    let s = compute_stats(md);
    assert_eq!(s.chars, md.chars().count());
    assert_eq!(s.paragraphs, 3);
    assert_eq!(s.table_rows, 1);
    assert_eq!(s.inline_formulas, 0);
    let t = compute_stats("inline $a+b$ and \\(c\\)");
    assert_eq!(t.inline_formulas, 2);
    assert_eq!(t.paragraphs, 1);
    assert_eq!(compute_stats("").paragraphs, 0);
}

#[test]
fn assembled_stats_saturate() {
    let s = assemble_stats("x", usize::MAX, 1, 2, 3, 5);
    assert_eq!(s.formula_blocks, usize::MAX);
    assert_eq!(s.inline_formulas, 5);
    assert_eq!(s.code_blocks, 2);
    assert_eq!(s.chars, 1);
}

#[test]
fn lcs_basic() {
    assert_eq!(lcs_len(b"abcde", b"ace"), 3);
    assert_eq!(lcs_len(b"abc", b"xyz"), 0);
}

#[test]
fn lcs_symmetric_example() {
    assert_eq!(lcs_len(b"ace", b"abcde"), 3);
    assert_eq!(lcs_len(b"", b"abc"), 0);
    assert_eq!(lcs_len(b"aaaa", b"aa"), 2);
}

fn request() -> ParsePdfRequest {
    ParsePdfRequest {
        file: "doc.pdf".to_string(),
        engine: None,
        tier: None,
        cascade: false,
        verify: false,
        model_version: None,
        is_ocr: false,
        language: None,
        out_dir: None,
        refine: default_true(),
    }
}

fn keys(m: &str, l: &str) -> EngineKeys {
    EngineKeys { mineru: m.to_string(), llamaparse: l.to_string() }
}

#[test]
fn plan_defaults_to_mineru_agentic() {
    let p = plan_parse(&request(), &keys("m", "")).unwrap();
    assert_eq!(p.engine, Engine::Mineru);
    assert_eq!(p.tier, Tier::Agentic);
    assert!(!p.is_url);
}

#[test]
fn plan_errors() {
    let r = ParsePdfRequest { engine: Some("Doc2X".to_string()), ..request() };
    assert_eq!(plan_parse(&r, &keys("m", "l")), Err(PlanError::UnsupportedEngine("doc2x".to_string())));
    let r = ParsePdfRequest { tier: Some("premium".to_string()), ..request() };
    assert_eq!(plan_parse(&r, &keys("m", "l")), Err(PlanError::UnsupportedTier("premium".to_string())));
    assert_eq!(plan_parse(&request(), &keys("  ", "l")), Err(PlanError::MissingMineruKey));
    let r = ParsePdfRequest { cascade: true, ..request() };
    assert_eq!(plan_parse(&r, &keys("m", " ")), Err(PlanError::MissingLlamaParseKey));
    let r = ParsePdfRequest { engine: Some("LlamaParse".to_string()), ..request() };
    assert_eq!(plan_parse(&r, &keys("", "")), Err(PlanError::MissingLlamaParseKey));
}

#[test]
fn plan_auto_url_and_tiers() {
    let r = ParsePdfRequest {
        engine: Some("AUTO".to_string()),
        tier: Some("Cost_Effective".to_string()),
        file: "https://x.dev/a.pdf".to_string(),
        ..request()
    };
    let p = plan_parse(&r, &keys("m", "")).unwrap();
    assert_eq!(p.engine, Engine::Mineru);
    assert_eq!(p.tier, Tier::CostEffective);
    assert!(p.is_url);
    assert_eq!(p.tier.rate(), 3);
    assert_eq!(Tier::AgenticPlus.rate(), 45);
    assert_eq!(Tier::Fast.name(), "fast");
    assert_eq!(Tier::default(), Tier::Agentic);
    assert_eq!(Engine::Llamaparse.name(), "llamaparse");
    let v = ParsePdfRequest { engine: Some("llamaparse".to_string()), verify: true, ..request() };
    let p = plan_parse(&v, &keys("", "l1,l2")).unwrap();
    assert_eq!(p.engine, Engine::Llamaparse);
}

#[test]
fn secondary_and_cascade() {
    assert_eq!(secondary_engine(Engine::Mineru, &keys("m", "l")), Some(Engine::Llamaparse));
    assert_eq!(secondary_engine(Engine::Mineru, &keys("m", " ")), None);
    assert_eq!(secondary_engine(Engine::Llamaparse, &keys("m", "")), Some(Engine::Mineru));
    let r = ParsePdfRequest { cascade: true, ..request() };
    let p = plan_parse(&r, &keys("m", "l")).unwrap();
    assert!(cascade_applies(&r, &p, &keys("m", "l")));
    assert!(!cascade_applies(&request(), &p, &keys("m", "l")));
}

#[test]
fn truncation_respects_char_boundaries() {
    assert_eq!(truncate_utf8("hello", 10), "hello");
    assert_eq!(truncate_utf8("hello", 3), "hel");
    // "é" is two bytes: cutting inside it backs off.
    assert_eq!(truncate_utf8("aé", 2), "a");
    assert_eq!(truncate_utf8("长长", 4), "长");
    assert_eq!(truncate_utf8("长", 0), "");
}

fn el(kind: ElementKind, page: u64, available: bool, small: bool) -> CascadeElement {
    CascadeElement { kind, page: Some(page), image_available: available, small }
}

#[test]
fn cascade_buckets() {
    let els = vec![
        el(ElementKind::Table, 2, true, false),
        el(ElementKind::Image, 1, true, true),
        el(ElementKind::Image, 4, true, false),
        el(ElementKind::Image, 3, true, false),
        el(ElementKind::Image, 4, true, false),
        el(ElementKind::Equation, 5, false, false),
        el(ElementKind::Equation, 2, false, false),
        el(ElementKind::Equation, 5, false, false),
        el(ElementKind::Image, 7, false, false),
        CascadeElement { kind: ElementKind::Other, page: None, image_available: false, small: false },
    ];
    let plan = plan_cascade(&els);
    let packed: Vec<(u64, ElementKind)> = plan.pack_items.iter().map(|p| (p.page, p.kind)).collect();
    assert_eq!(packed, vec![(2, ElementKind::Table), (1, ElementKind::Image)]);
    assert_eq!(plan.solo_pages, vec![3, 4]);
    // page 2 has a table, so only page 5 is merged.
    assert_eq!(plan.grid_pages, vec![5]);
    assert_eq!(plan.total_pages, 8);
    // problem pages, all 1-based: solo 4,5, grid 6, packed 3,2 → 5 distinct.
    assert_eq!(problem_page_count(&plan), 5);
}

#[test]
fn cascade_accounting() {
    assert_eq!(canvas_members(0, 2, 5), (0, 2));
    assert_eq!(canvas_members(1, 2, 5), (2, 5));
    assert_eq!(cascade_credits(2, 1, 1, 10), Some(40));
    assert_eq!(cascade_credits(u64::MAX, 1, 0, 0), Some(0));
    assert_eq!(cascade_credits(u64::MAX, 1, 0, 1), None);
    let mut v = vec![1, 5];
    insert_sorted(&mut v, 3);
    insert_sorted(&mut v, 5);
    insert_sorted(&mut v, 0);
    assert_eq!(v, vec![0, 1, 3, 5]);
}

#[test]
fn mineru_limits_and_merge() {
    assert_eq!(size_check(200 * 1024 * 1024), None);
    assert_eq!(size_check(300 * 1024 * 1024), Some(300));
    assert!(needs_chunking(Some(201)));
    assert!(!needs_chunking(Some(200)));
    assert!(!needs_chunking(None));
    let parts = vec![" a ".to_string(), "  ".to_string(), "b\n".to_string()];
    assert_eq!(merge_markdown(&parts), "a\n\nb");
    assert_eq!(job_state(Some("done")), JobState::Done);
    assert_eq!(job_state(Some("failed")), JobState::Failed);
    assert_eq!(job_state(Some("running")), JobState::Running);
    assert_eq!(job_state(None), JobState::Running);
}

#[test]
fn probe_reports_configured_engines() {
    let none = EngineKeys { mineru: String::new(), llamaparse: String::new() };
    assert_eq!(configured_engines(&none), None);
    let one = EngineKeys { mineru: "m".into(), llamaparse: String::new() };
    assert_eq!(configured_engines(&one), Some((true, false)));
    let both = EngineKeys { mineru: "m".into(), llamaparse: "a,b".into() };
    assert_eq!(configured_engines(&both), Some((true, true)));
}

/// Whether two results agree: no counted statistic differs and
/// the content lines' Jaccard similarity is at least 0.7.
fn consistent(a: &str, b: &str) -> (bool, f64) {
    let (inter, union) = overlap_counts(&content_lines(a), &content_lines(b));
    let jaccard = if union == 0 { 0.0 } else { inter as f64 / union as f64 };
    (count_mismatches(&compute_stats(a), &compute_stats(b)).is_empty() && jaccard >= 0.7, jaccard)
}

#[test]
fn jaccard_identical_is_one() {
    let md = "同一份内容\n\n第二段文字测试\n\n| t |\n| 1 |";
    let (ok, jaccard) = consistent(md, md);
    assert!(ok);
    assert!(jaccard > 0.99);
}

#[test]
fn jaccard_divergent_flags() {
    let a = "完全不同的文档内容甲\n\n这是第一段\n\n| t |\n| 1 |";
    let b = "完全无关的另一份内容乙\n\n那一段\n\n$$f(x)$$";
    assert!(!consistent(a, b).0);
}

#[test]
fn stats_count_characters_not_bytes() {
    let s = compute_stats("中文");
    assert_eq!(s.chars, 2);
    assert_eq!(s.paragraphs, 1);
    assert_eq!((s.table_rows, s.formula_blocks, s.inline_formulas, s.code_blocks), (0, 0, 0, 0));
}

fn test_pdf_bytes(n_pages: usize) -> Vec<u8> {
    let mut doc = Document::new();
    let pages_id = doc.add_object(Dictionary::new());
    let mut page_ids = Vec::new();
    for i in 0..n_pages {
        let content = format!("BT /F1 24 Tf 72 720 Td (page {}) Tj ET", i + 1);
        let content_id = doc.add_object(Stream::new(Dictionary::new(), content.into_bytes()));
        let mut page = Dictionary::new();
        page.set("Type", "Page");
        page.set("Parent", pages_id);
        page.set("MediaBox", vec![0.into(), 0.into(), 612.into(), 792.into()]);
        page.set("Contents", content_id);
        page_ids.push(doc.add_object(page));
    }
    let mut pages = Dictionary::new();
    pages.set("Type", "Pages");
    pages.set("Kids", page_ids.iter().map(|id| Object::Reference(*id)).collect::<Vec<_>>());
    pages.set("Count", page_ids.len() as i64);
    doc.objects.insert(pages_id, Object::Dictionary(pages));
    let mut catalog = Dictionary::new();
    catalog.set("Type", "Catalog");
    catalog.set("Pages", pages_id);
    let catalog_id = doc.add_object(catalog);
    doc.trailer.set("Root", catalog_id);
    let mut out = Vec::new();
    doc.save_to(&mut out).unwrap();
    out
}

#[test]
fn page_count_roundtrip() {
    assert_eq!(page_count_of("test.pdf", &test_pdf_bytes(5)).unwrap(), 5);
}

#[test]
fn page_count_errors() {
    assert!(matches!(page_count_of("x.pdf", b"not a pdf"), Err(PageCountError::Lopdf(_))));
    assert_eq!(page_count_of("empty.pdf", &test_pdf_bytes(0)), Err(PageCountError::EmptyPdf("empty.pdf".to_string())));
}

#[test]
fn problem_pages_share_one_basis() {
    // a packed table on page 0 and a solo image on page 0 are the same page
    let els = vec![
        CascadeElement { kind: ElementKind::Table, page: Some(0), image_available: true, small: false },
        CascadeElement { kind: ElementKind::Image, page: Some(0), image_available: true, small: false },
    ];
    let plan = plan_cascade(&els);
    assert_eq!(plan.pack_items.len(), 1);
    assert_eq!(plan.solo_pages, vec![0]);
    assert_eq!(problem_page_count(&plan), 1);
}
