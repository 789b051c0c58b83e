use boenmind::pdf_omni::refine::{
    demote_pseudo_headings, detect_page_artifacts, detect_pseudo_headings, drop_artifact_lines, drop_empty_table_rows,
    fix_duplicated_chars, normalized, refine_content, strip_residual_markup, ContentItem,
};

fn chars(s: &str) -> Vec<char> {
    s.chars().collect()
}

fn text(v: &[char]) -> String {
    v.iter().collect()
}

fn item(kind: &str, t: &str) -> ContentItem {
    ContentItem { kind: Some(kind.to_string()), text: Some(t.to_string()), has_text_level: false }
}

#[test]
fn page_artifacts_are_detected_and_dropped() {
    let cl = vec![item("text", "页眉标题"), item("text", "页眉标题"), item("text", "正文内容段落")];
    let arts = detect_page_artifacts(&cl);
    assert_eq!(arts.len(), 1);
    assert_eq!(text(&arts[0]), "页眉标题");
    let (md, dropped) = drop_artifact_lines(&chars("页眉标题\n\n正文内容段落\n\n页眉标题\n"), &arts);
    assert_eq!(dropped.len(), 2);
    assert!(!text(&md).contains("页眉标题"));
    assert_eq!(text(&md), "\n正文内容段落\n");
}

#[test]
fn sentences_are_not_furniture() {
    let cl = vec![item("text", "第一句。"), item("text", "第一句。"), item("title", "x"), item("title", "x")];
    assert!(detect_page_artifacts(&cl).is_empty());
}

#[test]
fn pseudo_heading_is_demoted_to_its_body() {
    let long = "这是一个过长的伪标题因为它包含了很多描述性内容直到超过五十个字符的阈值所以会被判定为正文而不是真正的标题";
    let heads = detect_pseudo_headings(&vec![item("title", long)]);
    assert_eq!(heads.len(), 1);
    let (md, bodies) = demote_pseudo_headings(&chars(&format!("# {long}\n")), &heads);
    assert_eq!(bodies.len(), 1);
    assert_eq!(text(&bodies[0]), long);
    assert!(!text(&md).starts_with('#'));
    assert_eq!(text(&md), long);
}

#[test]
fn short_title_without_punctuation_is_kept() {
    let heads = detect_pseudo_headings(&vec![item("title", "概述"), item("text", "a, b")]);
    assert!(heads.is_empty());
    let leveled = ContentItem { kind: Some("text".to_string()), text: Some("结论，如下".to_string()), has_text_level: true };
    assert_eq!(detect_pseudo_headings(&vec![leveled]).len(), 1);
}

#[test]
fn duplicated_chars_count_and_protection() {
    let (out, n) = fix_duplicated_chars(&chars("的的确认了问题，地地改进。的的确确是事实。"));
    assert_eq!(n, 2);
    let t = text(&out);
    assert!(t.contains("的确认了问题"));
    assert!(t.contains("的的确确是事实"));
}

#[test]
fn empty_table_rows_dropped_by_the_rule() {
    let (out, n) = drop_empty_table_rows(&chars("| a | b |\n| 1 | 2 |\n|  |  |\n|  |  |"));
    assert_eq!(n, 2);
    assert_eq!(text(&out).lines().count(), 2);
}

#[test]
fn normalization_strips_noise() {
    assert_eq!(text(&normalized(&chars("## 标题，一 (二)."))), "标题一二");
}

#[test]
fn inline_dollar_wrap_stripped_by_the_pass() {
    let md = "纯文本 $abc$ 与真实公式 $$x^2$$ 与行内 $E=mc^2$";
    let (out, n1, n2) = strip_residual_markup(md).unwrap();
    assert!(n1 + n2 >= 1);
    assert!(out.contains("$$x^2$$"));
    assert!(out.contains("$E=mc^2$") || !out.contains("E=mc^2"));
}

#[test]
fn strips_plain_text_markers_exactly() {
    let (out, n1, n2) = strip_residual_markup("a $abc$ b \\(plain\\) c").unwrap();
    assert_eq!(out, "a abc b plain c");
    assert_eq!((n1, n2), (1, 1));
    let (same, m1, m2) = strip_residual_markup("公式 $E=mc^2$ 与 $$y$$").unwrap();
    assert_eq!(same, "公式 $E=mc^2$ 与 $$y$$");
    assert_eq!((m1, m2), (0, 0));
}

fn refined(md: &str, cl: Vec<ContentItem>) -> (String, boenmind::pdf_omni::refine::RefineReport) {
    let mut m = md.to_string();
    let report = refine_content(&mut m, &Some(cl)).unwrap().unwrap();
    (m, report)
}

#[test]
fn drops_page_artifacts() {
    let cl = vec![item("text", "页眉标题"), item("text", "页眉标题"), item("text", "正文内容段落")];
    let (md, report) = refined("页眉标题\n\n正文内容段落\n\n页眉标题\n", cl);
    assert_eq!(report.op_counts.drop, 2);
    assert!(!md.contains("页眉标题"));
}

#[test]
fn demotes_pseudo_heading() {
    let long = "这是一个过长的伪标题因为它包含了很多描述性内容直到超过五十个字符的阈值所以会被判定为正文而不是真正的标题";
    let (md, report) = refined(&format!("# {long}\n"), vec![item("title", long)]);
    assert_eq!(report.op_counts.demote, 1);
    assert!(!md.starts_with('#'));
}

#[test]
fn strips_inline_dollar_wrap() {
    let (md, report) = refined("纯文本 $abc$ 与真实公式 $$x^2$$ 与行内 $E=mc^2$", vec![]);
    assert!(report.op_counts.strip >= 1);
    assert!(md.contains("$$x^2$$"));
    assert!(md.contains("$E=mc^2$") || !md.contains("E=mc^2"));
}

#[test]
fn fixes_duplicated_chars_but_not_protected() {
    let (md, report) = refined("的的确认了问题，地地改进。的的确确是事实。", vec![]);
    assert_eq!(report.op_counts.delete_char, 2);
    assert!(md.contains("的确认了问题"));
    assert!(md.contains("的的确确是事实"));
}

#[test]
fn drops_empty_table_rows() {
    let (md, report) = refined("| a | b |\n| 1 | 2 |\n|  |  |\n|  |  |", vec![]);
    assert_eq!(report.op_counts.empty_row, 2);
    assert_eq!(md.lines().count(), 2);
}

#[test]
fn no_content_list_returns_none() {
    let mut md = "正文".to_string();
    assert!(refine_content(&mut md, &None).unwrap().is_none());
    assert_eq!(md, "正文");
}

#[test]
fn empty_markdown_is_an_error() {
    let mut md = String::new();
    assert!(matches!(refine_content(&mut md, &Some(vec![])), Err(boenmind::pdf_omni::refine::RefineError::EmptyMarkdown)));
}

#[test]
fn report_examples_follow_the_rules() {
    let cl = vec![item("text", "页脚"), item("text", "页脚")];
    let (md, report) = refined("页脚\n正文 $abc$ 的的\n|  |\n页脚", cl);
    assert_eq!(md, "正文 abc 的");
    assert_eq!(
        (report.op_counts.drop, report.op_counts.demote, report.op_counts.strip, report.op_counts.delete_char, report.op_counts.empty_row),
        (2, 0, 1, 1, 1)
    );
    assert_eq!(
        report.examples,
        vec![
            "drop 页面家具: 页脚".to_string(),
            "drop 页面家具: 页脚".to_string(),
            "strip 残留标记 ×1".to_string(),
            "deleteChar 叠字 ×1".to_string(),
            "emptyRow 空表行 ×1".to_string(),
        ]
    );
    assert!(report.enabled);
    assert_eq!(report.violations, 0);
}

#[test]
fn blank_lines_survive_the_empty_row_rule() {
    let (out, n) = drop_empty_table_rows(&chars("第一段\n\n第二段"));
    assert_eq!(n, 0);
    assert_eq!(text(&out), "第一段\n\n第二段");
    let (md, report) = refined("第一段\n\n| a |\n|  |\n\n第二段", vec![]);
    assert_eq!(md, "第一段\n\n| a |\n\n第二段");
    assert_eq!(report.op_counts.empty_row, 1);
    assert!(report.examples.iter().all(|e| e.starts_with("emptyRow")));
}
