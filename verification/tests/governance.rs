use boenmind::governance::{extract_remember_fact, MAX_FACT_CHARS};

#[test]
fn extracts_after_chinese_trigger() {
    assert_eq!(extract_remember_fact("记住：用户喜欢深色模式"), Some("用户喜欢深色模式".to_string()));
    assert_eq!(extract_remember_fact("请记住 项目代号是 BoenMind"), Some("项目代号是 BoenMind".to_string()));
}

#[test]
fn extracts_after_english_trigger_case_insensitive() {
    assert_eq!(
        extract_remember_fact("remember that the user prefers tea"),
        Some("the user prefers tea".to_string())
    );
    assert_eq!(extract_remember_fact("Remember THAT: dark mode"), Some("dark mode".to_string()));
    assert_eq!(extract_remember_fact("REMEMBER THAT, use tabs"), Some("use tabs".to_string()));
}

#[test]
fn bare_english_remember_does_not_trigger() {
    assert_eq!(extract_remember_fact("Do you remember any personal facts about the user?"), None);
    assert_eq!(extract_remember_fact("I remember you like coffee"), None);
    assert_eq!(extract_remember_fact("Remember to buy milk"), None);
}

#[test]
fn no_trigger_returns_none() {
    assert_eq!(extract_remember_fact("今天天气怎么样"), None);
    assert_eq!(extract_remember_fact(""), None);
}

#[test]
fn trigger_without_content_returns_none() {
    assert_eq!(extract_remember_fact("记住"), None);
    assert_eq!(extract_remember_fact("记住："), None);
    assert_eq!(extract_remember_fact("please remember"), None);
}

#[test]
fn only_first_trigger_is_used() {
    let fact = extract_remember_fact("记住：第一段 remember：第二段").unwrap();
    assert!(fact.starts_with("第一段"), "{fact}");
}

#[test]
fn trims_leading_punctuation_and_quotes() {
    assert_eq!(extract_remember_fact("记住：，\t“直接说重点"), Some("直接说重点".to_string()));
    assert_eq!(extract_remember_fact("remember that, ,apple"), Some("apple".to_string()));
}

#[test]
fn overlong_fact_is_truncated_to_limit() {
    let long = "长".repeat(300);
    let fact = extract_remember_fact(&format!("记住：{long}")).unwrap();
    assert_eq!(fact.chars().count(), MAX_FACT_CHARS);
    assert_eq!(fact, "长".repeat(MAX_FACT_CHARS));
}
