use mynosql_ui::order::{sort_stable, str_le};
use mynosql_ui::text::{contains_text, decimal_string, parse_u32, trim};
use mynosql_ui::panes::filter_names;
use mynosql_ui::paste::paste_input_text;
use mynosql_ui::data_page::sort_tables;
use mynosql_ui::models::TableListItemApiModel;

#[test]
fn parses_whole_numbers_like_str_parse() {
    assert_eq!(parse_u32("0"), Some(0));
    assert_eq!(parse_u32("250"), Some(250));
    assert_eq!(parse_u32("+7"), Some(7));
    assert_eq!(parse_u32("4294967295"), Some(u32::MAX));
    for s in ["", "+", "-1", " 5", "5 ", "1.5", "abc", "4294967296", "99999999999"] {
        assert_eq!(parse_u32(s), s.parse::<u32>().ok(), "input {:?}", s);
    }
}

#[test]
fn decimal_strings() {
    assert_eq!(decimal_string(0), "0");
    assert_eq!(decimal_string(10), "10");
    assert_eq!(decimal_string(u64::MAX), "18446744073709551615");
}

#[test]
fn finds_text_inside_text() {
    assert!(contains_text("partition-key", "tion-k"));
    assert!(contains_text("abc", ""));
    assert!(!contains_text("abc", "abcd"));
    assert!(!contains_text("abc", "cb"));
}

#[test]
fn filters_ignore_case_and_pastes_ignore_surrounding_space() {
    let names = vec!["HeLLo ÄÖ".to_string(), "other".to_string()];
    assert_eq!(filter_names(&names, "lo äö"), vec!["HeLLo ÄÖ".to_string()]);
    assert_eq!(filter_names(&names, "LLO ÄÖ"), vec!["HeLLo ÄÖ".to_string()]);
    assert_eq!(paste_input_text("  \n a b \t").unwrap(), "a b");
}

#[test]
fn compares_texts_in_str_order() {
    assert!(str_le("a", "b"));
    assert!(str_le("a", "a"));
    assert!(str_le("", "a"));
    assert!(!str_le("b", "a"));
    assert!(str_le("ab", "b"));
    assert!(str_le("Z", "a"));
}

fn table(name: &str) -> TableListItemApiModel {
    TableListItemApiModel { name: name.to_string() }
}

#[test]
fn sorts_tables_by_name() {
    let sorted = sort_tables(vec![table("orders"), table("Accounts"), table("bids"), table("asks")]);
    let names: Vec<String> = sorted.into_iter().map(|t| t.name).collect();
    assert_eq!(names, vec!["Accounts", "asks", "bids", "orders"]);
}

#[test]
fn sort_keeps_equal_items_in_order() {
    let sorted = sort_stable(vec![table("b"), table("a"), table("b"), table("a")]);
    let names: Vec<String> = sorted.into_iter().map(|t| t.name).collect();
    assert_eq!(names, vec!["a", "a", "b", "b"]);
}

#[test]
fn trims_unicode_white_space_like_str_trim() {
    for t in ["", "   ", " a ", "\u{3000}x\u{85}", "\u{2009}a b\u{200b}", "\t\n\r\u{b}\u{c}z\u{a0}", "\u{1680}\u{2028}\u{2029}\u{202f}\u{205f}", "abc"] {
        assert_eq!(trim(t), t.trim(), "input {:?}", t);
    }
}
