use sfeed_unread::pipeline::plan_run;
use sfeed_unread::record::Item;
use sfeed_unread::render::{escape, render_content, render_document};
use sfeed_unread::store::{append_record, ReadState};
use sfeed_unread::text::split_str;

const LINE_A: &str = "a\tOld Title\thttps://x/1\tHello <b>world</b>\t-\t-\tAlice";

fn lines(v: &[&str]) -> Vec<String> {
    v.iter().map(|s| s.to_string()).collect()
}

#[test]
fn scenario_a_renders_author_as_title_and_records_link() {
    let state = ReadState::load("");
    let plan = plan_run(&lines(&[LINE_A]), &state);
    assert_eq!(plan.fresh.len(), 1);
    assert!(plan.rejected.is_empty());
    assert_eq!(plan.fresh[0].title(), "Alice");
    assert_eq!(plan.fresh[0].link(), "https://x/1");
    assert_eq!(plan.fresh[0].content(), "Hello <b>world</b>");
    let page = plan.page.unwrap();
    assert!(page.contains("<h3><a href=\"https://x/1\">Alice</a></h3>\n"));
    // Text that does not open with markup is escaped and preformatted.
    assert!(page.contains("<pre>Hello &lt;b&gt;world&lt;/b&gt;</pre>"));
    let appended = plan.store_append.unwrap();
    assert_eq!(appended, "https://x/1\n\n");
    let reloaded = ReadState::load(&appended);
    assert!(reloaded.contains("https://x/1"));
}

#[test]
fn scenario_b_second_run_has_nothing_new() {
    let input = lines(&[LINE_A]);
    let mut file = String::new();
    let first = plan_run(&input, &ReadState::load(&file));
    file.push_str(&first.store_append.unwrap());
    let second = plan_run(&input, &ReadState::load(&file));
    assert!(second.fresh.is_empty());
    assert!(second.page.is_none());
    assert!(second.store_append.is_none());
}

#[test]
fn scenario_c_short_line_is_rejected() {
    let plan = plan_run(&lines(&["a\tb\tc\td\te"]), &ReadState::new());
    assert_eq!(plan.rejected, vec![0]);
    assert!(plan.fresh.is_empty());
    assert!(plan.page.is_none());
    assert!(plan.store_append.is_none());
}

#[test]
fn scenario_d_empty_content_is_placeholder() {
    assert_eq!(render_content(""), "(no content)");
    let plan = plan_run(&lines(&["a\tt\thttps://x/2\t\t-\t-\tBob"]), &ReadState::new());
    let page = plan.page.unwrap();
    assert!(page.contains("</a></h3>\n(no content)\n<hr>\n"));
}

#[test]
fn null_content_is_placeholder() {
    assert_eq!(render_content("NULL"), "(no content)");
    assert_eq!(render_content("NULLX"), "<pre>NULLX</pre>");
}

#[test]
fn markup_content_is_verbatim() {
    assert_eq!(render_content("<p>a & b</p>"), "<p>a & b</p>");
    assert_eq!(render_content(" \n\t<div>x</div>"), " \n\t<div>x</div>");
    assert_eq!(render_content("\u{3000}<i>x</i>"), "\u{3000}<i>x</i>");
}

#[test]
fn plain_content_is_escaped_and_preformatted() {
    assert_eq!(render_content("a < b && c > d"), "<pre>a &lt; b &amp;&amp; c &gt; d</pre>");
    assert_eq!(render_content("   "), "<pre>   </pre>");
}

#[test]
fn escape_replaces_three_characters() {
    assert_eq!(escape("x&y<z>w"), "x&amp;y&lt;z&gt;w");
    assert_eq!(escape("plain"), "plain");
    assert_eq!(escape(""), "");
    assert_eq!(escape("é\"'"), "é\"'");
}

#[test]
fn parse_takes_author_as_title() {
    let item = Item::parse_from_line(LINE_A).ok().unwrap();
    assert_eq!(item.title(), "Alice");
    assert_eq!(item.link(), "https://x/1");
    assert_eq!(item.content(), "Hello <b>world</b>");
}

#[test]
fn parse_ignores_fields_past_the_seventh() {
    let item = Item::parse_from_line("0\t1\t2\t3\t4\t5\t6\t7\t8").ok().unwrap();
    assert_eq!(item.title(), "6");
    assert_eq!(item.link(), "2");
    assert_eq!(item.content(), "3");
}

#[test]
fn parse_accepts_empty_fields() {
    let item = Item::parse_from_line("\t\t\t\t\t\t").ok().unwrap();
    assert_eq!(item.title(), "");
    assert_eq!(item.link(), "");
    assert_eq!(item.content(), "");
}

#[test]
fn parse_rejects_six_fields() {
    let err = Item::parse_from_line("0\t1\t2\t3\t4\t5").err().unwrap();
    assert_eq!(err, "Not enough fields");
    assert!(Item::parse_from_line("").is_err());
}

#[test]
fn parse_is_deterministic() {
    let a = Item::parse_from_line(LINE_A).ok().unwrap();
    let b = Item::parse_from_line(LINE_A).ok().unwrap();
    assert_eq!(a.title(), b.title());
    assert_eq!(a.link(), b.link());
    assert_eq!(a.content(), b.content());
}

#[test]
fn split_keeps_empty_pieces() {
    assert_eq!(split_str("a\t\tb\t", '\t'), vec!["a", "", "b", ""]);
    assert_eq!(split_str("", '\t'), vec![""]);
}

#[test]
fn load_skips_blank_and_comment_lines() {
    let state = ReadState::load("# header\nhttps://a\n\nhttps://b\nhttps://a\n\n");
    assert!(state.contains("https://a"));
    assert!(state.contains("https://b"));
    assert!(!state.contains("# header"));
    assert!(!state.contains(""));
    assert!(!state.contains("https://c"));
}

#[test]
fn insert_then_contains() {
    let mut state = ReadState::new();
    assert!(!state.contains("x"));
    state.insert("x");
    assert!(state.contains("x"));
    assert!(!state.contains("y"));
}

#[test]
fn already_read_items_are_filtered_in_order() {
    let input = lines(&[
        "0\tt\thttps://1\tc1\t-\t-\tA",
        "bad line",
        "0\tt\thttps://2\tc2\t-\t-\tB",
        "0\tt\thttps://3\tc3\t-\t-\tC",
    ]);
    let state = ReadState::load("https://2\n\n");
    let plan = plan_run(&input, &state);
    assert_eq!(plan.rejected, vec![1]);
    let links: Vec<&str> = plan.fresh.iter().map(|i| i.link()).collect();
    assert_eq!(links, vec!["https://1", "https://3"]);
    assert_eq!(plan.store_append.unwrap(), "https://1\nhttps://3\n\n");
}

#[test]
fn round_trip_keeps_old_and_adds_new() {
    let input = lines(&["0\tt\thttps://n\tc\t-\t-\tA"]);
    let old = "https://old\n\n";
    let plan = plan_run(&input, &ReadState::load(old));
    let text = format!("{}{}", old, plan.store_append.unwrap());
    let state = ReadState::load(&text);
    assert!(state.contains("https://old"));
    assert!(state.contains("https://n"));
}

#[test]
fn append_record_of_nothing_is_a_blank_line() {
    assert_eq!(append_record(&Vec::new()), "\n");
}

#[test]
fn document_has_exact_shape() {
    let items = vec![Item::new("T&".to_string(), "l<1>".to_string(), "<p>x</p>".to_string())];
    let page = render_document(&items);
    let expected = format!(
        "{}{}{}{}",
        "<!DOCTYPE html>\n<meta charset=\"utf-8\">\n<title>Unread sfeed items</title>\n",
        "<body style=\"max-width:900px; margin:2rem auto\">\n",
        "<h3><a href=\"l&lt;1&gt;\">T&amp;</a></h3>\n<p>x</p>\n<hr>\n",
        "</body></html>\n"
    );
    assert_eq!(page, expected);
}

#[test]
fn empty_document_has_head_and_tail() {
    let page = render_document(&Vec::new());
    assert!(page.starts_with("<!DOCTYPE html>\n"));
    assert!(page.ends_with("\n</body></html>\n"));
}

#[test]
fn load_drops_carriage_return_of_crlf_lines() {
    let state = ReadState::load("# c\r\nhttps://a\r\n\r\nhttps://b\r\n");
    assert!(state.contains("https://a"));
    assert!(state.contains("https://b"));
    assert!(!state.contains("https://a\r"));
    assert!(!state.contains("\r"));
    assert!(!state.contains(""));
}

#[test]
fn crlf_store_filters_input_links() {
    let input = lines(&[LINE_A]);
    let plan = plan_run(&input, &ReadState::load("https://x/1\r\n\r\n"));
    assert!(plan.fresh.is_empty());
    assert!(plan.page.is_none());
}

#[test]
fn load_strips_only_one_carriage_return() {
    let state = ReadState::load("x\r\r\n");
    assert!(state.contains("x\r"));
    assert!(!state.contains("x"));
}
