use wiki_parser::calendar::parse_calendar_block;
use wiki_parser::comment::parse_comment_block;
use wiki_parser::inline::trim_bytes;
use wiki_parser::ls::parse_ls_block;
use wiki_parser::numeric::{parse_i32, parse_u32, push_decimal};
use wiki_parser::page_include::parse_include_block;
use wiki_parser::parser::{parse, try_parse};
use wiki_parser::parser_options::{ParseMode, ParserOptions};
use wiki_parser::rtcomment::parse_rtcomment_block;
use wiki_parser::{
    parse_wiki, parse_wiki_binary, parse_wiki_input, try_parse_wiki, try_parse_wiki_binary,
    try_parse_wiki_input,
};

fn chars(s: &str) -> Vec<char> {
    s.chars().collect()
}

fn render(input: &str) -> String {
    let options = ParserOptions::default();
    parse(input, input.as_bytes(), "w", "p", &options)
}

#[test]
fn decimal_form() {
    let mut out: Vec<char> = Vec::new();
    push_decimal(&mut out, 0);
    out.push(' ');
    push_decimal(&mut out, 1234);
    out.push(' ');
    push_decimal(&mut out, u32::MAX);
    assert_eq!(out.iter().collect::<String>(), "0 1234 4294967295");
}

#[test]
fn unsigned_numbers() {
    assert_eq!(parse_u32(&chars("42")), Some(42));
    assert_eq!(parse_u32(&chars("+7")), Some(7));
    assert_eq!(parse_u32(&chars("007")), Some(7));
    assert_eq!(parse_u32(&chars("4294967295")), Some(u32::MAX));
    assert_eq!(parse_u32(&chars("4294967296")), None);
    assert_eq!(parse_u32(&chars("")), None);
    assert_eq!(parse_u32(&chars("+")), None);
    assert_eq!(parse_u32(&chars("-1")), None);
    assert_eq!(parse_u32(&chars("1a")), None);
    assert_eq!(parse_u32(&chars(" 1")), None);
}

#[test]
fn signed_numbers() {
    assert_eq!(parse_i32(&chars("-12")), Some(-12));
    assert_eq!(parse_i32(&chars("+12")), Some(12));
    assert_eq!(parse_i32(&chars("2147483647")), Some(i32::MAX));
    assert_eq!(parse_i32(&chars("2147483648")), None);
    assert_eq!(parse_i32(&chars("-2147483648")), Some(i32::MIN));
    assert_eq!(parse_i32(&chars("-2147483649")), None);
    assert_eq!(parse_i32(&chars("-")), None);
}

#[test]
fn trimmed_bytes() {
    assert_eq!(trim_bytes(b"  ab c \t\n"), b"ab c");
    assert_eq!(trim_bytes(b" \r\n "), b"");
    assert_eq!(trim_bytes(b"x"), b"x");
}

#[test]
fn include_block_cases() {
    let options = ParserOptions::default();
    assert_eq!(
        parse_include_block("#include(Page)", &options).unwrap(),
        "<div class=\"wiki-include-page\" data-page=\"Page\" data-stylesheet=\"\" data-range=\"\" data-show-title=\"default\"></div>"
    );
    assert_eq!(
        parse_include_block("  #INCLUDE( Page | style.css , 1-10, NoTitle ) ", &options).unwrap(),
        "<div class=\"wiki-include-page\" data-page=\"Page\" data-stylesheet=\"style.css\" data-range=\"1-10\" data-show-title=\"false\"></div>"
    );
    assert_eq!(
        parse_include_block("#include(Page, , title)", &options).unwrap(),
        "<div class=\"wiki-include-page\" data-page=\"Page\" data-stylesheet=\"\" data-range=\"\" data-show-title=\"true\"></div>"
    );
    assert_eq!(
        parse_include_block("#include(Page, 1-x)", &options).unwrap(),
        "<div style=\"color: red;\">読み込み失敗: 無効な行範囲です</div>"
    );
    assert_eq!(
        parse_include_block("#include(Page, 1-2-3)", &options).unwrap(),
        "<div style=\"color: red;\">読み込み失敗: 無効な行範囲です</div>"
    );
    assert_eq!(parse_include_block("#include()", &options), None);
    assert_eq!(parse_include_block("#include Page", &options), None);
    assert_eq!(parse_include_block("#include)(", &options), None);
    assert_eq!(parse_include_block("include(Page)", &options), None);
}

#[test]
fn rtcomment_cases() {
    assert_eq!(
        parse_rtcomment_block(" #RTComment() ", "w", "p").unwrap(),
        "<div class=\"wiki-rtcomment\" data-wiki-slug=\"w\" data-page-slug=\"p\"></div>"
    );
    assert!(parse_rtcomment_block("#rtcomment", "w", "p").is_some());
    assert_eq!(parse_rtcomment_block("#rtcomment(x)", "w", "p"), None);
}

#[test]
fn comment_cases() {
    let below = parse_comment_block("#COMMENT( Below )", "w", "p").unwrap();
    assert!(below.contains("data-position=\"below\""));
    let other = parse_comment_block("#comment(left)", "w", "p").unwrap();
    assert!(other.contains("data-position=\"above\""));
    assert_eq!(parse_comment_block("comment", "w", "p"), None);
}

#[test]
fn ls_cases() {
    assert_eq!(
        parse_ls_block("#ls2(Folder/)", "s").unwrap(),
        "<div class=\"wiki-pagelist2\" data-wiki-slug=\"s\" data-pattern=\"Folder/\" data-options=\"\" data-label=\"\"></div>"
    );
    assert_eq!(
        parse_ls_block("#LS(  Pre  )", "s").unwrap(),
        "<div class=\"wiki-pagelist\" data-wiki-slug=\"s\" data-prefix=\"Pre\"></div>"
    );
    assert_eq!(parse_ls_block("ls", "s"), None);
}

#[test]
fn calendar_cases() {
    let feb_leap = parse_calendar_block("#calendar2(2024, 02)").unwrap();
    assert!(feb_leap.contains("<td>29</td>"));
    assert!(!feb_leap.contains(">30</td>"));
    let feb = parse_calendar_block("#calendar2(202302)").unwrap();
    assert!(feb.contains(">28</td>"));
    assert!(!feb.contains(">29</td>"));
    let july = parse_calendar_block("#calendar2(2026, 07)").unwrap();
    assert!(july.contains("<tr><td></td><td></td><td></td><td>1</td>"));
    assert!(july.contains("<td class=\"sunday\">5</td>"));
    assert!(july.contains("<td class=\"saturday\">4</td>"));
    assert_eq!(parse_calendar_block("#calendar2(2026, 13)"), None);
    assert_eq!(parse_calendar_block("#calendar2(abcd, 07)"), None);
    assert_eq!(parse_calendar_block("#calendar2(2026, 07"), None);
    assert_eq!(parse_calendar_block("#calendar2(20)"), None);
}

#[test]
fn alignment_and_simple_blocks() {
    assert_eq!(render("CENTER:abc"), "<div style=\"text-align: center;\">abc</div>");
    assert_eq!(render("RIGHT:''x''"), "<div style=\"text-align: right;\"><strong>x</strong></div>");
    assert_eq!(render("#hr\n#BR"), "<hr><br><br>");
    assert_eq!(render("a&br;b\nc"), "a<br>b<br>c");
    assert_eq!(render("a\r\nb"), "a<br>b");
}

#[test]
fn accordion_block() {
    let output = render("#accordion(Title, **, OPEN){{\ninner ''x''\n}}\nafter");
    assert!(output.starts_with("<div class=\"accordion-container\">\n<h3 class=\"accordion-header\">"));
    assert!(output.contains("\n    Title\n</h3>\n"));
    assert!(output.contains("<div class=\"accordion-content\" style=\"display: block;\">\ninner <strong>x</strong>\n</div>\n</div>\n"));
    assert!(output.ends_with("</div>\nafter"));
    let unclosed = render("#accordion(T){{\nline");
    assert_eq!(unclosed, "#accordion(T){{<br>line");
}

#[test]
fn undefined_names_are_reported() {
    assert_eq!(render("&const-use(a);"), "[定数未定義:a]");
    assert_eq!(render("&let-use(b);"), "[変数未定義:b]");
    assert_eq!(
        render("&relet(c);"),
        "<span style=\"color: red;\">再代入対象 `c` が未定義です</span>"
    );
}

#[test]
fn top_level_entries() {
    assert_eq!(parse_wiki("''a''", "w", "p"), "<strong>a</strong>");
    assert_eq!(try_parse_wiki("x\ny", "w", "p"), Some("x<br>y".to_string()));
    assert_eq!(parse_wiki_binary(b"\x02b\x02", "w", "p"), "<strong>b</strong>");
    assert_eq!(try_parse_wiki_binary(b"\x01", "w", "p"), Some("<br>".to_string()));
    let options = ParserOptions::default();
    assert_eq!(parse_wiki_input(b"\xffa", "w", "p", &options), "\u{FFFD}a");
    assert_eq!(try_parse_wiki_input(b"#hr", "w", "p", &options), Some("<hr>".to_string()));
    let mut binary = ParserOptions::default();
    binary.mode = ParseMode::Binary;
    let input = "#comment";
    assert!(try_parse(input, input.as_bytes(), "w", "p", &binary)
        .unwrap()
        .contains("data-wiki-slug=\"w\""));
}

#[test]
fn lowercased_block_names() {
    assert!(render("#COMMENT").contains("class=\"commentform-container\""));
    assert!(render("#Calendar2(2026, 07)").contains("<table class=\"calendar2\">"));
}
