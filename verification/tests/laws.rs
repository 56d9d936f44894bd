use wiki_parser::accordion::{parse_accordion_args, render_accordion_block, AccordionArgs};
use wiki_parser::calendar::parse_calendar_block;
use wiki_parser::inline::binary::parse_binary_inline;
use wiki_parser::inline::text::parse_text_inline;
use wiki_parser::marquee::parse_marquee_block;
use wiki_parser::parser::parse;
use wiki_parser::parser_options::{ParseMode, ParserOptions};
use wiki_parser::variable::{parse_let_block, parse_variable_inline, VariableContext};

fn render(input: &str) -> String {
    let options = ParserOptions::default();
    parse(input, input.as_bytes(), "w", "p", &options)
}

fn blocks_off() -> ParserOptions {
    ParserOptions {
        mode: ParseMode::Text,
        center: false,
        left: false,
        right: false,
        hr: false,
        br_block: false,
        br_inline: true,
        accordion: false,
        calendar: false,
        comment: false,
        rtcomment: false,
        marquee: false,
        include_block: false,
        ls: false,
        const_block: false,
        let_block: false,
    }
}

#[test]
fn plain_text_is_unchanged() {
    let options = ParserOptions::default();
    assert_eq!(parse_text_inline("hello, world: a > b", &options), "hello, world: a > b");
    assert_eq!(parse_text_inline("", &options), "");
}

#[test]
fn closed_quotes_make_bold_text() {
    let options = ParserOptions::default();
    assert_eq!(
        parse_text_inline("a ''bold'' b", &options),
        "a <strong>bold</strong> b"
    );
    assert_eq!(parse_text_inline("''open only", &options), "''open only");
}

#[test]
fn closed_brackets_make_a_link() {
    let options = ParserOptions::default();
    assert_eq!(
        parse_text_inline("[[ Top ]]", &options),
        "<a href=\"#\" data-wiki-link=\"Top\" class=\"wiki-link\">Top</a>"
    );
    assert_eq!(
        parse_text_inline("[[Site>https://example.com]] after", &options),
        "<a href=\"https://example.com\" data-wiki-link=\"https://example.com\" class=\"wiki-link\">Site</a> after"
    );
    assert_eq!(
        parse_text_inline("[[Title:Page]]", &options),
        "<a href=\"#\" data-wiki-link=\"Page\" class=\"wiki-link\">Title</a>"
    );
    assert_eq!(parse_text_inline("[[unclosed", &options), "[[unclosed");
}

#[test]
fn binary_plain_bytes_are_unchanged() {
    let options = ParserOptions::default();
    assert_eq!(parse_binary_inline(b"plain text", &options), "plain text");
    assert_eq!(parse_binary_inline("日本語".as_bytes(), &options), "日本語");
}

#[test]
fn binary_bold_and_links() {
    let options = ParserOptions::default();
    assert_eq!(parse_binary_inline(b"\x02bold\x02!", &options), "<strong>bold</strong>!");
    assert_eq!(parse_binary_inline(b"\x02open", &options), "\u{2}open");
    assert_eq!(
        parse_binary_inline(b"\x03 Site \x04 http://a.example \x03", &options),
        "<a href=\"http://a.example\" data-wiki-link=\"http://a.example\" class=\"wiki-link\">Site</a>"
    );
    assert_eq!(
        parse_binary_inline(b"\x03Page\x03", &options),
        "<a href=\"#\" data-wiki-link=\"Page\" class=\"wiki-link\">Page</a>"
    );
    assert_eq!(parse_binary_inline(b"a\x01b", &options), "a<br>b");
}

#[test]
fn variable_read_after_write() {
    let output = render("#let(x: int){1};\n#let(x: int){2};\n&let-use(x);&relet(x);");
    assert_eq!(
        output,
        "<span style=\"display: none; font-style: italic;\">変数 x（int） ← 1</span>\n\
         <span style=\"display: none; font-style: italic;\">変数 x（int） ← 2</span>\n\
         2<span style=\"display: none;\">再代入OK: x</span>"
    );
}

#[test]
fn variable_write_leaves_other_names() {
    let output = render("#let(a: int){1};\n#let(b: int){2};\n&let-use(a);/&let-use(b);");
    assert!(output.ends_with("\n1/2"));
}

#[test]
fn constant_is_defined_once() {
    let output = render("#const(a: int){1};\n#const(a: int){2};\n&const-use(a);");
    assert_eq!(
        output,
        "<span style=\"display: none; font-weight: bold;\">定数 a（int） = 1</span>\n\
         <span style=\"color: red;\">定数 a は再定義不可！</span>\n\
         1"
    );
}

#[test]
fn text_without_uses_is_unchanged() {
    let mut context = VariableContext::new();
    assert_eq!(parse_variable_inline("no uses here", &mut context), "no uses here");
}

#[test]
fn definitions_keep_names_distinct() {
    let mut context = VariableContext::new();
    assert!(parse_let_block("#let(n: int){1};", &mut context).is_some());
    assert!(parse_let_block("#LET( n : int ){ 5 };", &mut context).is_some());
    assert_eq!(context.let_context.len(), 1);
    assert_eq!(context.let_context[0].0, "n");
    assert_eq!(context.let_context[0].1, "5");
    assert!(context.const_context.is_empty());
}

#[test]
fn blocks_off_render_line_by_line() {
    let options = blocks_off();
    let input = "#hr\nCENTER:''b''\n#comment";
    let output = parse(input, input.as_bytes(), "w", "p", &options);
    assert_eq!(output, "#hr<br>CENTER:<strong>b</strong><br>#comment");
}

#[test]
fn empty_page_gives_empty_output() {
    assert_eq!(render(""), "");
}

#[test]
fn accordion_level_is_a_mark() {
    assert_eq!(parse_accordion_args("#accordion(T, ****){{").level, "*");
    assert_eq!(parse_accordion_args("#accordion(T, x, ***){{").level, "***");
}

#[test]
fn marquee_iteration_count_is_digits_or_infinite() {
    let options = ParserOptions::default();
    let a = parse_marquee_block("#marquee(t, slide, abc)", &options).unwrap();
    assert!(a.contains("animation-iteration-count: infinite;"));
    let b = parse_marquee_block("#marquee(t, slide, 12)", &options).unwrap();
    assert!(b.contains("animation-iteration-count: 12;"));
}

#[test]
fn plain_page_is_rendered_line_by_line_under_any_options() {
    let output = render("a ''b''\n  c [[P]]\nd");
    assert_eq!(
        output,
        "a <strong>b</strong><br>  c <a href=\"#\" data-wiki-link=\"P\" class=\"wiki-link\">P</a><br>d"
    );
}

#[test]
fn accordion_render_opens_and_closes_its_frame() {
    let args = AccordionArgs { title: "T".to_string(), level: "***".to_string(), is_open: false };
    let options = ParserOptions::default();
    let out = render_accordion_block(&args, &["x", "''y''"], "w", "p", &options);
    assert!(out.starts_with("<div class=\"accordion-container\">\n<h4 class=\"accordion-header\">\n"));
    assert!(out.ends_with(
        "    T\n</h4>\n<div class=\"accordion-content\" style=\"display: none;\">\nx<br><strong>y</strong>\n</div>\n</div>"
    ));
}

#[test]
fn calendar_counts_each_month_days() {
    let lengths = [31, 29, 31, 30, 31, 30, 31, 31, 30, 31, 30, 31];
    for (i, n) in lengths.iter().enumerate() {
        let line = format!("#calendar2(2024, {:02})", i + 1);
        let table = parse_calendar_block(&line).unwrap();
        assert!(table.contains(&format!(">{}</td>", n)));
        assert!(!table.contains(&format!(">{}</td>", n + 1)));
    }
    let feb_1900 = parse_calendar_block("#calendar2(190002)").unwrap();
    assert!(!feb_1900.contains(">29</td>"));
    let feb_2000 = parse_calendar_block("#calendar2(200002)").unwrap();
    assert!(feb_2000.contains(">29</td>"));
}

#[test]
fn valid_utf8_input_is_read_as_its_text() {
    let options = ParserOptions::default();
    let input = "日本 ''語''";
    assert_eq!(
        wiki_parser::parse_wiki_input(input.as_bytes(), "w", "p", &options),
        parse(input, input.as_bytes(), "w", "p", &options)
    );
}
