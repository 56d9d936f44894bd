use wiki_parser::ls::parse_ls_block;
use wiki_parser::parser::parse;
use wiki_parser::parser_options::ParserOptions;

fn render(input: &str, wiki_slug: &str, page_slug: &str) -> String {
    let options = ParserOptions::default();
    parse(input, input.as_bytes(), wiki_slug, page_slug, &options)
}

#[test]
fn test_calendar2_normal() {
    let input = "#calendar2(2026, 07)";
    let output = render(input, "test-wiki", "test-page");
    assert!(output.contains("<table class=\"calendar2\">"));
    assert!(output.contains("class=\"sunday\""));
}

#[test]
fn test_calendar2_joined() {
    let input = "#calendar2(202607)";
    let output = render(input, "test-wiki", "test-page");
    assert!(output.contains("class=\"sunday\""));
}

#[test]
fn test_calendar2_off() {
    let input = "#calendar2(202607, off)";
    let output = render(input, "test-wiki", "test-page");
    assert!(!output.contains("class=\"sunday\""));
    assert!(!output.contains("class=\"saturday\""));
}

#[test]
fn test_comment_default() {
    let input = "#comment";
    let output = render(input, "my-wiki", "home-page");
    assert!(output.contains("class=\"commentform-container\""));
    assert!(output.contains("data-wiki-slug=\"my-wiki\""));
    assert!(output.contains("data-page-slug=\"home-page\""));
    assert!(output.contains("data-position=\"above\""));
}

#[test]
fn test_comment_below() {
    let input = "#comment(below)";
    let output = render(input, "game-wiki", "stage1");
    assert!(output.contains("data-position=\"below\""));
}

#[test]
fn test_parse_ls_default() {
    let result = parse_ls_block("#ls", "sample-wiki").unwrap();
    assert_eq!(
        result,
        r#"<div class="wiki-pagelist" data-wiki-slug="sample-wiki" data-prefix=""></div>"#
    );
}

#[test]
fn test_parse_ls_with_prefix() {
    let result = parse_ls_block("#ls(title)", "sample-wiki").unwrap();
    assert_eq!(
        result,
        r#"<div class="wiki-pagelist" data-wiki-slug="sample-wiki" data-prefix="title"></div>"#
    );
}

#[test]
fn test_parse_ls2_full() {
    let result = parse_ls_block("#ls2(Folder/ [title, compact], 一覧はこちら)", "sample-wiki").unwrap();
    assert_eq!(
        result,
        r#"<div class="wiki-pagelist2" data-wiki-slug="sample-wiki" data-pattern="Folder/" data-options="title, compact" data-label="一覧はこちら"></div>"#
    );
}

#[test]
fn test_marquee_default() {
    let input = "#marquee(こんにちは,scroll,infinite,#ff0000,#ffffff,20)";
    let options = ParserOptions::default();
    let output = parse(input, input.as_bytes(), "test-wiki", "test-page", &options);

    assert!(output.contains("data-animation-base=\"scroll-default\""));
    assert!(output.contains("animation-name: scroll-default-xl"));
    assert!(output.contains("animation-duration: 15s"));
    assert!(output.contains("animation-timing-function: linear"));
    assert!(output.contains("background-color: #ff0000"));
    assert!(output.contains("color: #ffffff"));
    assert!(output.contains("font-size: 20px"));
}

#[test]
fn test_marquee_slide_once() {
    let input = "#marquee(一度だけ流れる,slide,1,transparent,inherit,)";
    let options = ParserOptions::default();
    let output = parse(input, input.as_bytes(), "test-wiki", "test-page", &options);

    assert!(output.contains("data-animation-base=\"scroll-once\""));
    assert!(output.contains("animation-name: scroll-once-xl"));
    assert!(output.contains("animation-duration: 5s"));
    assert!(output.contains("animation-timing-function: ease-in-out"));
    assert!(output.contains("animation-iteration-count: 1"));
    assert!(output.contains("animation-fill-mode: forwards"));
}

#[test]
fn test_marquee_alternate() {
    let input = "#MARQUEE( 往復テキスト , alternate , infinite )";
    let options = ParserOptions::default();
    let output = parse(input, input.as_bytes(), "test-wiki", "test-page", &options);

    assert!(output.contains("data-animation-base=\"scroll-alternate\""));
    assert!(output.contains("animation-name: scroll-alternate-xl"));
    assert!(output.contains("animation-duration: 7s"));
    assert!(output.contains("animation-direction: alternate"));
    assert!(output.contains("往復テキスト"));
}
