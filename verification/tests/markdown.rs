use skills::md::{parse_inline, render, Color, SpanStyle, StyledLine};
use skills::text::chars_of;

fn plain() -> SpanStyle {
    SpanStyle { fg: None, bold: false, italic: false }
}

fn style(fg: Option<Color>, bold: bool, italic: bool) -> SpanStyle {
    SpanStyle { fg, bold, italic }
}

fn spans(line: &StyledLine) -> Vec<(String, SpanStyle)> {
    line.spans.iter().map(|s| (s.text.clone(), s.style)).collect()
}

fn inline_of(s: &str) -> Vec<(String, SpanStyle)> {
    parse_inline(&chars_of(s)).iter().map(|s| (s.text.clone(), s.style)).collect()
}

#[test]
fn headings_have_their_colours() {
    let out = render("# One\n## Two\n### Three\n#### Four\n##### Five");
    assert_eq!(out.len(), 5);
    assert_eq!(spans(&out[0]), vec![("One".to_string(), style(Some(Color::Cyan), true, false))]);
    assert_eq!(spans(&out[1]), vec![("Two".to_string(), style(Some(Color::Blue), true, false))]);
    assert_eq!(spans(&out[2]), vec![("Three".to_string(), style(None, true, false))]);
    assert_eq!(
        spans(&out[3]),
        vec![("Four".to_string(), style(Some(Color::Magenta), false, false))]
    );
    assert_eq!(spans(&out[4]), vec![("##### Five".to_string(), plain())]);
}

#[test]
fn fenced_code_is_indented_and_yellow() {
    let out = render("before\n```rust\nlet x = *y;\n  ```\nafter");
    assert_eq!(out.len(), 3);
    assert_eq!(spans(&out[0]), vec![("before".to_string(), plain())]);
    assert_eq!(
        spans(&out[1]),
        vec![("  let x = *y;".to_string(), style(Some(Color::Yellow), false, false))]
    );
    assert_eq!(spans(&out[2]), vec![("after".to_string(), plain())]);
}

#[test]
fn unclosed_fence_keeps_code_to_the_end() {
    let out = render("```\n# not a heading");
    assert_eq!(out.len(), 1);
    assert_eq!(
        spans(&out[0]),
        vec![("  # not a heading".to_string(), style(Some(Color::Yellow), false, false))]
    );
}

#[test]
fn list_items_get_a_bullet_and_inline_markup() {
    let out = render("- plain **bold**\n* two");
    assert_eq!(
        spans(&out[0]),
        vec![
            ("  \u{2022} ".to_string(), plain()),
            ("plain ".to_string(), plain()),
            ("bold".to_string(), style(None, true, false)),
        ]
    );
    assert_eq!(
        spans(&out[1]),
        vec![("  \u{2022} ".to_string(), plain()), ("two".to_string(), plain())]
    );
}

#[test]
fn quotes_and_rules() {
    let out = render("> quoted\n---\n***\n___\n----");
    assert_eq!(
        spans(&out[0]),
        vec![("\u{258c} quoted".to_string(), style(Some(Color::DarkGray), false, true))]
    );
    let rule = "\u{2500}".repeat(60);
    for i in 1..4 {
        assert_eq!(spans(&out[i]), vec![(rule.clone(), style(Some(Color::DarkGray), false, false))]);
    }
    assert_eq!(spans(&out[4]), vec![("----".to_string(), plain())]);
}

#[test]
fn inline_bold_italic_code() {
    assert_eq!(
        inline_of("a **b** *c* `d` e"),
        vec![
            ("a ".to_string(), plain()),
            ("b".to_string(), style(None, true, false)),
            (" ".to_string(), plain()),
            ("c".to_string(), style(None, false, true)),
            (" ".to_string(), plain()),
            ("d".to_string(), style(Some(Color::Yellow), false, false)),
            (" e".to_string(), plain()),
        ]
    );
}

#[test]
fn inline_unclosed_spans_run_to_the_end() {
    assert_eq!(inline_of("**open"), vec![("open".to_string(), style(None, true, false))]);
    assert_eq!(inline_of("x *it"), vec![
        ("x ".to_string(), plain()),
        ("it".to_string(), style(None, false, true)),
    ]);
    assert_eq!(inline_of("`c"), vec![("c".to_string(), style(Some(Color::Yellow), false, false))]);
}

#[test]
fn inline_single_star_inside_bold_is_kept() {
    assert_eq!(inline_of("**a*b**"), vec![("a*b".to_string(), style(None, true, false))]);
}

#[test]
fn inline_empty_spans() {
    assert_eq!(inline_of(""), vec![("".to_string(), plain())]);
    assert_eq!(inline_of("****"), vec![("".to_string(), style(None, true, false))]);
    assert_eq!(inline_of("``"), vec![("".to_string(), style(Some(Color::Yellow), false, false))]);
}

#[test]
fn plain_text_is_one_span() {
    assert_eq!(inline_of("just words, no marks"), vec![("just words, no marks".to_string(), plain())]);
    let out = render("hello world");
    assert_eq!(spans(&out[0]), vec![("hello world".to_string(), plain())]);
}

#[test]
fn empty_lines_render_as_one_empty_span() {
    let out = render("a\n\nb\n");
    assert_eq!(out.len(), 3);
    assert_eq!(spans(&out[1]), vec![("".to_string(), plain())]);
    assert_eq!(render("").len(), 0);
}

#[test]
fn inline_keeps_every_text_character() {
    for s in ["a **b** *c* `d` e", "**x*y**z", "`a*b` c", "no marks", "*", "**", "a``b"] {
        let out: String = parse_inline(&chars_of(s)).iter().map(|sp| sp.text.as_str()).collect();
        let keep = |t: &str| t.chars().filter(|c| *c != '*' && *c != '`').collect::<String>();
        assert_eq!(keep(&out), keep(s), "{:?}", s);
        assert!(out.chars().count() <= s.chars().count());
    }
}

#[test]
fn rendering_joined_texts_joins_renderings() {
    let a = "# Title\n```\ncode\n```\n- item";
    let b = "> quote\n**bold**";
    let joined = render(&format!("{a}\n{b}"));
    let mut parts: Vec<Vec<(String, SpanStyle)>> = render(a).iter().map(spans).collect();
    parts.extend(render(b).iter().map(spans));
    assert_eq!(joined.iter().map(spans).collect::<Vec<_>>(), parts);
}
