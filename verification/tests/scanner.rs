use marko::parser::{mark, Item, Parser, Style};

fn styled(f: impl Fn(&mut Style)) -> Style {
    let mut st = Style::empty();
    f(&mut st);
    st
}

#[test]
fn heading_line() {
    let items = mark(b"# Heading\n");
    assert_eq!(
        items,
        vec![
            Item::Text(styled(|s| s.heading = true), &b"Heading"[..]),
            Item::Newline,
        ]
    );
}

#[test]
fn bullet_line() {
    let items = mark(b"- item\n");
    assert_eq!(
        items,
        vec![
            Item::BulletPoint,
            Item::Text(Style::empty(), &b"item"[..]),
            Item::Newline,
        ]
    );
}

#[test]
fn numbered_list_two_entries() {
    let items = mark(b"1. first\n2. second\n");
    assert_eq!(
        items,
        vec![
            Item::NumberedPoint(&b"1"[..]),
            Item::Text(Style::empty(), &b"first"[..]),
            Item::Newline,
            Item::NumberedPoint(&b"2"[..]),
            Item::Text(Style::empty(), &b"second"[..]),
            Item::Newline,
        ]
    );
}

#[test]
fn escaped_star_is_plain_text() {
    let items = mark(b"\\*");
    assert_eq!(items, vec![Item::Text(Style::empty(), &b"*"[..])]);
}

#[test]
fn double_star_toggles_strong_without_items() {
    let items = mark(b"**bold**");
    assert_eq!(
        items,
        vec![Item::Text(styled(|s| s.strong = true), &b"bold"[..])]
    );
}

#[test]
fn single_star_toggles_italics_without_items() {
    let items = mark(b"*word*");
    assert_eq!(
        items,
        vec![Item::Text(styled(|s| s.italics = true), &b"word"[..])]
    );
}

#[test]
fn unterminated_fence_consumes_rest() {
    let mut p = Parser::new(b"```rs\ncode");
    assert_eq!(p.next(), Some(Item::CodeBlock(&b"rs"[..], &b"code"[..])));
    assert_eq!(p.next(), None);
    assert_eq!(p.next(), None);
}

#[test]
fn closed_fence_leaves_rest() {
    let items = mark(b"```rs\nlet x;\n```\nafter");
    assert_eq!(
        items,
        vec![
            Item::CodeBlock(&b"rs"[..], &b"let x;"[..]),
            Item::Newline,
            Item::Text(Style::empty(), &b"after"[..]),
        ]
    );
}

#[test]
fn indentation_and_quote() {
    let items = mark(b"   x\n> q");
    assert_eq!(
        items,
        vec![
            Item::Indentation(3),
            Item::Text(Style::empty(), &b"x"[..]),
            Item::Newline,
            Item::QuoteIndent,
            Item::Text(styled(|s| s.quoted = true), &b"q"[..]),
        ]
    );
}

#[test]
fn separator_line() {
    let items = mark(b"-----\nx");
    assert_eq!(
        items,
        vec![Item::Separator, Item::Text(Style::empty(), &b"x"[..])]
    );
}

#[test]
fn separator_consumes_whole_equals_run() {
    let items = mark(b"====\nx");
    assert_eq!(
        items,
        vec![Item::Separator, Item::Text(Style::empty(), &b"x"[..])]
    );
    assert_eq!(mark(b"===="), vec![Item::Separator]);
}

#[test]
fn escaped_multibyte_character_stays_whole() {
    let text = "\\\u{e9}x";
    let items = mark(text.as_bytes());
    assert_eq!(
        items,
        vec![
            Item::Text(Style::empty(), "\u{e9}".as_bytes()),
            Item::Text(Style::empty(), &b"x"[..]),
        ]
    );
}

#[test]
fn inline_code_span() {
    let items = mark(b"`c`d");
    assert_eq!(
        items,
        vec![
            Item::Text(styled(|s| s.code = true), &b"c"[..]),
            Item::Text(Style::empty(), &b"d"[..]),
        ]
    );
}

#[test]
fn autolink_and_link() {
    let items = mark(b"<http://e.com> [lbl](url)");
    assert_eq!(
        items,
        vec![
            Item::Hyperlink(Style::empty(), &b"http://e.com"[..], &b"http://e.com"[..]),
            Item::Text(Style::empty(), &b" "[..]),
            Item::Hyperlink(Style::empty(), &b"lbl"[..], &b"url"[..]),
        ]
    );
}

#[test]
fn newline_resets_style() {
    let items = mark(b"_u\nv");
    assert_eq!(
        items,
        vec![
            Item::Text(styled(|s| s.underline = true), &b"u"[..]),
            Item::Newline,
            Item::Text(Style::empty(), &b"v"[..]),
        ]
    );
}

#[test]
fn every_step_consumes_input() {
    let text = b"# h\n- b\n*i* `c` [l](u) $s$ ^r^ ~t~ _u_ --- x";
    let mut p = Parser::new(text);
    let mut steps = 0usize;
    while let Some(_) = p.next() {
        steps += 1;
        assert!(steps <= text.len());
    }
    assert_eq!(p.next(), None);
}
