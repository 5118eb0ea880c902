use marko::highlighter::{
    format_from_style, highlight_mark, Color, FontClass, Highlighter, Run, Theme,
};
use marko::parser::{mark, Item, Style};

fn theme() -> Theme {
    Theme {
        text_color: Color { r: 1, g: 1, b: 1, a: 255 },
        strong_color: Color { r: 2, g: 2, b: 2, a: 255 },
        weak_color: Color { r: 3, g: 3, b: 3, a: 255 },
        code_background: Color { r: 4, g: 4, b: 4, a: 255 },
    }
}

#[test]
fn format_resolution() {
    let t = theme();
    let plain = format_from_style(&t, &Style::empty());
    assert_eq!(plain.color, t.text_color);
    assert_eq!(plain.font, FontClass::Body);
    assert_eq!(plain.background, Color::transparent());
    assert!(!plain.italics && !plain.underline && !plain.strikethrough);
    assert!(!plain.raised_valign);

    let mut st = Style::empty();
    st.heading = true;
    let heading = format_from_style(&t, &st);
    assert_eq!(heading.color, t.strong_color);
    assert_eq!(heading.font, FontClass::Heading);

    let mut st = Style::empty();
    st.quoted = true;
    assert_eq!(format_from_style(&t, &st).color, t.weak_color);

    let mut st = Style::empty();
    st.code = true;
    let code = format_from_style(&t, &st);
    assert_eq!(code.font, FontClass::Monospace);
    assert_eq!(code.background, t.code_background);

    let mut st = Style::empty();
    st.raised = true;
    let raised = format_from_style(&t, &st);
    assert_eq!(raised.font, FontClass::Small);
    assert!(raised.raised_valign);

    let mut st = Style::empty();
    st.underline = true;
    st.strikethrough = true;
    st.italics = true;
    let deco = format_from_style(&t, &st);
    assert!(deco.underline && deco.strikethrough && deco.italics);
}

#[test]
fn toggle_close_divergence() {
    let t = theme();
    let text = b"*word*";

    // The highlight scanner keeps the delimiters inside strong-styled runs,
    // and the closing star is a styled run of its own.
    let runs = highlight_mark(&t, text);
    let mut strong = Style::empty();
    strong.strong = true;
    let strong_format = format_from_style(&t, &strong);
    assert_eq!(runs[0], Run { start: 0, end: 5, format: strong_format });
    assert_eq!(runs[1], Run { start: 5, end: 6, format: strong_format });
    assert_eq!(&text[runs[1].start..runs[1].end], b"*");

    // The structural scanner excludes the delimiters from the text item.
    let mut italics = Style::empty();
    italics.italics = true;
    assert_eq!(mark(text), vec![Item::Text(italics, &b"word"[..])]);
}

#[test]
fn heading_line_highlight() {
    let t = theme();
    let runs = highlight_mark(&t, b"# Hi\n");
    let mut heading = Style::empty();
    heading.heading = true;
    assert_eq!(
        runs,
        vec![Run { start: 0, end: 5, format: format_from_style(&t, &heading) }]
    );
}

#[test]
fn fenced_block_highlight() {
    let t = theme();
    let runs = highlight_mark(&t, b"```rs\nx\n```");
    let mut code = Style::empty();
    code.code = true;
    assert_eq!(
        runs,
        vec![Run { start: 0, end: 11, format: format_from_style(&t, &code) }]
    );
}

#[test]
fn inline_code_run_is_close_inclusive() {
    let t = theme();
    let text = b"a `c` b";
    let runs = highlight_mark(&t, text);
    let mut code = Style::empty();
    code.code = true;
    assert_eq!(runs[0], Run { start: 0, end: 2, format: format_from_style(&t, &Style::empty()) });
    assert_eq!(runs[1], Run { start: 2, end: 5, format: format_from_style(&t, &code) });
    assert_eq!(&text[runs[1].start..runs[1].end], b"`c`");
}

#[test]
fn cache_recomputes_only_on_change() {
    let t1 = theme();
    let mut t2 = theme();
    t2.text_color = Color { r: 9, g: 9, b: 9, a: 255 };
    let mut h = Highlighter::new();
    assert_eq!(h.recompute_count(), 0);

    let first = h.highlight(&t1, b"*a*");
    assert_eq!(h.recompute_count(), 1);

    // Same theme and text: equivalent output, no recomputation.
    let second = h.highlight(&t1, b"*a*");
    assert_eq!(h.recompute_count(), 1);
    assert_eq!(first, second);

    // Changed text: exactly one recomputation.
    h.highlight(&t1, b"*ab*");
    assert_eq!(h.recompute_count(), 2);

    // Changed theme: exactly one recomputation.
    h.highlight(&t2, b"*ab*");
    assert_eq!(h.recompute_count(), 3);

    let direct = highlight_mark(&t2, b"*ab*");
    let cached = h.highlight(&t2, b"*ab*");
    assert_eq!(h.recompute_count(), 3);
    assert_eq!(direct, cached);
}

#[test]
fn underscore_toggles_underline_close_inclusive() {
    let t = theme();
    let text = b"_x_";
    let runs = highlight_mark(&t, text);
    let mut underline = Style::empty();
    underline.underline = true;
    let u_format = format_from_style(&t, &underline);
    assert_eq!(runs[0], Run { start: 0, end: 2, format: u_format });
    assert_eq!(runs[1], Run { start: 2, end: 3, format: u_format });
    assert!(u_format.underline);
}

#[test]
fn tilde_toggles_strikethrough_close_inclusive() {
    let t = theme();
    let text = b"~x~ y";
    let runs = highlight_mark(&t, text);
    let mut strike = Style::empty();
    strike.strikethrough = true;
    let s_format = format_from_style(&t, &strike);
    assert_eq!(runs[0], Run { start: 0, end: 2, format: s_format });
    assert_eq!(runs[1], Run { start: 2, end: 3, format: s_format });
    assert_eq!(
        runs[2],
        Run { start: 3, end: 5, format: format_from_style(&t, &Style::empty()) }
    );
    assert!(s_format.strikethrough);
}

#[test]
fn empty_input_highlights_to_nothing() {
    assert_eq!(highlight_mark(&theme(), b""), vec![]);
    assert_eq!(mark(b""), vec![]);
}
