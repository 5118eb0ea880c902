//! The highlight scanner and its memoizing cache: a simplified single pass
//! used for live-edit display. It produces a flat list of formatted runs
//! (spans of the input paired with resolved visual formats) instead of
//! structured items, and closes an already-active toggle immediately, with the
//! closing delimiter inside the styled run.

use vstd::prelude::*;
use vstd::slice::slice_to_vec;
use crate::parser::{
    Style, Needle, spec_find, spec_find_fence, find, find_fence, lemma_spec_find,
    lemma_spec_find_fence, NL, SPACE, HASH, GT, DASH, STAR, DOLLAR, CARET, BACKSLASH, BACKTICK,
    UNDERSCORE, TILDE,
};

verus! {

/// An RGBA color, as a theme supplies it.
#[derive(Clone, Copy, Debug, PartialEq, Eq, Structural)]
pub struct Color {
    pub r: u8,
    pub g: u8,
    pub b: u8,
    pub a: u8,
}

impl Color {
    /// The fully transparent color: the background of non-code runs.
    pub open spec fn transparent_spec() -> Color {
        Color { r: 0, g: 0, b: 0, a: 0 }
    }

    /// Builds the fully transparent color.
    pub fn transparent() -> (c: Color)
        ensures
            c == Color::transparent_spec(),
    {
        Color { r: 0, g: 0, b: 0, a: 0 }
    }
}

/// What the format resolution reads from the caller's theme: the three text
/// colors and the code background color.
#[derive(Clone, Copy, Debug, PartialEq, Eq, Structural)]
pub struct Theme {
    pub text_color: Color,
    pub strong_color: Color,
    pub weak_color: Color,
    pub code_background: Color,
}

impl Theme {
    /// The all-zero theme a fresh cache starts with.
    pub open spec fn initial_spec() -> Theme {
        Theme {
            text_color: Color::transparent_spec(),
            strong_color: Color::transparent_spec(),
            weak_color: Color::transparent_spec(),
            code_background: Color::transparent_spec(),
        }
    }
}

impl Default for Theme {
    fn default() -> (t: Theme)
        ensures
            t == Theme::initial_spec(),
    {
        Theme {
            text_color: Color::transparent(),
            strong_color: Color::transparent(),
            weak_color: Color::transparent(),
            code_background: Color::transparent(),
        }
    }
}

/// The resolvable font classes a theme supplies.
#[derive(Clone, Copy, Debug, PartialEq, Eq, Structural)]
pub enum FontClass {
    Heading,
    Monospace,
    Small,
    Body,
}

/// A resolved visual format: what a style means under a given theme.
/// Underline and strikethrough strokes, when present, use `color`.
#[derive(Clone, Copy, Debug, PartialEq, Eq, Structural)]
pub struct RunFormat {
    pub color: Color,
    pub font: FontClass,
    pub background: Color,
    pub italics: bool,
    pub underline: bool,
    pub strikethrough: bool,
    pub raised_valign: bool,
}

/// A formatted run: the input bytes from `start` (inclusive) to `end`
/// (exclusive), displayed with `format`.
#[derive(Clone, Copy, Debug, PartialEq, Eq, Structural)]
pub struct Run {
    pub start: usize,
    pub end: usize,
    pub format: RunFormat,
}

/// The format a style resolves to under a theme: the strong color for
/// strong, heading or subheading text, the weak color for quoted text, the
/// plain text color otherwise; the heading font for headings, the fixed-width
/// font for code, the reduced font for small or raised text, the body font
/// otherwise; a background fill only for code; strokes only for underline and
/// strikethrough; top-of-line alignment only when raised.
pub open spec fn spec_format_from_style(theme: Theme, st: Style) -> RunFormat {
    RunFormat {
        color: if st.strong || st.heading || st.subheading {
            theme.strong_color
        } else if st.quoted {
            theme.weak_color
        } else {
            theme.text_color
        },
        font: if st.heading {
            FontClass::Heading
        } else if st.code {
            FontClass::Monospace
        } else if st.small || st.raised {
            FontClass::Small
        } else {
            FontClass::Body
        },
        background: if st.code {
            theme.code_background
        } else {
            Color::transparent_spec()
        },
        italics: st.italics,
        underline: st.underline,
        strikethrough: st.strikethrough,
        raised_valign: st.raised,
    }
}

/// Resolves a style to its visual format under `theme`.
pub fn format_from_style(theme: &Theme, mark_style: &Style) -> (f: RunFormat)
    ensures
        f == spec_format_from_style(*theme, *mark_style),
{
    let color = if mark_style.strong || mark_style.heading || mark_style.subheading {
        theme.strong_color
    } else if mark_style.quoted {
        theme.weak_color
    } else {
        theme.text_color
    };
    let font = if mark_style.heading {
        FontClass::Heading
    } else if mark_style.code {
        FontClass::Monospace
    } else if mark_style.small || mark_style.raised {
        FontClass::Small
    } else {
        FontClass::Body
    };
    let background = if mark_style.code {
        theme.code_background
    } else {
        Color::transparent()
    };
    RunFormat {
        color,
        font,
        background,
        italics: mark_style.italics,
        underline: mark_style.underline,
        strikethrough: mark_style.strikethrough,
        raised_valign: mark_style.raised,
    }
}

/// The runs the highlight scanner produces from absolute position `pos` of
/// input `s`, given the start-of-line flag and the current style.
///
/// A fenced block at start of line becomes one code-formatted run through the
/// closing fence (or to the end of input). A backtick opens a code run through
/// the closing backtick or the line break, closer included. Anything else
/// falls to `spec_hl_tail`, possibly after a marker set the style, and for a
/// toggle delimiter whose flag is already active, after that delimiter is
/// emitted as its own run, still styled, before the flag clears.
#[verifier::opaque]
pub open spec fn spec_hl(theme: Theme, s: Seq<u8>, pos: int, sol: bool, style: Style) -> Seq<Run>
    decreases s.len() - pos, 2int,
    when 0 <= pos <= s.len()
    via spec_hl_decreases
{
    if pos >= s.len() {
        Seq::empty()
    } else if sol && pos + 3 <= s.len() && s[pos] == BACKTICK && s[pos + 1] == BACKTICK && s[pos
        + 2] == BACKTICK {
        let end = match spec_find_fence(s, pos) {
            Some(i) => i + 4,
            None => s.len() as int,
        };
        seq![
            Run {
                start: pos as usize,
                end: end as usize,
                format: spec_format_from_style(theme, Style { code: true, ..Style::empty_spec() }),
            },
        ] + spec_hl(theme, s, end, sol, Style::empty_spec())
    } else if s[pos] == BACKTICK {
        let end = match spec_find(s, pos + 1, Needle::BacktickOrNewline) {
            Some(i) => i + 1,
            None => s.len() as int,
        };
        seq![
            Run {
                start: pos as usize,
                end: end as usize,
                format: spec_format_from_style(theme, Style { code: true, ..style }),
            },
        ] + spec_hl(theme, s, end, sol, Style { code: false, ..style })
    } else if s[pos] == BACKSLASH && pos + 2 <= s.len() {
        spec_hl_tail(theme, s, pos, 2, style)
    } else if sol && s[pos] == SPACE {
        spec_hl_tail(theme, s, pos, 1, style)
    } else if sol && pos + 2 <= s.len() && s[pos] == HASH && s[pos + 1] == SPACE {
        spec_hl_tail(theme, s, pos, 2, Style { heading: true, ..style })
    } else if sol && pos + 3 <= s.len() && s[pos] == HASH && s[pos + 1] == HASH && s[pos + 2]
        == SPACE {
        spec_hl_tail(theme, s, pos, 3, Style { subheading: true, ..style })
    } else if sol && pos + 2 <= s.len() && s[pos] == GT && s[pos + 1] == SPACE {
        spec_hl_tail(theme, s, pos, 2, Style { quoted: true, ..style })
    } else if sol && pos + 2 <= s.len() && s[pos] == DASH && s[pos + 1] == SPACE {
        spec_hl_tail(theme, s, pos, 2, style)
    } else if s[pos] == STAR && style.strong {
        seq![
            Run {
                start: pos as usize,
                end: (pos + 1) as usize,
                format: spec_format_from_style(theme, style),
            },
        ] + spec_hl_tail(theme, s, pos + 1, 0, Style { strong: false, ..style })
    } else if s[pos] == STAR {
        spec_hl_tail(theme, s, pos, 1, Style { strong: true, ..style })
    } else if s[pos] == UNDERSCORE && style.underline {
        seq![
            Run {
                start: pos as usize,
                end: (pos + 1) as usize,
                format: spec_format_from_style(theme, style),
            },
        ] + spec_hl_tail(theme, s, pos + 1, 0, Style { underline: false, ..style })
    } else if s[pos] == UNDERSCORE {
        spec_hl_tail(theme, s, pos, 1, Style { underline: true, ..style })
    } else if s[pos] == TILDE && style.strikethrough {
        seq![
            Run {
                start: pos as usize,
                end: (pos + 1) as usize,
                format: spec_format_from_style(theme, style),
            },
        ] + spec_hl_tail(theme, s, pos + 1, 0, Style { strikethrough: false, ..style })
    } else if s[pos] == TILDE {
        spec_hl_tail(theme, s, pos, 1, Style { strikethrough: true, ..style })
    } else if s[pos] == DOLLAR && style.small {
        seq![
            Run {
                start: pos as usize,
                end: (pos + 1) as usize,
                format: spec_format_from_style(theme, style),
            },
        ] + spec_hl_tail(theme, s, pos + 1, 0, Style { small: false, ..style })
    } else if s[pos] == DOLLAR {
        spec_hl_tail(theme, s, pos, 1, Style { small: true, ..style })
    } else if s[pos] == CARET && style.raised {
        seq![
            Run {
                start: pos as usize,
                end: (pos + 1) as usize,
                format: spec_format_from_style(theme, style),
            },
        ] + spec_hl_tail(theme, s, pos + 1, 0, Style { raised: false, ..style })
    } else if s[pos] == CARET {
        spec_hl_tail(theme, s, pos, 1, Style { raised: true, ..style })
    } else {
        spec_hl_tail(theme, s, pos, 0, style)
    }
}

/// The tail of one highlight step: after `skip` delimiter bytes were consumed
/// into the pending run, the run extends to the line break (inclusive, ending
/// the line and resetting the style) or to the next inline delimiter,
/// whichever comes first; it is never empty while input remains.
#[verifier::opaque]
pub open spec fn spec_hl_tail(theme: Theme, s: Seq<u8>, pos: int, skip: int, style: Style) -> Seq<
    Run,
>
    decreases s.len() - pos, 1int,
    when 0 <= pos && 0 <= skip && pos + skip <= s.len()
    via spec_hl_tail_decreases
{
    let line_end = match spec_find(s, pos + skip, Needle::Byte(NL)) {
        Some(i) => i - pos + 1,
        None => s.len() - pos,
    };
    let end = match spec_find(s, pos + skip, Needle::SpecialInline) {
        Some(i) => if i - pos < 1 {
            1int
        } else {
            i - pos
        },
        None => s.len() - pos,
    };
    if line_end <= end {
        let np = pos + line_end;
        if np > pos {
            seq![
                Run {
                    start: pos as usize,
                    end: np as usize,
                    format: spec_format_from_style(theme, style),
                },
            ] + spec_hl(theme, s, np, true, Style::empty_spec())
        } else {
            seq![
                Run {
                    start: pos as usize,
                    end: np as usize,
                    format: spec_format_from_style(theme, style),
                },
            ]
        }
    } else {
        let np = pos + end;
        seq![
            Run {
                start: pos as usize,
                end: np as usize,
                format: spec_format_from_style(theme, style),
            },
        ] + spec_hl(theme, s, np, false, style)
    }
}

#[via_fn]
proof fn spec_hl_decreases(theme: Theme, s: Seq<u8>, pos: int, sol: bool, style: Style) {
    if 0 <= pos && pos < s.len() {
        lemma_spec_find_fence(s, pos);
        lemma_spec_find(s, pos + 1, Needle::BacktickOrNewline);
    }
}

#[via_fn]
proof fn spec_hl_tail_decreases(theme: Theme, s: Seq<u8>, pos: int, skip: int, style: Style) {
    if 0 <= pos && 0 <= skip && pos + skip <= s.len() {
        lemma_spec_find(s, pos + skip, Needle::Byte(NL));
        lemma_spec_find(s, pos + skip, Needle::SpecialInline);
    }
}

/// How one non-code highlight step unfolds, for each delimiter case: which
/// tail the scan continues with, and, for a closing toggle, the one-byte run
/// that goes out first.
proof fn lemma_hl_absorb_unfold(theme: Theme, s: Seq<u8>, pos: int, sol: bool, style: Style)
    requires
        0 <= pos < s.len(),
        s[pos] != BACKTICK,
    ensures
        (s[pos] == BACKSLASH && pos + 2 <= s.len()) ==> spec_hl(theme, s, pos, sol, style)
            == spec_hl_tail(theme, s, pos, 2, style),
        (!(s[pos] == BACKSLASH && pos + 2 <= s.len()) && sol && s[pos] == SPACE) ==> spec_hl(
            theme,
            s,
            pos,
            sol,
            style,
        ) == spec_hl_tail(theme, s, pos, 1, style),
        (!(s[pos] == BACKSLASH && pos + 2 <= s.len()) && sol && !(s[pos] == SPACE) && pos + 2
            <= s.len() && s[pos] == HASH && s[pos + 1] == SPACE) ==> spec_hl(theme, s, pos, sol, style)
            == spec_hl_tail(theme, s, pos, 2, Style { heading: true, ..style }),
        (!(s[pos] == BACKSLASH && pos + 2 <= s.len()) && sol && !(s[pos] == SPACE) && !(pos + 2
            <= s.len() && s[pos] == HASH && s[pos + 1] == SPACE) && pos + 3 <= s.len() && s[pos]
            == HASH && s[pos + 1] == HASH && s[pos + 2] == SPACE) ==> spec_hl(theme, s, pos, sol, style)
            == spec_hl_tail(theme, s, pos, 3, Style { subheading: true, ..style }),
        (!(s[pos] == BACKSLASH && pos + 2 <= s.len()) && sol && !(s[pos] == SPACE) && !(pos + 2
            <= s.len() && s[pos] == HASH && s[pos + 1] == SPACE) && !(pos + 3 <= s.len() && s[pos]
            == HASH && s[pos + 1] == HASH && s[pos + 2] == SPACE) && pos + 2 <= s.len() && s[pos]
            == GT && s[pos + 1] == SPACE) ==> spec_hl(theme, s, pos, sol, style) == spec_hl_tail(
            theme,
            s,
            pos,
            2,
            Style { quoted: true, ..style },
        ),
        (!(s[pos] == BACKSLASH && pos + 2 <= s.len()) && sol && !(s[pos] == SPACE) && !(pos + 2
            <= s.len() && s[pos] == HASH && s[pos + 1] == SPACE) && !(pos + 3 <= s.len() && s[pos]
            == HASH && s[pos + 1] == HASH && s[pos + 2] == SPACE) && !(pos + 2 <= s.len() && s[pos]
            == GT && s[pos + 1] == SPACE) && pos + 2 <= s.len() && s[pos] == DASH && s[pos + 1]
            == SPACE) ==> spec_hl(theme, s, pos, sol, style) == spec_hl_tail(theme, s, pos, 2, style),
        (!(s[pos] == BACKSLASH && pos + 2 <= s.len()) && !(sol && (s[pos] == SPACE || (pos + 2
            <= s.len() && s[pos] == HASH && s[pos + 1] == SPACE) || (pos + 3 <= s.len() && s[pos]
            == HASH && s[pos + 1] == HASH && s[pos + 2] == SPACE) || (pos + 2 <= s.len() && s[pos]
            == GT && s[pos + 1] == SPACE) || (pos + 2 <= s.len() && s[pos] == DASH && s[pos + 1]
            == SPACE))) && s[pos] == STAR && style.strong) ==> spec_hl(theme, s, pos, sol, style)
            == seq![
            Run {
                start: pos as usize,
                end: (pos + 1) as usize,
                format: spec_format_from_style(theme, style),
            },
        ] + spec_hl_tail(theme, s, pos + 1, 0, Style { strong: false, ..style }),
        (!(s[pos] == BACKSLASH && pos + 2 <= s.len()) && !(sol && (s[pos] == SPACE || (pos + 2
            <= s.len() && s[pos] == HASH && s[pos + 1] == SPACE) || (pos + 3 <= s.len() && s[pos]
            == HASH && s[pos + 1] == HASH && s[pos + 2] == SPACE) || (pos + 2 <= s.len() && s[pos]
            == GT && s[pos + 1] == SPACE) || (pos + 2 <= s.len() && s[pos] == DASH && s[pos + 1]
            == SPACE))) && s[pos] == STAR && !style.strong) ==> spec_hl(theme, s, pos, sol, style)
            == spec_hl_tail(theme, s, pos, 1, Style { strong: true, ..style }),
        (!(s[pos] == BACKSLASH && pos + 2 <= s.len()) && !(sol && (s[pos] == SPACE || (pos + 2
            <= s.len() && s[pos] == HASH && s[pos + 1] == SPACE) || (pos + 3 <= s.len() && s[pos]
            == HASH && s[pos + 1] == HASH && s[pos + 2] == SPACE) || (pos + 2 <= s.len() && s[pos]
            == GT && s[pos + 1] == SPACE) || (pos + 2 <= s.len() && s[pos] == DASH && s[pos + 1]
            == SPACE))) && s[pos] == UNDERSCORE && style.underline) ==> spec_hl(theme, s, pos, sol, style)
            == seq![
            Run {
                start: pos as usize,
                end: (pos + 1) as usize,
                format: spec_format_from_style(theme, style),
            },
        ] + spec_hl_tail(theme, s, pos + 1, 0, Style { underline: false, ..style }),
        (!(s[pos] == BACKSLASH && pos + 2 <= s.len()) && !(sol && (s[pos] == SPACE || (pos + 2
            <= s.len() && s[pos] == HASH && s[pos + 1] == SPACE) || (pos + 3 <= s.len() && s[pos]
            == HASH && s[pos + 1] == HASH && s[pos + 2] == SPACE) || (pos + 2 <= s.len() && s[pos]
            == GT && s[pos + 1] == SPACE) || (pos + 2 <= s.len() && s[pos] == DASH && s[pos + 1]
            == SPACE))) && s[pos] == UNDERSCORE && !style.underline) ==> spec_hl(theme, s, pos, sol, style)
            == spec_hl_tail(theme, s, pos, 1, Style { underline: true, ..style }),
        (!(s[pos] == BACKSLASH && pos + 2 <= s.len()) && !(sol && (s[pos] == SPACE || (pos + 2
            <= s.len() && s[pos] == HASH && s[pos + 1] == SPACE) || (pos + 3 <= s.len() && s[pos]
            == HASH && s[pos + 1] == HASH && s[pos + 2] == SPACE) || (pos + 2 <= s.len() && s[pos]
            == GT && s[pos + 1] == SPACE) || (pos + 2 <= s.len() && s[pos] == DASH && s[pos + 1]
            == SPACE))) && s[pos] == TILDE && style.strikethrough) ==> spec_hl(theme, s, pos, sol, style)
            == seq![
            Run {
                start: pos as usize,
                end: (pos + 1) as usize,
                format: spec_format_from_style(theme, style),
            },
        ] + spec_hl_tail(theme, s, pos + 1, 0, Style { strikethrough: false, ..style }),
        (!(s[pos] == BACKSLASH && pos + 2 <= s.len()) && !(sol && (s[pos] == SPACE || (pos + 2
            <= s.len() && s[pos] == HASH && s[pos + 1] == SPACE) || (pos + 3 <= s.len() && s[pos]
            == HASH && s[pos + 1] == HASH && s[pos + 2] == SPACE) || (pos + 2 <= s.len() && s[pos]
            == GT && s[pos + 1] == SPACE) || (pos + 2 <= s.len() && s[pos] == DASH && s[pos + 1]
            == SPACE))) && s[pos] == TILDE && !style.strikethrough) ==> spec_hl(theme, s, pos, sol, style)
            == spec_hl_tail(theme, s, pos, 1, Style { strikethrough: true, ..style }),
        (!(s[pos] == BACKSLASH && pos + 2 <= s.len()) && !(sol && (s[pos] == SPACE || (pos + 2
            <= s.len() && s[pos] == HASH && s[pos + 1] == SPACE) || (pos + 3 <= s.len() && s[pos]
            == HASH && s[pos + 1] == HASH && s[pos + 2] == SPACE) || (pos + 2 <= s.len() && s[pos]
            == GT && s[pos + 1] == SPACE) || (pos + 2 <= s.len() && s[pos] == DASH && s[pos + 1]
            == SPACE))) && s[pos] == DOLLAR && style.small) ==> spec_hl(theme, s, pos, sol, style)
            == seq![
            Run {
                start: pos as usize,
                end: (pos + 1) as usize,
                format: spec_format_from_style(theme, style),
            },
        ] + spec_hl_tail(theme, s, pos + 1, 0, Style { small: false, ..style }),
        (!(s[pos] == BACKSLASH && pos + 2 <= s.len()) && !(sol && (s[pos] == SPACE || (pos + 2
            <= s.len() && s[pos] == HASH && s[pos + 1] == SPACE) || (pos + 3 <= s.len() && s[pos]
            == HASH && s[pos + 1] == HASH && s[pos + 2] == SPACE) || (pos + 2 <= s.len() && s[pos]
            == GT && s[pos + 1] == SPACE) || (pos + 2 <= s.len() && s[pos] == DASH && s[pos + 1]
            == SPACE))) && s[pos] == DOLLAR && !style.small) ==> spec_hl(theme, s, pos, sol, style)
            == spec_hl_tail(theme, s, pos, 1, Style { small: true, ..style }),
        (!(s[pos] == BACKSLASH && pos + 2 <= s.len()) && !(sol && (s[pos] == SPACE || (pos + 2
            <= s.len() && s[pos] == HASH && s[pos + 1] == SPACE) || (pos + 3 <= s.len() && s[pos]
            == HASH && s[pos + 1] == HASH && s[pos + 2] == SPACE) || (pos + 2 <= s.len() && s[pos]
            == GT && s[pos + 1] == SPACE) || (pos + 2 <= s.len() && s[pos] == DASH && s[pos + 1]
            == SPACE))) && s[pos] == CARET && style.raised) ==> spec_hl(theme, s, pos, sol, style)
            == seq![
            Run {
                start: pos as usize,
                end: (pos + 1) as usize,
                format: spec_format_from_style(theme, style),
            },
        ] + spec_hl_tail(theme, s, pos + 1, 0, Style { raised: false, ..style }),
        (!(s[pos] == BACKSLASH && pos + 2 <= s.len()) && !(sol && (s[pos] == SPACE || (pos + 2
            <= s.len() && s[pos] == HASH && s[pos + 1] == SPACE) || (pos + 3 <= s.len() && s[pos]
            == HASH && s[pos + 1] == HASH && s[pos + 2] == SPACE) || (pos + 2 <= s.len() && s[pos]
            == GT && s[pos + 1] == SPACE) || (pos + 2 <= s.len() && s[pos] == DASH && s[pos + 1]
            == SPACE))) && s[pos] == CARET && !style.raised) ==> spec_hl(theme, s, pos, sol, style)
            == spec_hl_tail(theme, s, pos, 1, Style { raised: true, ..style }),
        (!(s[pos] == BACKSLASH && pos + 2 <= s.len()) && !(sol && (s[pos] == SPACE || (pos + 2
            <= s.len() && s[pos] == HASH && s[pos + 1] == SPACE) || (pos + 3 <= s.len() && s[pos]
            == HASH && s[pos + 1] == HASH && s[pos + 2] == SPACE) || (pos + 2 <= s.len() && s[pos]
            == GT && s[pos + 1] == SPACE) || (pos + 2 <= s.len() && s[pos] == DASH && s[pos + 1]
            == SPACE))) && s[pos] != STAR && s[pos] != UNDERSCORE && s[pos] != TILDE && s[pos] != DOLLAR
            && s[pos] != CARET) ==> spec_hl(
            theme,
            s,
            pos,
            sol,
            style,
        ) == spec_hl_tail(theme, s, pos, 0, style),
    decreases 0int,
{
    reveal(spec_hl);
    reveal(spec_hl_tail);
}

/// The delimiter phase of one non-code highlight step: decides how many
/// delimiter bytes the pending run absorbs, possibly flipping a toggle; a
/// toggle that is already active instead closes, its byte going out as a
/// one-byte run still styled, before the flag clears. Returns the position,
/// the number of absorbed bytes, and the style for the pending run.
#[verifier::rlimit(100)]
fn hl_absorb(theme: &Theme, text: &[u8], runs: &mut Vec<Run>, pos: usize, sol: bool, style: Style) -> (r: (
    usize,
    usize,
    Style,
))
    requires
        pos < text@.len(),
        text@[pos as int] != BACKTICK,
    ensures
        old(runs)@ + spec_hl(*theme, text@, pos as int, sol, style) =~= final(runs)@
            + spec_hl_tail(*theme, text@, r.0 as int, r.1 as int, r.2),
        r.0 == pos || r.0 == pos + 1,
        r.0 + r.1 <= text@.len(),
{
    let ghost pre_runs = runs@;
    let ghost p0: int = pos as int;
    let ghost sol0 = sol;
    let ghost style0 = style;
    proof {
        lemma_hl_absorb_unfold(*theme, text@, p0, sol0, style0);
    }
    let mut pos = pos;
    let mut style = style;
    let mut skip: usize = 0;
    if text[pos] == BACKSLASH && text.len() - pos >= 2 {
        skip = 2;
    } else if sol && text[pos] == SPACE {
        skip = 1;
    } else if sol && text.len() - pos >= 2 && text[pos] == HASH && text[pos + 1] == SPACE {
        style = Style { heading: true, ..style };
        skip = 2;
    } else if sol && text.len() - pos >= 3 && text[pos] == HASH && text[pos + 1] == HASH
        && text[pos + 2] == SPACE {
        style = Style { subheading: true, ..style };
        skip = 3;
    } else if sol && text.len() - pos >= 2 && text[pos] == GT && text[pos + 1] == SPACE {
        style = Style { quoted: true, ..style };
        skip = 2;
    } else if sol && text.len() - pos >= 2 && text[pos] == DASH && text[pos + 1] == SPACE {
        skip = 2;
    } else if text[pos] == STAR {
        if style.strong {
            runs.push(Run { start: pos, end: pos + 1, format: format_from_style(theme, &style) });
            pos = pos + 1;
            style = Style { strong: false, ..style };
            proof {
                let close_run = Run {
                    start: p0 as usize,
                    end: (p0 + 1) as usize,
                    format: spec_format_from_style(*theme, style0),
                };
                assert(spec_hl(*theme, text@, p0, sol0, style0) =~= seq![close_run]
                    + spec_hl_tail(*theme, text@, p0 + 1, 0, style));
                assert(runs@ =~= pre_runs + seq![close_run]);
                assert(pre_runs + (seq![close_run] + spec_hl_tail(*theme, text@, p0 + 1, 0, style))
                    =~= (pre_runs + seq![close_run]) + spec_hl_tail(*theme, text@, p0 + 1, 0, style));
            }
        } else {
            style = Style { strong: true, ..style };
            skip = 1;
        }
    } else if text[pos] == UNDERSCORE {
        if style.underline {
            runs.push(Run { start: pos, end: pos + 1, format: format_from_style(theme, &style) });
            pos = pos + 1;
            style = Style { underline: false, ..style };
            proof {
                let close_run = Run {
                    start: p0 as usize,
                    end: (p0 + 1) as usize,
                    format: spec_format_from_style(*theme, style0),
                };
                assert(spec_hl(*theme, text@, p0, sol0, style0) =~= seq![close_run]
                    + spec_hl_tail(*theme, text@, p0 + 1, 0, style));
                assert(runs@ =~= pre_runs + seq![close_run]);
                assert(pre_runs + (seq![close_run] + spec_hl_tail(*theme, text@, p0 + 1, 0, style))
                    =~= (pre_runs + seq![close_run]) + spec_hl_tail(*theme, text@, p0 + 1, 0, style));
            }
        } else {
            style = Style { underline: true, ..style };
            skip = 1;
        }
    } else if text[pos] == TILDE {
        if style.strikethrough {
            runs.push(Run { start: pos, end: pos + 1, format: format_from_style(theme, &style) });
            pos = pos + 1;
            style = Style { strikethrough: false, ..style };
            proof {
                let close_run = Run {
                    start: p0 as usize,
                    end: (p0 + 1) as usize,
                    format: spec_format_from_style(*theme, style0),
                };
                assert(spec_hl(*theme, text@, p0, sol0, style0) =~= seq![close_run]
                    + spec_hl_tail(*theme, text@, p0 + 1, 0, style));
                assert(runs@ =~= pre_runs + seq![close_run]);
                assert(pre_runs + (seq![close_run] + spec_hl_tail(*theme, text@, p0 + 1, 0, style))
                    =~= (pre_runs + seq![close_run]) + spec_hl_tail(*theme, text@, p0 + 1, 0, style));
            }
        } else {
            style = Style { strikethrough: true, ..style };
            skip = 1;
        }
    } else if text[pos] == DOLLAR {
        if style.small {
            runs.push(Run { start: pos, end: pos + 1, format: format_from_style(theme, &style) });
            pos = pos + 1;
            style = Style { small: false, ..style };
            proof {
                let close_run = Run {
                    start: p0 as usize,
                    end: (p0 + 1) as usize,
                    format: spec_format_from_style(*theme, style0),
                };
                assert(spec_hl(*theme, text@, p0, sol0, style0) =~= seq![close_run]
                    + spec_hl_tail(*theme, text@, p0 + 1, 0, style));
                assert(runs@ =~= pre_runs + seq![close_run]);
                assert(pre_runs + (seq![close_run] + spec_hl_tail(*theme, text@, p0 + 1, 0, style))
                    =~= (pre_runs + seq![close_run]) + spec_hl_tail(*theme, text@, p0 + 1, 0, style));
            }
        } else {
            style = Style { small: true, ..style };
            skip = 1;
        }
    } else if text[pos] == CARET {
        if style.raised {
            runs.push(Run { start: pos, end: pos + 1, format: format_from_style(theme, &style) });
            pos = pos + 1;
            style = Style { raised: false, ..style };
            proof {
                let close_run = Run {
                    start: p0 as usize,
                    end: (p0 + 1) as usize,
                    format: spec_format_from_style(*theme, style0),
                };
                assert(spec_hl(*theme, text@, p0, sol0, style0) =~= seq![close_run]
                    + spec_hl_tail(*theme, text@, p0 + 1, 0, style));
                assert(runs@ =~= pre_runs + seq![close_run]);
                assert(pre_runs + (seq![close_run] + spec_hl_tail(*theme, text@, p0 + 1, 0, style))
                    =~= (pre_runs + seq![close_run]) + spec_hl_tail(*theme, text@, p0 + 1, 0, style));
            }
        } else {
            style = Style { raised: true, ..style };
            skip = 1;
        }
    } else {
    }
    (pos, skip, style)
}

/// The emission phase of one non-code highlight step: the pending run extends
/// to the line break (inclusive, ending the line and resetting the style) or
/// to the next inline delimiter, whichever comes first. Returns the scan state
/// afterwards.
#[verifier::rlimit(100)]
fn hl_emit(theme: &Theme, text: &[u8], runs: &mut Vec<Run>, pos: usize, skip: usize, style: Style) -> (r: (
    usize,
    bool,
    Style,
))
    requires
        pos + skip <= text@.len(),
    ensures
        old(runs)@ + spec_hl_tail(*theme, text@, pos as int, skip as int, style) =~= final(runs)@
            + spec_hl(*theme, text@, r.0 as int, r.1, r.2),
        pos <= r.0 <= text@.len(),
        pos < text@.len() ==> pos < r.0,
{
    let ghost p1: int = pos as int;
    let ghost style1 = style;
    let ghost mid_runs = runs@;
    let tlen = text.len();
    let mut pos = pos;
    let mut sol: bool = false;
    let mut style = style;
    let line_end = match find(text, pos + skip, Needle::Byte(NL)) {
        Some(i) => i - pos + 1,
        None => text.len() - pos,
    };
    let end = match find(text, pos + skip, Needle::SpecialInline) {
        Some(i) => if i - pos < 1 {
            1
        } else {
            i - pos
        },
        None => text.len() - pos,
    };
    if line_end <= end {
        runs.push(
            Run { start: pos, end: pos + line_end, format: format_from_style(theme, &style) },
        );
        pos = pos + line_end;
        sol = true;
        style = Style::empty();
    } else {
        runs.push(Run { start: pos, end: pos + end, format: format_from_style(theme, &style) });
        pos = pos + end;
        sol = false;
    }
    proof {
        let emitted = runs@[mid_runs.len() as int];
        assert(spec_hl_tail(*theme, text@, p1, skip as int, style1) =~= seq![emitted] + spec_hl(
            *theme,
            text@,
            pos as int,
            sol,
            style,
        )) by {
            reveal(spec_hl_tail);
            reveal(spec_hl);
        };
        assert(runs@ =~= mid_runs + seq![emitted]);
        assert(mid_runs + (seq![emitted] + spec_hl(*theme, text@, pos as int, sol, style)) =~= (
        mid_runs + seq![emitted]) + spec_hl(*theme, text@, pos as int, sol, style));
    }
    (pos, sol, style)
}

/// The full highlight of a document: the scan from its start, at start of
/// line, with the default style.
pub open spec fn spec_highlight_mark(theme: Theme, s: Seq<u8>) -> Seq<Run> {
    spec_hl(theme, s, 0, true, Style::empty_spec())
}


/// Runs the highlight scanner over a whole document: the flat formatted run
/// list, in source order.
#[verifier::rlimit(100)]
pub fn highlight_mark(theme: &Theme, text: &[u8]) -> (runs: Vec<Run>)
    ensures
        runs@ == spec_highlight_mark(*theme, text@),
{
    let mut runs: Vec<Run> = Vec::new();
    let mut pos: usize = 0;
    let mut sol: bool = true;
    let mut style = Style::empty();
    while pos < text.len()
        invariant
            pos <= text@.len(),
            spec_highlight_mark(*theme, text@) =~= runs@ + spec_hl(
                *theme,
                text@,
                pos as int,
                sol,
                style,
            ),
        decreases text@.len() - pos,
    {
        let ghost pre_runs = runs@;
        let ghost p0: int = pos as int;
        let ghost sol0 = sol;
        let ghost style0 = style;
        if sol && text.len() - pos >= 3 && text[pos] == BACKTICK && text[pos + 1] == BACKTICK
            && text[pos + 2] == BACKTICK {
            let end = match find_fence(text, pos) {
                Some(i) => i + 4,
                None => text.len(),
            };
            let code_only = Style { code: true, ..Style::empty() };
            runs.push(Run { start: pos, end, format: format_from_style(theme, &code_only) });
            pos = end;
            style = Style::empty();
            proof {
                assert(spec_hl(*theme, text@, p0, sol0, style0) =~= seq![
                    Run {
                        start: p0 as usize,
                        end: pos,
                        format: spec_format_from_style(
                            *theme,
                            Style { code: true, ..Style::empty_spec() },
                        ),
                    },
                ] + spec_hl(*theme, text@, pos as int, sol, style)) by {
                    reveal(spec_hl);
                };
                assert(spec_highlight_mark(*theme, text@) =~= runs@ + spec_hl(
                    *theme,
                    text@,
                    pos as int,
                    sol,
                    style,
                ));
            }
            continue;
        }
        if text[pos] == BACKTICK {
            let end = match find(text, pos + 1, Needle::BacktickOrNewline) {
                Some(i) => i + 1,
                None => text.len(),
            };
            let code_on = Style { code: true, ..style };
            runs.push(Run { start: pos, end, format: format_from_style(theme, &code_on) });
            pos = end;
            style = Style { code: false, ..style };
            proof {
                assert(spec_hl(*theme, text@, p0, sol0, style0) =~= seq![
                    Run {
                        start: p0 as usize,
                        end: pos,
                        format: spec_format_from_style(*theme, Style { code: true, ..style0 }),
                    },
                ] + spec_hl(*theme, text@, pos as int, sol, style)) by {
                    reveal(spec_hl);
                };
                assert(spec_highlight_mark(*theme, text@) =~= runs@ + spec_hl(
                    *theme,
                    text@,
                    pos as int,
                    sol,
                    style,
                ));
            }
            continue;
        }
        let absorbed = hl_absorb(theme, text, &mut runs, pos, sol, style);
        let stepped = hl_emit(theme, text, &mut runs, absorbed.0, absorbed.1, absorbed.2);
        pos = stepped.0;
        sol = stepped.1;
        style = stepped.2;
    }
    proof {
        assert(spec_hl(*theme, text@, pos as int, sol, style) =~= Seq::<Run>::empty()) by {
            reveal(spec_hl);
        };
        assert(runs@ + Seq::<Run>::empty() =~= runs@);
    }
    runs
}

/// Whether two byte strings hold the same bytes.
fn bytes_eq(a: &[u8], b: &[u8]) -> (r: bool)
    ensures
        r == (a@ == b@),
{
    if a.len() != b.len() {
        return false;
    }
    let mut i: usize = 0;
    while i < a.len()
        invariant
            i <= a@.len(),
            a@.len() == b@.len(),
            forall|j: int| 0 <= j < i ==> a@[j] == b@[j],
        decreases a@.len() - i,
    {
        if a[i] != b[i] {
            return false;
        }
        i = i + 1;
    }
    proof {
        assert(a@ =~= b@);
    }
    true
}

/// Copies a run list.
fn clone_runs(v: &Vec<Run>) -> (r: Vec<Run>)
    ensures
        r@ == v@,
{
    let mut r: Vec<Run> = Vec::new();
    let mut i: usize = 0;
    while i < v.len()
        invariant
            i <= v@.len(),
            r@ == v@.subrange(0, i as int),
        decreases v@.len() - i,
    {
        r.push(v[i]);
        proof {
            assert(r@ =~= v@.subrange(0, i + 1));
        }
        i = i + 1;
    }
    proof {
        assert(r@ =~= v@);
    }
    r
}

/// The memoizing cache around the highlight scanner, keyed on the pair of
/// theme and full source text. Recomputation happens only when either changed
/// since the previous call; the recompute counter makes that observable.
pub struct Highlighter {
    theme: Theme,
    code: Vec<u8>,
    output: Vec<Run>,
    recomputes: u64,
}

impl Highlighter {
    /// The cache's invariant: the stored output is the highlight of the
    /// stored theme and text.
    pub closed spec fn wf(self) -> bool {
        self.output@ == spec_highlight_mark(self.theme, self.code@)
    }

    /// The theme of the previous call.
    pub closed spec fn cached_theme(self) -> Theme {
        self.theme
    }

    /// The source text of the previous call.
    pub closed spec fn cached_code(self) -> Seq<u8> {
        self.code@
    }

    /// The output of the previous call.
    pub closed spec fn cached_output(self) -> Seq<Run> {
        self.output@
    }

    /// How many times the scanner has been re-run.
    pub closed spec fn recompute_count_spec(self) -> u64 {
        self.recomputes
    }

    /// Whether a call with this theme and text hits the cache.
    pub open spec fn hit(self, theme: Theme, code: Seq<u8>) -> bool {
        self.cached_theme() == theme && self.cached_code() == code
    }

    /// A fresh cache: primed with the all-zero theme, empty text and empty
    /// output, and no recomputation yet.
    pub fn new() -> (h: Highlighter)
        ensures
            h.wf(),
            h.cached_theme() == Theme::initial_spec(),
            h.cached_code() == Seq::<u8>::empty(),
            h.cached_output() == Seq::<Run>::empty(),
            h.recompute_count_spec() == 0,
    {
        let h = Highlighter {
            theme: Theme::default(),
            code: Vec::new(),
            output: Vec::new(),
            recomputes: 0,
        };
        proof {
            reveal(spec_hl);
            assert(h.code@ =~= Seq::<u8>::empty());
            assert(h.output@ =~= Seq::<Run>::empty());
        }
        h
    }

    /// How many times the scanner has been re-run since this cache was built.
    pub fn recompute_count(&self) -> (n: u64)
        ensures
            n == self.recompute_count_spec(),
    {
        self.recomputes
    }

    /// The highlight of `code` under `theme`. When both equal the previous
    /// call's inputs, the stored output is returned unchanged and nothing is
    /// recomputed; otherwise the scanner runs once and its output replaces the
    /// cache.
    pub fn highlight(&mut self, theme: &Theme, code: &[u8]) -> (out: Vec<Run>)
        requires
            old(self).wf(),
            old(self).recompute_count_spec() < u64::MAX,
        ensures
            final(self).wf(),
            out@ == spec_highlight_mark(*theme, code@),
            final(self).cached_theme() == *theme,
            final(self).cached_code() == code@,
            final(self).cached_output() == out@,
            old(self).hit(*theme, code@) ==> final(self).recompute_count_spec() == old(
                self,
            ).recompute_count_spec() && out@ == old(self).cached_output(),
            !old(self).hit(*theme, code@) ==> final(self).recompute_count_spec() == old(
                self,
            ).recompute_count_spec() + 1,
    {
        let same = self.theme == *theme && bytes_eq(self.code.as_slice(), code);
        if !same {
            self.theme = *theme;
            self.code = slice_to_vec(code);
            self.output = highlight_mark(theme, code);
            self.recomputes = self.recomputes + 1;
        }
        clone_runs(&self.output)
    }
}

impl Default for Highlighter {
    fn default() -> (h: Highlighter)
        ensures
            h.wf(),
            h.cached_theme() == Theme::initial_spec(),
            h.cached_code() == Seq::<u8>::empty(),
            h.cached_output() == Seq::<Run>::empty(),
            h.recompute_count_spec() == 0,
    {
        Highlighter::new()
    }
}

/// True of the five toggle delimiter bytes the highlight scanner handles.
pub open spec fn is_hl_toggle(b: u8) -> bool {
    b == STAR || b == UNDERSCORE || b == TILDE || b == DOLLAR || b == CARET
}

/// The flag of `st` that the toggle byte `b` governs.
pub open spec fn toggle_flag(st: Style, b: u8) -> bool {
    if b == STAR {
        st.strong
    } else if b == UNDERSCORE {
        st.underline
    } else if b == TILDE {
        st.strikethrough
    } else if b == DOLLAR {
        st.small
    } else {
        st.raised
    }
}

/// `st` with the flag that the toggle byte `b` governs set to `v`.
pub open spec fn with_toggle(st: Style, b: u8, v: bool) -> Style {
    if b == STAR {
        Style { strong: v, ..st }
    } else if b == UNDERSCORE {
        Style { underline: v, ..st }
    } else if b == TILDE {
        Style { strikethrough: v, ..st }
    } else if b == DOLLAR {
        Style { small: v, ..st }
    } else {
        Style { raised: v, ..st }
    }
}

/// Toggle handling of the highlight scanner, for each of its five toggle
/// delimiters (star for strong, underscore for underline, tilde for
/// strikethrough, dollar for small, caret for raised). With the flag clear,
/// the delimiter is absorbed into the following run, which starts at the
/// delimiter and carries the flag. With the flag already set, the very first
/// run emitted is that one closing byte, still formatted with the flag on —
/// the closing delimiter belongs to the styled run, where the structural
/// scanner emits no item for a toggle delimiter at all.
#[verifier::rlimit(100)]
pub proof fn lemma_hl_toggle(theme: Theme, s: Seq<u8>, pos: int, sol: bool, style: Style)
    requires
        0 <= pos < s.len(),
        is_hl_toggle(s[pos]),
    ensures
        toggle_flag(style, s[pos]) ==> spec_hl(theme, s, pos, sol, style) == seq![
            Run {
                start: pos as usize,
                end: (pos + 1) as usize,
                format: spec_format_from_style(theme, style),
            },
        ] + spec_hl_tail(theme, s, pos + 1, 0, with_toggle(style, s[pos], false)),
        !toggle_flag(style, s[pos]) ==> spec_hl(theme, s, pos, sol, style) == spec_hl_tail(
            theme,
            s,
            pos,
            1,
            with_toggle(style, s[pos], true),
        ),
        spec_hl(theme, s, pos, sol, style).len() >= 1,
        spec_hl(theme, s, pos, sol, style)[0].start == pos as usize,
        toggle_flag(style, s[pos]) ==> spec_hl(theme, s, pos, sol, style)[0] == (Run {
            start: pos as usize,
            end: (pos + 1) as usize,
            format: spec_format_from_style(theme, style),
        }),
        !toggle_flag(style, s[pos]) ==> spec_hl(theme, s, pos, sol, style)[0].format
            == spec_format_from_style(theme, with_toggle(style, s[pos], true)),
{
    reveal(spec_hl);
    reveal(spec_hl_tail);
    let b = s[pos];
    if toggle_flag(style, b) {
        let close = Run {
            start: pos as usize,
            end: (pos + 1) as usize,
            format: spec_format_from_style(theme, style),
        };
        let rest = spec_hl_tail(theme, s, pos + 1, 0, with_toggle(style, b, false));
        assert(spec_hl(theme, s, pos, sol, style) == seq![close] + rest);
        assert((seq![close] + rest).len() >= 1);
        assert((seq![close] + rest)[0] == close);
    } else {
        let st2 = with_toggle(style, b, true);
        let tail = spec_hl_tail(theme, s, pos, 1, st2);
        assert(spec_hl(theme, s, pos, sol, style) == tail);
        lemma_spec_find(s, pos + 1, Needle::Byte(NL));
        lemma_spec_find(s, pos + 1, Needle::SpecialInline);
        assert(tail.len() >= 1 && tail[0].start == pos as usize && tail[0].format
            == spec_format_from_style(theme, st2));
    }
}

/// Gluing one run onto a tiling of the rest: a run covering `pos` to `mid`
/// followed by runs tiling `mid` to `n` tiles `pos` to `n`.
proof fn lemma_cover_cons(r: Run, rest: Seq<Run>, pos: int, mid: int, n: int)
    requires
        0 <= pos < mid <= n <= usize::MAX,
        r.start == pos as usize,
        r.end == mid as usize,
        rest.len() <= n - mid + 1,
        rest.len() == 0 ==> mid == n,
        rest.len() > 0 ==> rest[0].start == mid as usize && rest[rest.len() - 1].end == n as usize,
        forall|i: int| 0 <= i < rest.len() ==> #[trigger] rest[i].start <= rest[i].end,
        forall|i: int| 0 < i < rest.len() ==> #[trigger] rest[i].start == rest[i - 1].end,
    ensures
        ({
            let runs = seq![r] + rest;
            &&& 1 <= runs.len() <= n - pos + 1
            &&& runs[0].start == pos as usize
            &&& runs[runs.len() - 1].end == n as usize
            &&& (forall|i: int| 0 <= i < runs.len() ==> #[trigger] runs[i].start <= runs[i].end)
            &&& (forall|i: int| 0 < i < runs.len() ==> #[trigger] runs[i].start == runs[i - 1].end)
        }),
{
    let runs = seq![r] + rest;
    assert forall|i: int| 0 <= i < runs.len() implies #[trigger] runs[i].start <= runs[i].end by {
        if i == 0 {
            assert(runs[0] == r);
        } else {
            assert(runs[i] == rest[i - 1]);
        }
    }
    assert forall|i: int| 0 < i < runs.len() implies #[trigger] runs[i].start == runs[i - 1].end by {
        if i == 1 {
            assert(runs[0] == r && runs[1] == rest[0]);
        } else {
            assert(runs[i] == rest[i - 1] && runs[i - 1] == rest[i - 2]);
        }
    }
}

/// The runs of a highlight scan tile the remaining input: the first starts at
/// the scan position, each later run starts exactly where the one before it
/// ended, the last ends at the end of the input, and a scan of n bytes yields
/// at most n + 1 runs (only a final run can be empty). The output is finite,
/// in source order, and covers the input with no gap and no overlap.
#[verifier::rlimit(100)]
pub proof fn lemma_hl_runs_cover(theme: Theme, s: Seq<u8>, pos: int, sol: bool, style: Style)
    requires
        0 <= pos <= s.len(),
        s.len() <= usize::MAX,
    ensures
        ({
            let runs = spec_hl(theme, s, pos, sol, style);
            &&& runs.len() <= s.len() - pos + 1
            &&& (runs.len() == 0 ==> pos == s.len())
            &&& (runs.len() > 0 ==> runs[0].start == pos as usize && runs[runs.len() - 1].end
                == s.len() as usize)
            &&& (forall|i: int| 0 <= i < runs.len() ==> #[trigger] runs[i].start <= runs[i].end)
            &&& (forall|i: int| 0 < i < runs.len() ==> #[trigger] runs[i].start == runs[i - 1].end)
        }),
    decreases s.len() - pos, 3int,
{
    let n = s.len() as int;
    if pos >= s.len() {
        assert(spec_hl(theme, s, pos, sol, style) == Seq::<Run>::empty()) by {
            reveal(spec_hl);
        };
    } else if sol && pos + 3 <= n && s[pos] == BACKTICK && s[pos + 1] == BACKTICK && s[pos + 2]
        == BACKTICK {
        lemma_spec_find_fence(s, pos);
        let end = match spec_find_fence(s, pos) {
            Some(i) => i + 4,
            None => n,
        };
        let r = Run {
            start: pos as usize,
            end: end as usize,
            format: spec_format_from_style(theme, Style { code: true, ..Style::empty_spec() }),
        };
        assert(spec_hl(theme, s, pos, sol, style) == seq![r] + spec_hl(
            theme,
            s,
            end,
            sol,
            Style::empty_spec(),
        )) by {
            reveal(spec_hl);
            reveal(spec_hl_tail);
        };
        lemma_hl_runs_cover(theme, s, end, sol, Style::empty_spec());
        lemma_cover_cons(r, spec_hl(theme, s, end, sol, Style::empty_spec()), pos, end, n);
    } else if s[pos] == BACKTICK {
        lemma_spec_find(s, pos + 1, Needle::BacktickOrNewline);
        let end = match spec_find(s, pos + 1, Needle::BacktickOrNewline) {
            Some(i) => i + 1,
            None => n,
        };
        let r = Run {
            start: pos as usize,
            end: end as usize,
            format: spec_format_from_style(theme, Style { code: true, ..style }),
        };
        assert(spec_hl(theme, s, pos, sol, style) == seq![r] + spec_hl(
            theme,
            s,
            end,
            sol,
            Style { code: false, ..style },
        )) by {
            reveal(spec_hl);
            reveal(spec_hl_tail);
        };
        lemma_hl_runs_cover(theme, s, end, sol, Style { code: false, ..style });
        lemma_cover_cons(r, spec_hl(theme, s, end, sol, Style { code: false, ..style }), pos, end, n);
    } else {
        lemma_hl_absorb_runs_cover(theme, s, pos, sol, style);
    }
}

/// The absorb cases of `lemma_hl_runs_cover`: at a position holding no
/// backtick and opening no fence, the step's runs tile the rest of the input.
#[verifier::rlimit(100)]
proof fn lemma_hl_absorb_runs_cover(theme: Theme, s: Seq<u8>, pos: int, sol: bool, style: Style)
    requires
        0 <= pos < s.len(),
        s.len() <= usize::MAX,
        s[pos] != BACKTICK,
    ensures
        ({
            let runs = spec_hl(theme, s, pos, sol, style);
            &&& 1 <= runs.len() <= s.len() - pos + 1
            &&& runs[0].start == pos as usize
            &&& runs[runs.len() - 1].end == s.len() as usize
            &&& (forall|i: int| 0 <= i < runs.len() ==> #[trigger] runs[i].start <= runs[i].end)
            &&& (forall|i: int| 0 < i < runs.len() ==> #[trigger] runs[i].start == runs[i - 1].end)
        }),
    decreases s.len() - pos, 2int,
{
    reveal(spec_hl);
    reveal(spec_hl_tail);
    let n = s.len() as int;
    {
        let b = s[pos];
        let escaped = b == BACKSLASH && pos + 2 <= n;
        let marker = sol && (b == SPACE || (pos + 2 <= n && b == HASH && s[pos + 1] == SPACE) || (
        pos + 3 <= n && b == HASH && s[pos + 1] == HASH && s[pos + 2] == SPACE) || (pos + 2 <= n
            && b == GT && s[pos + 1] == SPACE) || (pos + 2 <= n && b == DASH && s[pos + 1]
            == SPACE));
        if escaped {
            lemma_hl_tail_runs_cover(theme, s, pos, 2, style);
        } else if marker {
            if b == SPACE {
                lemma_hl_tail_runs_cover(theme, s, pos, 1, style);
            } else if pos + 2 <= n && b == HASH && s[pos + 1] == SPACE {
                lemma_hl_tail_runs_cover(theme, s, pos, 2, Style { heading: true, ..style });
            } else if b == HASH {
                lemma_hl_tail_runs_cover(theme, s, pos, 3, Style { subheading: true, ..style });
            } else if b == GT {
                lemma_hl_tail_runs_cover(theme, s, pos, 2, Style { quoted: true, ..style });
            } else {
                lemma_hl_tail_runs_cover(theme, s, pos, 2, style);
            }
        } else if is_hl_toggle(b) && toggle_flag(style, b) {
            let st2 = with_toggle(style, b, false);
            let r = Run {
                start: pos as usize,
                end: (pos + 1) as usize,
                format: spec_format_from_style(theme, style),
            };
            lemma_hl_tail_runs_cover(theme, s, pos + 1, 0, st2);
            lemma_cover_cons(r, spec_hl_tail(theme, s, pos + 1, 0, st2), pos, pos + 1, n);
            assert(spec_hl(theme, s, pos, sol, style) == seq![r] + spec_hl_tail(
                theme,
                s,
                pos + 1,
                0,
                st2,
            ));
        } else if is_hl_toggle(b) {
            lemma_hl_tail_runs_cover(theme, s, pos, 1, with_toggle(style, b, true));
        } else {
            lemma_hl_tail_runs_cover(theme, s, pos, 0, style);
        }
    }
}

/// The tail of one highlight step tiles the input from its position to the
/// end: at least one run comes out, the first starts at the position, and at
/// most one run per remaining byte plus a final possibly empty one.
#[verifier::rlimit(100)]
pub proof fn lemma_hl_tail_runs_cover(theme: Theme, s: Seq<u8>, pos: int, skip: int, style: Style)
    requires
        0 <= pos,
        0 <= skip,
        pos + skip <= s.len(),
        s.len() <= usize::MAX,
    ensures
        ({
            let runs = spec_hl_tail(theme, s, pos, skip, style);
            &&& 1 <= runs.len() <= s.len() - pos + 1
            &&& runs[0].start == pos as usize
            &&& runs[runs.len() - 1].end == s.len() as usize
            &&& (forall|i: int| 0 <= i < runs.len() ==> #[trigger] runs[i].start <= runs[i].end)
            &&& (forall|i: int| 0 < i < runs.len() ==> #[trigger] runs[i].start == runs[i - 1].end)
        }),
    decreases s.len() - pos, 1int,
{
    reveal(spec_hl);
    reveal(spec_hl_tail);
    let n = s.len() as int;
    lemma_spec_find(s, pos + skip, Needle::Byte(NL));
    lemma_spec_find(s, pos + skip, Needle::SpecialInline);
    let line_end = match spec_find(s, pos + skip, Needle::Byte(NL)) {
        Some(i) => i - pos + 1,
        None => n - pos,
    };
    let end = match spec_find(s, pos + skip, Needle::SpecialInline) {
        Some(i) => if i - pos < 1 {
            1int
        } else {
            i - pos
        },
        None => n - pos,
    };
    if line_end <= end {
        let np = pos + line_end;
        let r = Run {
            start: pos as usize,
            end: np as usize,
            format: spec_format_from_style(theme, style),
        };
        if np > pos {
            lemma_hl_runs_cover(theme, s, np, true, Style::empty_spec());
            lemma_cover_cons(r, spec_hl(theme, s, np, true, Style::empty_spec()), pos, np, n);
        } else {
            assert(pos == n);
            assert(spec_hl_tail(theme, s, pos, skip, style) == seq![r]);
        }
    } else {
        let np = pos + end;
        let r = Run {
            start: pos as usize,
            end: np as usize,
            format: spec_format_from_style(theme, style),
        };
        lemma_hl_runs_cover(theme, s, np, false, style);
        lemma_cover_cons(r, spec_hl(theme, s, np, false, style), pos, np, n);
    }
}

} // verus!
