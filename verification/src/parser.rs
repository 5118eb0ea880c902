//! The structural scanner: a forward-only, pull-based pass over the source
//! bytes that yields one structural or content item per step.
//!
//! Content fragments are zero-copy views (subslices) into the original input
//! buffer. The scanner state is exactly the remaining input, a start-of-line
//! flag, and the current style; `scan_next` is the specification of one step.

use vstd::prelude::*;
use vstd::slice::slice_subrange;

verus! {

/// The ten independent boolean style flags attached to emitted content.
///
/// `heading`, `subheading`, `quoted` and `code` are block-scoped: set at most
/// once per line and cleared at every line break. The rest are inline toggles
/// flipped by paired delimiters.
#[derive(Clone, Copy, Debug, PartialEq, Eq, Structural)]
pub struct Style {
    pub heading: bool,
    pub subheading: bool,
    pub quoted: bool,
    pub code: bool,
    pub strong: bool,
    pub underline: bool,
    pub strikethrough: bool,
    pub italics: bool,
    pub small: bool,
    pub raised: bool,
}

impl Style {
    /// The default style: every flag cleared.
    pub open spec fn empty_spec() -> Style {
        Style {
            heading: false,
            subheading: false,
            quoted: false,
            code: false,
            strong: false,
            underline: false,
            strikethrough: false,
            italics: false,
            small: false,
            raised: false,
        }
    }

    /// Builds the all-clear style.
    pub fn empty() -> (s: Style)
        ensures
            s == Style::empty_spec(),
    {
        Style {
            heading: false,
            subheading: false,
            quoted: false,
            code: false,
            strong: false,
            underline: false,
            strikethrough: false,
            italics: false,
            small: false,
            raised: false,
        }
    }
}

impl Default for Style {
    fn default() -> (s: Style)
        ensures
            s == Style::empty_spec(),
    {
        Style::empty()
    }
}

/// One unit of structural output. Byte-slice fields are views into the
/// original input buffer and stay valid only as long as that buffer does.
#[derive(Clone, Copy, Debug, PartialEq, Eq)]
pub enum Item<'a> {
    Newline,
    Text(Style, &'a [u8]),
    Hyperlink(Style, &'a [u8], &'a [u8]),
    Indentation(usize),
    QuoteIndent,
    BulletPoint,
    NumberedPoint(&'a [u8]),
    Separator,
    CodeBlock(&'a [u8], &'a [u8]),
}

/// The mathematical shape of an `Item`: the same variants over byte sequences.
pub enum SpecItem {
    Newline,
    Text(Style, Seq<u8>),
    Hyperlink(Style, Seq<u8>, Seq<u8>),
    Indentation(int),
    QuoteIndent,
    BulletPoint,
    NumberedPoint(Seq<u8>),
    Separator,
    CodeBlock(Seq<u8>, Seq<u8>),
}

impl<'a> View for Item<'a> {
    type V = SpecItem;

    open spec fn view(&self) -> SpecItem {
        match *self {
            Item::Newline => SpecItem::Newline,
            Item::Text(st, t) => SpecItem::Text(st, t@),
            Item::Hyperlink(st, t, u) => SpecItem::Hyperlink(st, t@, u@),
            Item::Indentation(n) => SpecItem::Indentation(n as int),
            Item::QuoteIndent => SpecItem::QuoteIndent,
            Item::BulletPoint => SpecItem::BulletPoint,
            Item::NumberedPoint(n) => SpecItem::NumberedPoint(n@),
            Item::Separator => SpecItem::Separator,
            Item::CodeBlock(l, c) => SpecItem::CodeBlock(l@, c@),
        }
    }
}

/// Byte value of `\n`.
pub const NL: u8 = 10;

/// Byte value of a space.
pub const SPACE: u8 = 32;

/// Byte value of `$`.
pub const DOLLAR: u8 = 36;

/// Byte value of `(`.
pub const LPAREN: u8 = 40;

/// Byte value of `)`.
pub const RPAREN: u8 = 41;

/// Byte value of `*`.
pub const STAR: u8 = 42;

/// Byte value of `-`.
pub const DASH: u8 = 45;

/// Byte value of `.`.
pub const DOT: u8 = 46;

/// Byte value of `/`.
pub const SLASH: u8 = 47;

/// Byte value of `0`.
pub const DIGIT_LO: u8 = 48;

/// Byte value of `9`.
pub const DIGIT_HI: u8 = 57;

/// Byte value of `<`.
pub const LT: u8 = 60;

/// Byte value of `=`.
pub const EQUALS: u8 = 61;

/// Byte value of `>`.
pub const GT: u8 = 62;

/// Byte value of `#`.
pub const HASH: u8 = 35;

/// Byte value of `[`.
pub const LBRACKET: u8 = 91;

/// Byte value of `\`.
pub const BACKSLASH: u8 = 92;

/// Byte value of `]`.
pub const RBRACKET: u8 = 93;

/// Byte value of `^`.
pub const CARET: u8 = 94;

/// Byte value of `_`.
pub const UNDERSCORE: u8 = 95;

/// Byte value of a backtick.
pub const BACKTICK: u8 = 96;

/// Byte value of `~`.
pub const TILDE: u8 = 126;

/// True of the ten delimiter bytes that end a plain text run when they appear
/// mid-line (line breaks are handled separately).
pub open spec fn is_special_inline(b: u8) -> bool {
    b == STAR || b == BACKTICK || b == TILDE || b == UNDERSCORE || b == SLASH || b == DOLLAR
        || b == CARET || b == BACKSLASH || b == LT || b == LBRACKET
}

/// True of the bytes that end a plain text run for the structural scanner:
/// the inline delimiters and the line break.
pub open spec fn is_special(b: u8) -> bool {
    is_special_inline(b) || b == NL
}

/// Byte length of the UTF-8 character whose leading byte is `b`; an invalid
/// leading byte counts as one.
pub open spec fn spec_utf8_len(b: u8) -> int {
    if b < 128 {
        1
    } else if 192 <= b && b < 224 {
        2
    } else if 224 <= b && b < 240 {
        3
    } else if 240 <= b && b < 248 {
        4
    } else {
        1
    }
}

/// How many bytes the escaped character after a backslash occupies in `s`:
/// its UTF-8 length, cut off at the end of the input.
pub open spec fn escape_len(s: Seq<u8>) -> int {
    if 1 + spec_utf8_len(s[1]) <= s.len() {
        spec_utf8_len(s[1])
    } else {
        s.len() - 1
    }
}

/// Byte length of the UTF-8 character whose leading byte is `b`.
pub(crate) fn utf8_len(b: u8) -> (n: usize)
    ensures
        n as int == spec_utf8_len(b),
        1 <= n <= 4,
{
    if b < 128 {
        1
    } else if 192 <= b && b < 224 {
        2
    } else if 224 <= b && b < 240 {
        3
    } else if 240 <= b && b < 248 {
        4
    } else {
        1
    }
}

/// True of ASCII digit bytes.
pub open spec fn is_digit(b: u8) -> bool {
    DIGIT_LO <= b && b <= DIGIT_HI
}

/// A byte class to search for: the first matching position is wanted.
#[derive(Clone, Copy, Debug, PartialEq, Eq, Structural)]
pub enum Needle {
    /// Exactly this byte.
    Byte(u8),
    /// Any byte that ends a structural text run (delimiters or line break).
    Special,
    /// Any inline delimiter byte (no line break): the highlight scanner's set.
    SpecialInline,
    /// Any byte other than a space: ends an indentation run.
    NonSpace,
    /// Any byte other than an ASCII digit: ends a list number.
    NonDigit,
    /// Any byte other than `-`: ends the trimmed tail of a separator line.
    NonDash,
    /// Any byte other than `=`: ends the trimmed tail of a separator line.
    NonEquals,
    /// A backtick or a line break: ends an inline code span.
    BacktickOrNewline,
}

/// Whether byte `b` belongs to the class `n`.
pub open spec fn needle_matches(n: Needle, b: u8) -> bool {
    match n {
        Needle::Byte(c) => b == c,
        Needle::Special => is_special(b),
        Needle::SpecialInline => is_special_inline(b),
        Needle::NonSpace => b != SPACE,
        Needle::NonDigit => !is_digit(b),
        Needle::NonDash => b != DASH,
        Needle::NonEquals => b != EQUALS,
        Needle::BacktickOrNewline => b == BACKTICK || b == NL,
    }
}

/// Index of the first byte at or after `from` that matches `n`, if any.
pub open spec fn spec_find(s: Seq<u8>, from: int, n: Needle) -> Option<int>
    decreases s.len() - from
    when 0 <= from <= s.len()
{
    if from >= s.len() {
        None
    } else if needle_matches(n, s[from]) {
        Some(from)
    } else {
        spec_find(s, from + 1, n)
    }
}

/// True when a closing fence starts at `i`: a line break followed by three
/// backticks.
pub open spec fn fence_at(s: Seq<u8>, i: int) -> bool {
    &&& i + 4 <= s.len()
    &&& s[i] == NL
    &&& s[i + 1] == BACKTICK
    &&& s[i + 2] == BACKTICK
    &&& s[i + 3] == BACKTICK
}

/// Index of the first closing fence at or after `from`, if any.
pub open spec fn spec_find_fence(s: Seq<u8>, from: int) -> Option<int>
    decreases s.len() - from
    when 0 <= from <= s.len()
{
    if from >= s.len() {
        None
    } else if fence_at(s, from) {
        Some(from)
    } else {
        spec_find_fence(s, from + 1)
    }
}

/// Maps an executable find result into the specification's domain.
pub open spec fn found(r: Option<usize>) -> Option<int> {
    match r {
        Some(i) => Some(i as int),
        None => None,
    }
}

/// Whether byte `b` belongs to the class `n`.
fn needle_hits(n: Needle, b: u8) -> (r: bool)
    ensures
        r == needle_matches(n, b),
{
    match n {
        Needle::Byte(c) => b == c,
        Needle::Special => b == STAR || b == BACKTICK || b == TILDE || b == UNDERSCORE || b == SLASH
            || b == DOLLAR || b == CARET || b == BACKSLASH || b == LT || b == LBRACKET || b == NL,
        Needle::SpecialInline => b == STAR || b == BACKTICK || b == TILDE || b == UNDERSCORE || b == SLASH
            || b == DOLLAR || b == CARET || b == BACKSLASH || b == LT || b == LBRACKET,
        Needle::NonSpace => b != SPACE,
        Needle::NonDigit => !(DIGIT_LO <= b && b <= DIGIT_HI),
        Needle::NonDash => b != DASH,
        Needle::NonEquals => b != EQUALS,
        Needle::BacktickOrNewline => b == BACKTICK || b == NL,
    }
}

/// First position at or after `from` whose byte matches `n`.
pub(crate) fn find(s: &[u8], from: usize, n: Needle) -> (r: Option<usize>)
    requires
        from <= s@.len(),
    ensures
        found(r) == spec_find(s@, from as int, n),
        r matches Some(i) ==> from <= i < s@.len() && needle_matches(n, s@[i as int]),
{
    let mut i = from;
    while i < s.len()
        invariant
            from <= i <= s@.len(),
            spec_find(s@, from as int, n) == spec_find(s@, i as int, n),
        decreases s@.len() - i,
    {
        if needle_hits(n, s[i]) {
            return Some(i);
        }
        i = i + 1;
    }
    None
}

/// First closing fence ("\n```") at or after `from`.
pub(crate) fn find_fence(s: &[u8], from: usize) -> (r: Option<usize>)
    requires
        from <= s@.len(),
    ensures
        found(r) == spec_find_fence(s@, from as int),
        r matches Some(i) ==> from <= i && i + 4 <= s@.len() && fence_at(s@, i as int),
{
    let mut i = from;
    while i < s.len()
        invariant
            from <= i <= s@.len(),
            spec_find_fence(s@, from as int) == spec_find_fence(s@, i as int),
        decreases s@.len() - i,
    {
        if s.len() - i >= 4 && s[i] == NL && s[i + 1] == BACKTICK && s[i + 2] == BACKTICK
            && s[i + 3] == BACKTICK {
            return Some(i);
        }
        i = i + 1;
    }
    None
}

/// The scanner state between two steps: remaining input, start-of-line flag,
/// current style.
pub struct ScanState {
    pub s: Seq<u8>,
    pub sol: bool,
    pub style: Style,
}

/// The numbered-list rule: a run of ASCII digits followed by `. ` at the very
/// start of the remaining input yields a NumberedPoint holding the digits.
#[verifier::opaque]
pub open spec fn spec_numbered_list(s: Seq<u8>) -> Option<(SpecItem, Seq<u8>)> {
    let nd = match spec_find(s, 0, Needle::NonDigit) {
        Some(i) => i,
        None => s.len() as int,
    };
    if nd > 0 && nd + 2 <= s.len() && s[nd] == DOT && s[nd + 1] == SPACE {
        Some((SpecItem::NumberedPoint(s.subrange(0, nd)), s.skip(nd + 2)))
    } else {
        None
    }
}

/// The fenced code block rule: three backticks, a language line, then the code
/// body up to the first closing fence. With no closing fence the whole rest of
/// the input is the body and nothing remains. The returned flag is the
/// start-of-line flag after the step.
#[verifier::opaque]
pub open spec fn spec_code_block(s: Seq<u8>, sol: bool) -> Option<(SpecItem, Seq<u8>, bool)> {
    if s.len() >= 3 && s[0] == BACKTICK && s[1] == BACKTICK && s[2] == BACKTICK {
        match spec_find(s, 3, Needle::Byte(NL)) {
            Some(nl) => {
                let language = s.subrange(3, nl);
                let body = nl + 1;
                match spec_find_fence(s, body) {
                    Some(e) => Some(
                        (SpecItem::CodeBlock(language, s.subrange(body, e)), s.skip(e + 4), false),
                    ),
                    None => Some((SpecItem::CodeBlock(language, s.skip(body)), Seq::empty(), sol)),
                }
            },
            None => None,
        }
    } else {
        None
    }
}

/// The inline code rule: a backtick opens a code span that runs to the next
/// backtick on the same line, or to the end of the line (or input) when none
/// closes it.
#[verifier::opaque]
pub open spec fn spec_inline_code(s: Seq<u8>, style: Style) -> Option<(SpecItem, Seq<u8>)> {
    if s.len() > 0 && s[0] == BACKTICK {
        let line_end = match spec_find(s, 1, Needle::Byte(NL)) {
            Some(i) => i,
            None => s.len() as int,
        };
        let code_style = Style { code: true, ..style };
        let bt = spec_find(s, 1, Needle::Byte(BACKTICK));
        if bt is Some && bt->Some_0 < line_end {
            Some((SpecItem::Text(code_style, s.subrange(1, bt->Some_0)), s.skip(bt->Some_0 + 1)))
        } else {
            Some((SpecItem::Text(code_style, s.subrange(1, line_end)), s.skip(line_end)))
        }
    } else {
        None
    }
}

/// The link rules, both confined to a single line: an autolink `<url>` whose
/// label is the url itself, and `[label](url)`. Malformed forms yield nothing
/// and fall through to plain text.
#[verifier::opaque]
pub open spec fn spec_url(s: Seq<u8>, style: Style) -> Option<(SpecItem, Seq<u8>)> {
    let line_end = match spec_find(s, 0, Needle::Byte(NL)) {
        Some(i) => i,
        None => s.len() as int,
    };
    if s.len() > 0 && s[0] == LT {
        let gt = spec_find(s, 1, Needle::Byte(GT));
        if gt is Some && gt->Some_0 < line_end {
            let e = gt->Some_0;
            Some((SpecItem::Hyperlink(style, s.subrange(1, e), s.subrange(1, e)), s.skip(e + 1)))
        } else {
            None
        }
    } else if s.len() > 0 && s[0] == LBRACKET {
        let rb = spec_find(s, 1, Needle::Byte(RBRACKET));
        if rb is Some && rb->Some_0 < line_end {
            let b = rb->Some_0;
            if b + 1 < line_end && s[b + 1] == LPAREN {
                let rp = spec_find(s, b + 2, Needle::Byte(RPAREN));
                if rp is Some && rp->Some_0 < line_end {
                    let p = rp->Some_0;
                    Some(
                        (
                            SpecItem::Hyperlink(style, s.subrange(1, b), s.subrange(b + 2, p)),
                            s.skip(p + 1),
                        ),
                    )
                } else {
                    None
                }
            } else {
                None
            }
        } else {
            None
        }
    } else {
        None
    }
}

/// One step of the structural scanner: from the remaining input, the
/// start-of-line flag and the current style, the item produced (none exactly
/// when the input runs out) and the state afterwards.
///
/// The rules are tried in the scanner's fixed priority order; delimiter-only
/// steps (style toggles, escaped line breaks, line markers that just set a
/// flag) recurse without emitting an item.
#[verifier::opaque]
pub open spec fn scan_next(s: Seq<u8>, sol: bool, style: Style) -> (Option<SpecItem>, ScanState)
    decreases s.len(),
{
    if s.len() == 0 {
        (None, ScanState { s, sol, style })
    } else if s[0] == NL {
        (
            Some(SpecItem::Newline),
            ScanState { s: s.skip(1), sol: true, style: Style::empty_spec() },
        )
    } else if s[0] == BACKSLASH && s.len() >= 2 && s[1] == NL {
        scan_next(s.skip(2), false, style)
    } else if s[0] == BACKSLASH && s.len() >= 2 {
        let n = escape_len(s);
        (
            Some(SpecItem::Text(style, s.subrange(1, 1 + n))),
            ScanState { s: s.skip(1 + n), sol: false, style },
        )
    } else if sol && s[0] == SPACE {
        let n = match spec_find(s, 0, Needle::NonSpace) {
            Some(i) => i,
            None => s.len() as int,
        };
        (Some(SpecItem::Indentation(n)), ScanState { s: s.skip(n), sol: true, style })
    } else if sol && s.len() >= 2 && s[0] == HASH && s[1] == SPACE {
        scan_next(s.skip(2), false, Style { heading: true, ..style })
    } else if sol && s.len() >= 3 && s[0] == HASH && s[1] == HASH && s[2] == SPACE {
        scan_next(s.skip(3), false, Style { subheading: true, ..style })
    } else if sol && s.len() >= 2 && s[0] == GT && s[1] == SPACE {
        (
            Some(SpecItem::QuoteIndent),
            ScanState { s: s.skip(2), sol: true, style: Style { quoted: true, ..style } },
        )
    } else if sol && s.len() >= 2 && (s[0] == DASH || s[0] == STAR) && s[1] == SPACE {
        (Some(SpecItem::BulletPoint), ScanState { s: s.skip(2), sol: false, style })
    } else if sol && spec_numbered_list(s) is Some {
        let (item, rest) = spec_numbered_list(s)->Some_0;
        (Some(item), ScanState { s: rest, sol: false, style })
    } else if sol && s.len() >= 3 && ((s[0] == DASH && s[1] == DASH && s[2] == DASH) || (s[0]
        == EQUALS && s[1] == EQUALS && s[2] == EQUALS)) {
        let after = s.skip(3);
        let trim = if s[0] == DASH {
            Needle::NonDash
        } else {
            Needle::NonEquals
        };
        let nd = match spec_find(after, 0, trim) {
            Some(i) => i,
            None => after.len() as int,
        };
        let t = after.skip(nd);
        let t2 = if t.len() > 0 && t[0] == NL {
            t.skip(1)
        } else {
            t
        };
        (Some(SpecItem::Separator), ScanState { s: t2, sol: false, style })
    } else if sol && spec_code_block(s, sol) is Some {
        let (item, rest, sol2) = spec_code_block(s, sol)->Some_0;
        (Some(item), ScanState { s: rest, sol: sol2, style })
    } else if spec_inline_code(s, style) is Some {
        let (item, rest) = spec_inline_code(s, style)->Some_0;
        (Some(item), ScanState { s: rest, sol: false, style: Style { code: false, ..style } })
    } else if s.len() >= 2 && s[0] == STAR && s[1] == STAR {
        scan_next(s.skip(2), false, Style { strong: !style.strong, ..style })
    } else if s[0] == UNDERSCORE {
        scan_next(s.skip(1), false, Style { underline: !style.underline, ..style })
    } else if s[0] == TILDE {
        scan_next(s.skip(1), false, Style { strikethrough: !style.strikethrough, ..style })
    } else if s[0] == STAR {
        scan_next(s.skip(1), false, Style { italics: !style.italics, ..style })
    } else if s[0] == DOLLAR {
        scan_next(s.skip(1), false, Style { small: !style.small, ..style })
    } else if s[0] == CARET {
        scan_next(s.skip(1), false, Style { raised: !style.raised, ..style })
    } else if spec_url(s, style) is Some {
        let (item, rest) = spec_url(s, style)->Some_0;
        (Some(item), ScanState { s: rest, sol: false, style })
    } else {
        let e = match spec_find(s, 0, Needle::Special) {
            Some(i) => if i < 1 {
                1int
            } else {
                i
            },
            None => s.len() as int,
        };
        (
            Some(SpecItem::Text(style, s.subrange(0, e))),
            ScanState { s: s.skip(e), sol: false, style },
        )
    }
}

/// True when none of the start-of-line rules applies to the remaining input
/// `s`: the scanner then falls through to the inline rules.
pub open spec fn no_line_rule(s: Seq<u8>) -> bool {
    &&& !(s.len() > 0 && s[0] == SPACE)
    &&& !(s.len() >= 2 && s[0] == HASH && s[1] == SPACE)
    &&& !(s.len() >= 3 && s[0] == HASH && s[1] == HASH && s[2] == SPACE)
    &&& !(s.len() >= 2 && s[0] == GT && s[1] == SPACE)
    &&& !(s.len() >= 2 && (s[0] == DASH || s[0] == STAR) && s[1] == SPACE)
    &&& spec_numbered_list(s) is None
    &&& !(s.len() >= 3 && ((s[0] == DASH && s[1] == DASH && s[2] == DASH) || (s[0] == EQUALS
        && s[1] == EQUALS && s[2] == EQUALS)))
    &&& spec_code_block(s, true) is None
}

/// True when the head of `s` is none of the inline toggle delimiters.
pub open spec fn no_toggle_rule(s: Seq<u8>) -> bool {
    s.len() > 0 ==> (s[0] != UNDERSCORE && s[0] != TILDE && s[0] != STAR && s[0] != DOLLAR
        && s[0] != CARET)
}

/// What one group of rules did with the input: produced an item, consumed
/// delimiter text without an item, or did not apply at all.
pub enum LineStep<'a> {
    Emit(Item<'a>),
    Skip,
    Miss,
}

/// What a find result means: the first match, with nothing matching before it.
pub proof fn lemma_spec_find(s: Seq<u8>, from: int, n: Needle)
    requires
        0 <= from <= s.len(),
    ensures
        match spec_find(s, from, n) {
            Some(i) => from <= i < s.len() && needle_matches(n, s[i]) && (forall|j: int|
                from <= j < i ==> !needle_matches(n, s[j])),
            None => forall|j: int| from <= j < s.len() ==> !needle_matches(n, s[j]),
        },
    decreases s.len() - from,
{
    if from < s.len() && !needle_matches(n, s[from]) {
        lemma_spec_find(s, from + 1, n);
    }
}

/// What a fence find result means: the first closing fence, none earlier.
pub proof fn lemma_spec_find_fence(s: Seq<u8>, from: int)
    requires
        0 <= from <= s.len(),
    ensures
        match spec_find_fence(s, from) {
            Some(i) => from <= i && i + 4 <= s.len() && fence_at(s, i) && (forall|j: int|
                from <= j < i ==> !fence_at(s, j)),
            None => forall|j: int| from <= j < s.len() ==> !fence_at(s, j),
        },
    decreases s.len() - from,
{
    if from < s.len() && !fence_at(s, from) {
        lemma_spec_find_fence(s, from + 1);
    }
}

/// Progress: every scanner step strictly shrinks the remaining input, and the
/// scanner reports no item exactly when the input has run out. Together with
/// the fixed step order this bounds the whole scan by the input length.
pub proof fn lemma_scan_next_progress(s: Seq<u8>, sol: bool, style: Style)
    ensures
        ({
            let (item, st) = scan_next(s, sol, style);
            &&& st.s.len() <= s.len()
            &&& (item is Some ==> st.s.len() < s.len())
            &&& (item is None ==> st.s.len() == 0)
        }),
    decreases s.len(),
{
    reveal(scan_next);
    reveal(spec_numbered_list);
    reveal(spec_code_block);
    reveal(spec_inline_code);
    reveal(spec_url);
    let (item, st) = scan_next(s, sol, style);
    if s.len() == 0 {
    } else if s[0] == NL {
    } else if s[0] == BACKSLASH && s.len() >= 2 && s[1] == NL {
        lemma_scan_next_progress(s.skip(2), false, style);
    } else if s[0] == BACKSLASH && s.len() >= 2 {
    } else if sol && s[0] == SPACE {
        lemma_spec_find(s, 0, Needle::NonSpace);
    } else if sol && s.len() >= 2 && s[0] == HASH && s[1] == SPACE {
        lemma_scan_next_progress(s.skip(2), false, Style { heading: true, ..style });
    } else if sol && s.len() >= 3 && s[0] == HASH && s[1] == HASH && s[2] == SPACE {
        lemma_scan_next_progress(s.skip(3), false, Style { subheading: true, ..style });
    } else if sol && s.len() >= 2 && s[0] == GT && s[1] == SPACE {
    } else if sol && s.len() >= 2 && (s[0] == DASH || s[0] == STAR) && s[1] == SPACE {
    } else if sol && spec_numbered_list(s) is Some {
        lemma_spec_find(s, 0, Needle::NonDigit);
    } else if sol && s.len() >= 3 && ((s[0] == DASH && s[1] == DASH && s[2] == DASH) || (s[0]
        == EQUALS && s[1] == EQUALS && s[2] == EQUALS)) {
        lemma_spec_find(s.skip(3), 0, Needle::NonDash);
        lemma_spec_find(s.skip(3), 0, Needle::NonEquals);
    } else if sol && spec_code_block(s, sol) is Some {
        lemma_spec_find(s, 3, Needle::Byte(NL));
        let nl = spec_find(s, 3, Needle::Byte(NL))->Some_0;
        lemma_spec_find_fence(s, nl + 1);
    } else if spec_inline_code(s, style) is Some {
        lemma_spec_find(s, 1, Needle::Byte(NL));
        lemma_spec_find(s, 1, Needle::Byte(BACKTICK));
    } else if s.len() >= 2 && s[0] == STAR && s[1] == STAR {
        lemma_scan_next_progress(s.skip(2), false, Style { strong: !style.strong, ..style });
    } else if s[0] == UNDERSCORE {
        lemma_scan_next_progress(s.skip(1), false, Style { underline: !style.underline, ..style });
    } else if s[0] == TILDE {
        lemma_scan_next_progress(
            s.skip(1),
            false,
            Style { strikethrough: !style.strikethrough, ..style },
        );
    } else if s[0] == STAR {
        lemma_scan_next_progress(s.skip(1), false, Style { italics: !style.italics, ..style });
    } else if s[0] == DOLLAR {
        lemma_scan_next_progress(s.skip(1), false, Style { small: !style.small, ..style });
    } else if s[0] == CARET {
        lemma_scan_next_progress(s.skip(1), false, Style { raised: !style.raised, ..style });
    } else if spec_url(s, style) is Some {
        lemma_spec_find(s, 0, Needle::Byte(NL));
        lemma_spec_find(s, 1, Needle::Byte(GT));
        lemma_spec_find(s, 1, Needle::Byte(RBRACKET));
        let line_end = match spec_find(s, 0, Needle::Byte(NL)) {
            Some(i) => i,
            None => s.len() as int,
        };
        let rb = spec_find(s, 1, Needle::Byte(RBRACKET));
        if s[0] == LBRACKET && rb is Some && rb->Some_0 < line_end {
            lemma_spec_find(s, rb->Some_0 + 2, Needle::Byte(RPAREN));
        }
    } else {
        lemma_spec_find(s, 0, Needle::Special);
    }
}

/// The structural scanner over a borrowed input buffer.
pub struct Parser<'a> {
    s: &'a [u8],
    start_of_line: bool,
    style: Style,
}

impl<'a> View for Parser<'a> {
    type V = ScanState;

    closed spec fn view(&self) -> ScanState {
        ScanState { s: self.s@, sol: self.start_of_line, style: self.style }
    }
}

impl<'a> Parser<'a> {
    /// A fresh scanner over the whole input: at start of line, default style.
    pub fn new(s: &'a [u8]) -> (p: Self)
        ensures
            p@ == (ScanState { s: s@, sol: true, style: Style::empty_spec() }),
    {
        Parser { s, start_of_line: true, style: Style::empty() }
    }

    /// Tries the numbered-list rule and consumes its marker on success.
    fn numbered_list(&mut self) -> (r: Option<Item<'a>>)
        ensures
            match spec_numbered_list(old(self)@.s) {
                Some((item, rest)) => {
                    &&& r matches Some(it) && it@ == item
                    &&& final(self)@ == (ScanState { s: rest, sol: false, style: old(self)@.style })
                },
                None => r is None && final(self)@ == old(self)@,
            },
    {
        proof {
            reveal(spec_numbered_list);
        }
        let nd = match find(self.s, 0, Needle::NonDigit) {
            Some(i) => i,
            None => self.s.len(),
        };
        if nd > 0 && self.s.len() - nd >= 2 && self.s[nd] == DOT && self.s[nd + 1] == SPACE {
            let number = slice_subrange(self.s, 0, nd);
            self.s = slice_subrange(self.s, nd + 2, self.s.len());
            self.start_of_line = false;
            Some(Item::NumberedPoint(number))
        } else {
            None
        }
    }

    /// Tries the fenced code block rule and consumes through the closing
    /// fence, or the whole input when no fence closes the block.
    fn code_block(&mut self) -> (r: Option<Item<'a>>)
        ensures
            match spec_code_block(old(self)@.s, old(self)@.sol) {
                Some((item, rest, sol2)) => {
                    &&& r matches Some(it) && it@ == item
                    &&& final(self)@ == (ScanState { s: rest, sol: sol2, style: old(self)@.style })
                },
                None => r is None && final(self)@ == old(self)@,
            },
    {
        proof {
            reveal(spec_code_block);
        }
        if self.s.len() >= 3 && self.s[0] == BACKTICK && self.s[1] == BACKTICK && self.s[2]
            == BACKTICK {
            match find(self.s, 3, Needle::Byte(NL)) {
                Some(nl) => {
                    let language = slice_subrange(self.s, 3, nl);
                    let body = nl + 1;
                    match find_fence(self.s, body) {
                        Some(e) => {
                            let code = slice_subrange(self.s, body, e);
                            self.s = slice_subrange(self.s, e + 4, self.s.len());
                            self.start_of_line = false;
                            Some(Item::CodeBlock(language, code))
                        },
                        None => {
                            let code = slice_subrange(self.s, body, self.s.len());
                            self.s = slice_subrange(self.s, self.s.len(), self.s.len());
                            proof {
                                assert(self.s@ =~= Seq::<u8>::empty());
                            }
                            Some(Item::CodeBlock(language, code))
                        },
                    }
                },
                None => None,
            }
        } else {
            None
        }
    }

    /// Tries the inline code rule: a backtick opens a span running to the next
    /// backtick on the line, or to the end of the line.
    fn inline_code(&mut self) -> (r: Option<Item<'a>>)
        ensures
            match spec_inline_code(old(self)@.s, old(self)@.style) {
                Some((item, rest)) => {
                    &&& r matches Some(it) && it@ == item
                    &&& final(self)@ == (ScanState {
                        s: rest,
                        sol: false,
                        style: Style { code: false, ..old(self)@.style },
                    })
                },
                None => r is None && final(self)@ == old(self)@,
            },
    {
        proof {
            reveal(spec_inline_code);
        }
        if self.s.len() > 0 && self.s[0] == BACKTICK {
            let line_end = match find(self.s, 1, Needle::Byte(NL)) {
                Some(i) => i,
                None => self.s.len(),
            };
            let code_style = Style { code: true, ..self.style };
            let bt = find(self.s, 1, Needle::Byte(BACKTICK));
            let end_style = Style { code: false, ..self.style };
            match bt {
                Some(e) => {
                    if e < line_end {
                        let item = Item::Text(code_style, slice_subrange(self.s, 1, e));
                        self.s = slice_subrange(self.s, e + 1, self.s.len());
                        self.start_of_line = false;
                        self.style = end_style;
                        Some(item)
                    } else {
                        let item = Item::Text(code_style, slice_subrange(self.s, 1, line_end));
                        self.s = slice_subrange(self.s, line_end, self.s.len());
                        self.start_of_line = false;
                        self.style = end_style;
                        Some(item)
                    }
                },
                None => {
                    let item = Item::Text(code_style, slice_subrange(self.s, 1, line_end));
                    self.s = slice_subrange(self.s, line_end, self.s.len());
                    self.start_of_line = false;
                    self.style = end_style;
                    Some(item)
                },
            }
        } else {
            None
        }
    }

    /// Tries the two link rules, both confined to the current line.
    #[verifier::rlimit(100)]
    fn url(&mut self) -> (r: Option<Item<'a>>)
        ensures
            match spec_url(old(self)@.s, old(self)@.style) {
                Some((item, rest)) => {
                    &&& r matches Some(it) && it@ == item
                    &&& final(self)@ == (ScanState { s: rest, sol: false, style: old(self)@.style })
                },
                None => r is None && final(self)@ == old(self)@,
            },
    {
        proof {
            reveal(spec_url);
        }
        let line_end = match find(self.s, 0, Needle::Byte(NL)) {
            Some(i) => i,
            None => self.s.len(),
        };
        if self.s.len() > 0 && self.s[0] == LT {
            match find(self.s, 1, Needle::Byte(GT)) {
                Some(e) => {
                    if e < line_end {
                        let url = slice_subrange(self.s, 1, e);
                        self.s = slice_subrange(self.s, e + 1, self.s.len());
                        self.start_of_line = false;
                        Some(Item::Hyperlink(self.style, url, url))
                    } else {
                        None
                    }
                },
                None => None,
            }
        } else if self.s.len() > 0 && self.s[0] == LBRACKET {
            match find(self.s, 1, Needle::Byte(RBRACKET)) {
                Some(b) => {
                    if b < line_end && b + 1 < line_end && self.s[b + 1] == LPAREN {
                        match find(self.s, b + 2, Needle::Byte(RPAREN)) {
                            Some(p) => {
                                if p < line_end {
                                    let text = slice_subrange(self.s, 1, b);
                                    let url = slice_subrange(self.s, b + 2, p);
                                    self.s = slice_subrange(self.s, p + 1, self.s.len());
                                    self.start_of_line = false;
                                    Some(Item::Hyperlink(self.style, text, url))
                                } else {
                                    None
                                }
                            },
                            None => None,
                        }
                    } else {
                        None
                    }
                },
                None => None,
            }
        } else {
            None
        }
    }

    /// Tries the start-of-line rules in their priority order: indentation,
    /// heading and subheading markers, quote marker, bullet, numbered point,
    /// separator line, fenced code block.
    #[verifier::rlimit(100)]
    fn line_rules(&mut self) -> (st: LineStep<'a>)
        requires
            old(self)@.sol,
            old(self)@.s.len() > 0,
            old(self)@.s[0] != NL,
            !(old(self)@.s[0] == BACKSLASH && old(self)@.s.len() >= 2),
        ensures
            match st {
                LineStep::Emit(it) => ({
                    let (item, stt) = scan_next(old(self)@.s, old(self)@.sol, old(self)@.style);
                    &&& item == Some(it@)
                    &&& final(self)@ == stt
                    &&& final(self)@.s.len() < old(self)@.s.len()
                }),
                LineStep::Skip => ({
                    &&& final(self)@.s.len() < old(self)@.s.len()
                    &&& scan_next(old(self)@.s, old(self)@.sol, old(self)@.style) == scan_next(
                        final(self)@.s,
                        final(self)@.sol,
                        final(self)@.style,
                    )
                }),
                LineStep::Miss => final(self)@ == old(self)@ && no_line_rule(old(self)@.s),
            },
    {
        let ghost pre = self@;
        proof {
            lemma_scan_next_progress(pre.s, pre.sol, pre.style);
        }
        if self.s[0] == SPACE {
            let length = match find(self.s, 0, Needle::NonSpace) {
                Some(i) => i,
                None => self.s.len(),
            };
            let item = Item::Indentation(length);
            self.s = slice_subrange(self.s, length, self.s.len());
            proof {
                assert(scan_next(pre.s, pre.sol, pre.style) == (Some(item@), self@)) by {
                    reveal(scan_next);
                };
            }
            return LineStep::Emit(item);
        }
        if self.s.len() >= 2 && self.s[0] == HASH && self.s[1] == SPACE {
            self.s = slice_subrange(self.s, 2, self.s.len());
            self.start_of_line = false;
            self.style = Style { heading: true, ..self.style };
            proof {
                assert(scan_next(pre.s, pre.sol, pre.style) == scan_next(
                    self@.s,
                    self@.sol,
                    self@.style,
                )) by {
                    reveal(scan_next);
                };
            }
            return LineStep::Skip;
        }
        if self.s.len() >= 3 && self.s[0] == HASH && self.s[1] == HASH && self.s[2]
            == SPACE {
            self.s = slice_subrange(self.s, 3, self.s.len());
            self.start_of_line = false;
            self.style = Style { subheading: true, ..self.style };
            proof {
                assert(scan_next(pre.s, pre.sol, pre.style) == scan_next(
                    self@.s,
                    self@.sol,
                    self@.style,
                )) by {
                    reveal(scan_next);
                };
            }
            return LineStep::Skip;
        }
        if self.s.len() >= 2 && self.s[0] == GT && self.s[1] == SPACE {
            self.s = slice_subrange(self.s, 2, self.s.len());
            self.start_of_line = true;
            self.style = Style { quoted: true, ..self.style };
            proof {
                assert(scan_next(pre.s, pre.sol, pre.style) == (
                    Some(SpecItem::QuoteIndent),
                    self@,
                )) by {
                    reveal(scan_next);
                };
            }
            return LineStep::Emit(Item::QuoteIndent);
        }
        if self.s.len() >= 2 && (self.s[0] == DASH || self.s[0] == STAR) && self.s[1]
            == SPACE {
            self.s = slice_subrange(self.s, 2, self.s.len());
            self.start_of_line = false;
            proof {
                assert(scan_next(pre.s, pre.sol, pre.style) == (
                    Some(SpecItem::BulletPoint),
                    self@,
                )) by {
                    reveal(scan_next);
                };
            }
            return LineStep::Emit(Item::BulletPoint);
        }
        let numbered = self.numbered_list();
        if numbered.is_some() {
            proof {
                let (item, rest) = spec_numbered_list(pre.s)->Some_0;
                assert(scan_next(pre.s, pre.sol, pre.style) == (Some(item), self@)) by {
                    reveal(scan_next);
                };
            }
            return LineStep::Emit(numbered.unwrap());
        }
        if self.s.len() >= 3 && ((self.s[0] == DASH && self.s[1] == DASH && self.s[2]
            == DASH) || (self.s[0] == EQUALS && self.s[1] == EQUALS && self.s[2]
            == EQUALS)) {
            let after = slice_subrange(self.s, 3, self.s.len());
            let trim = if self.s[0] == DASH {
                Needle::NonDash
            } else {
                Needle::NonEquals
            };
            let nd = match find(after, 0, trim) {
                Some(i) => i,
                None => after.len(),
            };
            let mut rest = slice_subrange(after, nd, after.len());
            if rest.len() > 0 && rest[0] == NL {
                rest = slice_subrange(rest, 1, rest.len());
            }
            self.s = rest;
            self.start_of_line = false;
            proof {
                assert(scan_next(pre.s, pre.sol, pre.style) == (
                    Some(SpecItem::Separator),
                    self@,
                )) by {
                    reveal(scan_next);
                };
            }
            return LineStep::Emit(Item::Separator);
        }
        let block = self.code_block();
        if block.is_some() {
            proof {
                let (item, rest2, sol2) = spec_code_block(pre.s, pre.sol)->Some_0;
                assert(scan_next(pre.s, pre.sol, pre.style) == (Some(item), self@)) by {
                    reveal(scan_next);
                };
            }
            return LineStep::Emit(block.unwrap());
        }
        LineStep::Miss
    }

    /// Tries the inline toggle delimiters: double star for strong, then
    /// underscore, tilde, single star, dollar and caret for the other five
    /// inline flags. A hit flips the flag and consumes the delimiter only.
    #[verifier::rlimit(100)]
    fn toggle_rules(&mut self) -> (st: LineStep<'a>)
        requires
            old(self)@.s.len() > 0,
            old(self)@.s[0] != NL,
            !(old(self)@.s[0] == BACKSLASH && old(self)@.s.len() >= 2),
            old(self)@.sol ==> no_line_rule(old(self)@.s),
            spec_inline_code(old(self)@.s, old(self)@.style) is None,
        ensures
            match st {
                LineStep::Emit(it) => false,
                LineStep::Skip => ({
                    &&& final(self)@.s.len() < old(self)@.s.len()
                    &&& scan_next(old(self)@.s, old(self)@.sol, old(self)@.style) == scan_next(
                        final(self)@.s,
                        final(self)@.sol,
                        final(self)@.style,
                    )
                }),
                LineStep::Miss => final(self)@ == old(self)@ && no_toggle_rule(old(self)@.s),
            },
    {
        let ghost pre = self@;
    if self.s.len() >= 2 && self.s[0] == STAR && self.s[1] == STAR {
        self.s = slice_subrange(self.s, 2, self.s.len());
        self.start_of_line = false;
        self.style = Style { strong: !self.style.strong, ..self.style };
        proof {
            assert(scan_next(pre.s, pre.sol, pre.style) == scan_next(
                self@.s,
                self@.sol,
                self@.style,
            )) by {
                reveal(scan_next);
            };
        }
        return LineStep::Skip;
    }
    if self.s[0] == UNDERSCORE {
        self.s = slice_subrange(self.s, 1, self.s.len());
        self.start_of_line = false;
        self.style = Style { underline: !self.style.underline, ..self.style };
        proof {
            assert(scan_next(pre.s, pre.sol, pre.style) == scan_next(
                self@.s,
                self@.sol,
                self@.style,
            )) by {
                reveal(scan_next);
            };
        }
        return LineStep::Skip;
    }
    if self.s[0] == TILDE {
        self.s = slice_subrange(self.s, 1, self.s.len());
        self.start_of_line = false;
        self.style = Style { strikethrough: !self.style.strikethrough, ..self.style };
        proof {
            assert(scan_next(pre.s, pre.sol, pre.style) == scan_next(
                self@.s,
                self@.sol,
                self@.style,
            )) by {
                reveal(scan_next);
            };
        }
        return LineStep::Skip;
    }
    if self.s[0] == STAR {
        self.s = slice_subrange(self.s, 1, self.s.len());
        self.start_of_line = false;
        self.style = Style { italics: !self.style.italics, ..self.style };
        proof {
            assert(scan_next(pre.s, pre.sol, pre.style) == scan_next(
                self@.s,
                self@.sol,
                self@.style,
            )) by {
                reveal(scan_next);
            };
        }
        return LineStep::Skip;
    }
    if self.s[0] == DOLLAR {
        self.s = slice_subrange(self.s, 1, self.s.len());
        self.start_of_line = false;
        self.style = Style { small: !self.style.small, ..self.style };
        proof {
            assert(scan_next(pre.s, pre.sol, pre.style) == scan_next(
                self@.s,
                self@.sol,
                self@.style,
            )) by {
                reveal(scan_next);
            };
        }
        return LineStep::Skip;
    }
    if self.s[0] == CARET {
        self.s = slice_subrange(self.s, 1, self.s.len());
        self.start_of_line = false;
        self.style = Style { raised: !self.style.raised, ..self.style };
        proof {
            assert(scan_next(pre.s, pre.sol, pre.style) == scan_next(
                self@.s,
                self@.sol,
                self@.style,
            )) by {
                reveal(scan_next);
            };
        }
        return LineStep::Skip;
    }
        LineStep::Miss
    }

    /// The two lowest-priority rules: a link on the current line, else a
    /// plain text run up to the next delimiter or line break (at least one
    /// byte long, so that the scan always advances).
    #[verifier::rlimit(100)]
    fn tail_rules(&mut self) -> (it: Item<'a>)
        requires
            old(self)@.s.len() > 0,
            old(self)@.s[0] != NL,
            !(old(self)@.s[0] == BACKSLASH && old(self)@.s.len() >= 2),
            old(self)@.sol ==> no_line_rule(old(self)@.s),
            spec_inline_code(old(self)@.s, old(self)@.style) is None,
            no_toggle_rule(old(self)@.s),
        ensures
            ({
                let (item, stt) = scan_next(old(self)@.s, old(self)@.sol, old(self)@.style);
                &&& item == Some(it@)
                &&& final(self)@ == stt
                &&& final(self)@.s.len() < old(self)@.s.len()
            }),
    {
        let ghost pre = self@;
        proof {
            lemma_scan_next_progress(pre.s, pre.sol, pre.style);
        }
    let link = self.url();
    match link {
        Some(it) => {
            proof {
                let (item, rest2) = spec_url(pre.s, pre.style)->Some_0;
                assert(scan_next(pre.s, pre.sol, pre.style) == (Some(item), self@)) by {
                    reveal(scan_next);
                };
            }
            return it;
        },
        None => {},
    }
    let end = match find(self.s, 0, Needle::Special) {
        Some(i) => if i < 1 {
            1
        } else {
            i
        },
        None => self.s.len(),
    };
    let text = slice_subrange(self.s, 0, end);
    self.s = slice_subrange(self.s, end, self.s.len());
    self.start_of_line = false;
    let item = Item::Text(self.style, text);
    proof {
        assert(scan_next(pre.s, pre.sol, pre.style) == (Some(item@), self@)) by {
            reveal(scan_next);
        };
    }
    item
    }

    /// One scanner step: the next item, or nothing exactly when the input has
    /// run out. Every produced item strictly shrinks the remaining input.
    #[verifier::rlimit(100)]
    pub fn next(&mut self) -> (r: Option<Item<'a>>)
        ensures
            ({
                let (item, st) = scan_next(old(self)@.s, old(self)@.sol, old(self)@.style);
                &&& final(self)@ == st
                &&& match r {
                    Some(it) => item == Some(it@),
                    None => item is None,
                }
                &&& (r is Some ==> final(self)@.s.len() < old(self)@.s.len())
                &&& (r is None ==> final(self)@.s.len() == 0)
            }),
    {
        loop
            invariant
                scan_next(self@.s, self@.sol, self@.style) == scan_next(
                    old(self)@.s,
                    old(self)@.sol,
                    old(self)@.style,
                ),
            decreases self@.s.len(),
        {
            let ghost pre = self@;
            proof {
                lemma_scan_next_progress(old(self)@.s, old(self)@.sol, old(self)@.style);
            }
            if self.s.len() == 0 {
                proof {
                    assert(scan_next(pre.s, pre.sol, pre.style) == (
                        Option::<SpecItem>::None,
                        pre,
                    )) by {
                        reveal(scan_next);
                    };
                }
                return None;
            }
            if self.s[0] == NL {
                self.s = slice_subrange(self.s, 1, self.s.len());
                self.start_of_line = true;
                self.style = Style::empty();
                proof {
                    assert(scan_next(pre.s, pre.sol, pre.style) == (
                        Some(SpecItem::Newline),
                        self@,
                    )) by {
                        reveal(scan_next);
                    };
                }
                return Some(Item::Newline);
            }
            if self.s[0] == BACKSLASH && self.s.len() >= 2 && self.s[1] == NL {
                self.s = slice_subrange(self.s, 2, self.s.len());
                self.start_of_line = false;
                proof {
                    assert(scan_next(pre.s, pre.sol, pre.style) == scan_next(
                        self@.s,
                        self@.sol,
                        self@.style,
                    )) by {
                        reveal(scan_next);
                    };
                }
                continue;
            }
            if self.s[0] == BACKSLASH && self.s.len() >= 2 {
                let l = utf8_len(self.s[1]);
                let n = if 1 + l <= self.s.len() {
                    l
                } else {
                    self.s.len() - 1
                };
                let text = slice_subrange(self.s, 1, 1 + n);
                self.s = slice_subrange(self.s, 1 + n, self.s.len());
                self.start_of_line = false;
                let item = Item::Text(self.style, text);
                proof {
                    assert(scan_next(pre.s, pre.sol, pre.style) == (Some(item@), self@)) by {
                        reveal(scan_next);
                    };
                }
                return Some(item);
            }
            if self.start_of_line {
                match self.line_rules() {
                    LineStep::Emit(it) => {
                        return Some(it);
                    },
                    LineStep::Skip => {
                        continue;
                    },
                    LineStep::Miss => {},
                }
            }
            let code = self.inline_code();
            if code.is_some() {
                proof {
                    let (item, rest2) = spec_inline_code(pre.s, pre.style)->Some_0;
                    assert(scan_next(pre.s, pre.sol, pre.style) == (Some(item), self@)) by {
                        reveal(scan_next);
                    };
                }
                return code;
            }
            match self.toggle_rules() {
                LineStep::Emit(_) => {},
                LineStep::Skip => {
                    continue;
                },
                LineStep::Miss => {},
            }
            let item = self.tail_rules();
            return Some(item);
        }
    }
}

/// The full item sequence the structural scanner yields from a given state.
pub open spec fn spec_items(s: Seq<u8>, sol: bool, style: Style) -> Seq<SpecItem>
    decreases s.len()
    via spec_items_decreases
{
    let (item, st) = scan_next(s, sol, style);
    match item {
        Some(it) => seq![it] + spec_items(st.s, st.sol, st.style),
        None => Seq::empty(),
    }
}

#[via_fn]
proof fn spec_items_decreases(s: Seq<u8>, sol: bool, style: Style) {
    lemma_scan_next_progress(s, sol, style);
}

/// Maps a sequence of items to their mathematical shapes.
pub open spec fn items_view<'a>(v: Seq<Item<'a>>) -> Seq<SpecItem> {
    v.map_values(|it: Item<'a>| it@)
}

/// Scans a whole document into its item sequence, in source order.
pub fn mark<'a>(text: &'a [u8]) -> (items: Vec<Item<'a>>)
    ensures
        items_view(items@) == spec_items(text@, true, Style::empty_spec()),
{
    let mut parser = Parser::new(text);
    let mut items: Vec<Item<'a>> = Vec::new();
    loop
        invariant
            spec_items(text@, true, Style::empty_spec()) == items_view(items@) + spec_items(
                parser@.s,
                parser@.sol,
                parser@.style,
            ),
        decreases parser@.s.len(),
    {
        let ghost pre = parser@;
        let ghost items_pre = items@;
        match parser.next() {
            Some(it) => {
                items.push(it);
                proof {
                    assert(items_view(items@) =~= items_view(items_pre) + seq![it@]);
                    assert((items_view(items_pre) + seq![it@]) + spec_items(
                        parser@.s,
                        parser@.sol,
                        parser@.style,
                    ) =~= items_view(items_pre) + (seq![it@] + spec_items(
                        parser@.s,
                        parser@.sol,
                        parser@.style,
                    )));
                }
            },
            None => {
                proof {
                    assert(spec_items(pre.s, pre.sol, pre.style) =~= Seq::<SpecItem>::empty());
                    assert(items_view(items@) + Seq::<SpecItem>::empty() =~= items_view(items@));
                }
                return items;
            },
        }
    }
}

/// Escape fidelity: a backslash followed by anything but a line break emits
/// the escaped character verbatim, whole, as one text item under the current
/// style — it never toggles a flag or triggers any other rule. For an ASCII
/// byte such as a star the item holds exactly that one byte.
pub proof fn lemma_escape_fidelity(s: Seq<u8>, sol: bool, style: Style)
    requires
        s.len() >= 2,
        s[0] == BACKSLASH,
        s[1] != NL,
    ensures
        scan_next(s, sol, style) == (
            Some(SpecItem::Text(style, s.subrange(1, 1 + escape_len(s)))),
            ScanState { s: s.skip(1 + escape_len(s)), sol: false, style },
        ),
        s[1] < 128 ==> scan_next(s, sol, style) == (
            Some(SpecItem::Text(style, s.subrange(1, 2))),
            ScanState { s: s.skip(2), sol: false, style },
        ),
{
    reveal(scan_next);
}

/// Toggle parity, strong: a double star emits no item of its own; the scan
/// continues past it with the strong flag flipped.
pub proof fn lemma_toggle_strong(s: Seq<u8>, sol: bool, style: Style)
    requires
        s.len() >= 2,
        s[0] == STAR,
        s[1] == STAR,
    ensures
        scan_next(s, sol, style) == scan_next(
            s.skip(2),
            false,
            Style { strong: !style.strong, ..style },
        ),
{
    reveal(scan_next);
    reveal(spec_numbered_list);
    reveal(spec_code_block);
    reveal(spec_inline_code);
}

/// Toggle parity, italics: a single star that opens no bullet and no double
/// star emits no item of its own; the scan continues past it with the italics
/// flag flipped. In particular the delimiters around an italic word never
/// reach a text item.
pub proof fn lemma_toggle_italics(s: Seq<u8>, sol: bool, style: Style)
    requires
        s.len() >= 2,
        s[0] == STAR,
        s[1] != STAR,
        !(sol && s[1] == SPACE),
    ensures
        scan_next(s, sol, style) == scan_next(
            s.skip(1),
            false,
            Style { italics: !style.italics, ..style },
        ),
{
    reveal(scan_next);
    reveal(spec_numbered_list);
    reveal(spec_code_block);
    reveal(spec_inline_code);
}

} // verus!
