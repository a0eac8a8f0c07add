use vstd::prelude::*;
use colored::{Color, ColoredString, Style, Styles};

verus! {

/// The escape character that starts an ANSI control sequence.
pub open spec fn esc() -> char {
    '\x1b'
}

/// The foreground colours the viewer uses.
#[derive(Clone, Copy, Debug, PartialEq, Eq, Structural)]
pub enum Colour {
    Red,
    Green,
    Yellow,
    Blue,
    Magenta,
    Cyan,
    White,
    BrightCyan,
    BrightWhite,
}

/// How a piece of text is styled: a foreground colour, the dimmed
/// attribute, or both; or bold and underlined, for headings.
#[derive(Clone, Copy, Debug, PartialEq, Eq, Structural)]
pub enum Tint {
    Fg(Colour),
    Dim,
    FgDim(Colour),
    Emphasis,
}

/// The SGR parameter of a foreground colour.
pub open spec fn fg_code(c: Colour) -> Seq<char> {
    match c {
        Colour::Red => seq!['3', '1'],
        Colour::Green => seq!['3', '2'],
        Colour::Yellow => seq!['3', '3'],
        Colour::Blue => seq!['3', '4'],
        Colour::Magenta => seq!['3', '5'],
        Colour::Cyan => seq!['3', '6'],
        Colour::White => seq!['3', '7'],
        Colour::BrightCyan => seq!['9', '6'],
        Colour::BrightWhite => seq!['9', '7'],
    }
}

/// The SGR parameters of a tint: the style first, then the colour.
pub open spec fn tint_code(t: Tint) -> Seq<char> {
    match t {
        Tint::Fg(c) => fg_code(c),
        Tint::Dim => seq!['2'],
        Tint::FgDim(c) => seq!['2', ';'] + fg_code(c),
        Tint::Emphasis => seq!['1', ';', '4'],
    }
}

/// The control sequence that switches a tint on.
pub open spec fn sgr_open(t: Tint) -> Seq<char> {
    seq![esc(), '['] + tint_code(t) + seq!['m']
}

/// The control sequence that resets all attributes.
pub open spec fn sgr_reset() -> Seq<char> {
    seq![esc(), '[', '0', 'm']
}

/// `r` shows `text` in tint `t`: either unchanged, where the terminal gets no
/// colour, or wrapped in the tint's control sequence and a reset.
pub open spec fn is_painted(r: Seq<char>, text: Seq<char>, t: Tint) -> bool {
    r == text || r == sgr_open(t) + text + sgr_reset()
}

/// `text` with `open` written after each reset sequence it holds, as
/// `colored` writes text that already holds control sequences: the
/// resets are found from left to right, and the style is opened again
/// after each of them.
pub open spec fn reopened(text: Seq<char>, open: Seq<char>) -> Seq<char>
    decreases text.len(),
{
    if text.len() == 0 {
        Seq::empty()
    } else if text.len() >= 4 && text.take(4) == sgr_reset() {
        sgr_reset() + open + reopened(text.skip(4), open)
    } else {
        seq![text[0]] + reopened(text.drop_first(), open)
    }
}

/// `r` shows `text` in tint `t` as `colored` writes it: either unchanged,
/// where the terminal gets no colour, or the tint's control sequence, the
/// text with the tint opened again after each of its resets, and a reset.
pub open spec fn is_styled(r: Seq<char>, text: Seq<char>, t: Tint) -> bool {
    r == text || r == sgr_open(t) + reopened(text, sgr_open(t)) + sgr_reset()
}

/// Text without an escape character holds no reset, so nothing is opened
/// again in it.
pub proof fn lemma_reopened_plain(text: Seq<char>, open: Seq<char>)
    requires
        !text.contains(esc()),
    ensures
        reopened(text, open) == text,
    decreases text.len(),
{
    if text.len() > 0 {
        if text.len() >= 4 && text.take(4) == sgr_reset() {
            assert(text[0] == text.take(4)[0]);
            assert(false);
        }
        let rest = text.drop_first();
        assert(!rest.contains(esc())) by {
            if rest.contains(esc()) {
                let k = choose|k: int| 0 <= k < rest.len() && rest[k] == esc();
                assert(text[k + 1] == esc());
            }
        }
        lemma_reopened_plain(rest, open);
        assert(text =~= seq![text[0]] + rest);
    }
}

/// For text without an escape character, styled text is painted text: the
/// text as it is, or wrapped in the tint's control sequence and a reset.
pub proof fn lemma_styled_plain(r: Seq<char>, text: Seq<char>, t: Tint)
    requires
        is_styled(r, text, t),
        !text.contains(esc()),
    ensures
        is_painted(r, text, t),
{
    lemma_reopened_plain(text, sgr_open(t));
}

/// Text styled by the `colored` crate, as its `ColoredString` displays it
/// (through `to_string`). `colored` colours only when the environment and the
/// terminal allow it (`NO_COLOR`, `CLICOLOR`, `CLICOLOR_FORCE`, whether
/// stdout is a terminal), so both outcomes are admitted. The coloured form
/// is the style's control sequence, the text with the style written again
/// after each reset sequence it holds (`escape_inner_reset_sequences`), and
/// a reset.
#[verifier::external_body]
pub(crate) fn paint(text: &str, tint: Tint) -> (r: String)
    ensures
        is_styled(r@, text@, tint),
{
    let (fg, style) = match tint {
        Tint::Fg(c) => (Some(c), Style::default()),
        Tint::Dim => (None, Style::from(Styles::Dimmed)),
        Tint::FgDim(c) => (Some(c), Style::from(Styles::Dimmed)),
        Tint::Emphasis => (None, Styles::Bold | Styles::Underline),
    };
    let mut coloured = ColoredString::from(text);
    coloured.fgcolor = fg.map(|c| match c {
        Colour::Red => Color::Red, Colour::Green => Color::Green, Colour::Yellow => Color::Yellow,
        Colour::Blue => Color::Blue, Colour::Magenta => Color::Magenta, Colour::Cyan => Color::Cyan,
        Colour::White => Color::White, Colour::BrightCyan => Color::BrightCyan,
        Colour::BrightWhite => Color::BrightWhite,
    });
    coloured.style = style;
    coloured.to_string()
}

} // verus!
