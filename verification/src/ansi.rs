use vstd::prelude::*;
use vstd::string::*;
use crate::paint::{esc, is_painted, sgr_open, sgr_reset, tint_code, fg_code, Tint};
use crate::text::{chars_of, string_from_chars};

verus! {

/// One step of reading text the way a terminal shows it: the escape
/// character opens a control sequence, `m` closes it, and only characters
/// outside a control sequence are shown. The state is the text shown so far
/// and whether a control sequence is open.
pub open spec fn scan_step(state: (Seq<char>, bool), c: char) -> (Seq<char>, bool) {
    if c == esc() {
        (state.0, true)
    } else if state.1 && c == 'm' {
        (state.0, false)
    } else if !state.1 {
        (state.0.push(c), false)
    } else {
        (state.0, true)
    }
}

/// Reads all of `s`, starting inside a control sequence or not.
pub open spec fn scan(s: Seq<char>, open: bool) -> (Seq<char>, bool)
    decreases s.len(),
{
    if s.len() == 0 {
        (Seq::empty(), open)
    } else {
        scan_step(scan(s.drop_last(), open), s.last())
    }
}

/// The characters of `s` that a terminal shows: `s` without its ANSI
/// control sequences.
pub open spec fn stripped(s: Seq<char>) -> Seq<char> {
    scan(s, false).0
}

/// The columns that unicode-width gives a text.
pub uninterp spec fn text_width(s: Seq<char>) -> usize;

/// The columns a string takes on screen: the width of what remains once
/// the control sequences are removed.
pub open spec fn visible_width_of(s: Seq<char>) -> usize {
    text_width(stripped(s))
}

/// Every character is printable ASCII, from the space to `~`.
pub open spec fn printable_ascii(s: Seq<char>) -> bool {
    forall|i: int| 0 <= i < s.len() ==> ' ' <= #[trigger] s[i] <= '~'
}

/// `n` spaces.
pub open spec fn spaces(n: nat) -> Seq<char> {
    Seq::new(n, |i: int| ' ')
}

/// `s` centred in `target` columns when it takes `current` columns: the
/// missing columns are split into spaces on both sides, the right side
/// taking the odd one; text that already fills the target is unchanged.
pub open spec fn centered(s: Seq<char>, current: nat, target: nat) -> Seq<char> {
    if current >= target {
        s
    } else {
        let gap = (target - current) as nat;
        spaces(gap / 2) + s + spaces((gap - gap / 2) as nat)
    }
}

/// Spaces around `s`, `left` before and `right` after, add their count to
/// its width (within `usize`).
pub open spec fn spaced_width_adds(s: Seq<char>, w: usize) -> bool {
    forall|left: nat, right: nat|
        #![trigger text_width(spaces(left) + s + spaces(right))]
        left + w + right <= usize::MAX ==> text_width(spaces(left) + s + spaces(right)) == left + w + right
}

/// One vertical bar, the column separator of the tables.
pub open spec fn vbar() -> Seq<char> {
    seq!['│']
}

/// A closing vertical bar, or nothing.
pub open spec fn closing_bar(closed: bool) -> Seq<char> {
    if closed {
        vbar()
    } else {
        Seq::empty()
    }
}

/// A vertical bar, `l` spaces, `s` (`w` columns wide), `rr` spaces and, where
/// `closed`, another bar take the columns of their parts, at the start of a
/// line or after any text `t` (within `usize`).
pub open spec fn barred_width_adds(s: Seq<char>, w: usize) -> bool {
    &&& forall|l: nat, rr: nat, closed: bool|
        #![trigger text_width(vbar() + spaces(l) + s + spaces(rr) + closing_bar(closed))]
        2 + l + w + rr <= usize::MAX ==> text_width(vbar() + spaces(l) + s + spaces(rr) + closing_bar(closed))
            == 1 + l + w + rr + closing_bar(closed).len()
    &&& forall|t: Seq<char>, l: nat, rr: nat, closed: bool|
        #![trigger text_width(t + vbar() + spaces(l) + s + spaces(rr) + closing_bar(closed))]
        text_width(t) + 2 + l + w + rr <= usize::MAX ==> text_width(t + vbar() + spaces(l) + s + spaces(rr) + closing_bar(closed))
            == text_width(t) + 1 + l + w + rr + closing_bar(closed).len()
}

/// unicode-width's `UnicodeWidthStr::width`: the columns a terminal gives
/// the string. The rules (East Asian Width, emoji and script-specific
/// sequences, the version's Unicode tables) take pages, so the result is
/// named; it is a function of the string alone. The crate's documented
/// rules give one more fact, stated here: a space is one column wide and
/// belongs to none of the sequences whose width differs from the sum of
/// their characters, so spaces before and after the string add one column
/// each; and every character up to U+00A0 other than a line break takes one
/// column and starts no sequence, so printable ASCII text is as wide as it
/// is long. The vertical bar `│` (U+2502) is one column wide (narrow in the
/// crate's tables) and, like the space, belongs to none of those sequences:
/// the width is summed from the end of the string, and after a space or the
/// bar the state is the one a string starts with; so the string between
/// spaces and bars keeps its width, and whatever text stands before the bar
/// adds its own.
#[verifier::external_body]
fn display_width(s: &str) -> (r: usize)
    ensures
        r == text_width(s@),
        spaced_width_adds(s@, r),
        barred_width_adds(s@, r),
        printable_ascii(s@) ==> r == s@.len(),
{
    unicode_width::UnicodeWidthStr::width(s)
}

/// Removes ANSI control sequences: everything from an escape character up
/// to and including the next `m`.
pub fn strip_ansi(s: &str) -> (r: String)
    ensures
        r@ == stripped(s@),
{
    let cs = chars_of(s);
    let n = cs.len();
    let mut clean: Vec<char> = Vec::new();
    let mut in_escape = false;
    let mut i: usize = 0;
    while i < n
        invariant
            cs@ == s@,
            n == cs.len(),
            i <= n,
            scan(s@.take(i as int), false) == (clean@, in_escape),
        decreases n - i,
    {
        let ch = cs[i];
        assert(s@.take(i + 1).drop_last() =~= s@.take(i as int));
        if ch == '\x1b' {
            in_escape = true;
        } else if in_escape && ch == 'm' {
            in_escape = false;
        } else if !in_escape {
            clean.push(ch);
        }
        i = i + 1;
    }
    assert(s@.take(n as int) =~= s@);
    string_from_chars(&clean)
}

/// The columns `s` takes on screen, not counting ANSI control sequences.
pub fn visible_width(s: &str) -> (w: usize)
    ensures
        w == visible_width_of(s@),
        spaced_width_adds(stripped(s@), w),
        barred_width_adds(stripped(s@), w),
        printable_ascii(stripped(s@)) ==> w == stripped(s@).len(),
{
    let clean = strip_ansi(s);
    display_width(clean.as_str())
}

/// `n` spaces.
pub fn repeat_spaces(n: usize) -> (r: String)
    ensures
        r@ == spaces(n as nat),
{
    let mut v: Vec<char> = Vec::new();
    let mut i: usize = 0;
    while i < n
        invariant
            i <= n,
            v@ == spaces(i as nat),
        decreases n - i,
    {
        v.push(' ');
        i = i + 1;
        assert(v@ =~= spaces(i as nat));
    }
    string_from_chars(&v)
}

/// Centres `s`, which takes `current` columns, in `target` columns.
pub fn center_with_width(s: &str, current: usize, target: usize) -> (r: String)
    ensures
        r@ == centered(s@, current as nat, target as nat),
{
    if current >= target {
        String::from_str(s)
    } else {
        let left = (target - current) / 2;
        let right = target - current - left;
        let mut r = repeat_spaces(left);
        r.append(s);
        let tail = repeat_spaces(right);
        r.append(tail.as_str());
        r
    }
}

/// What a terminal shows of `z`, between a bar and, where `closed`,
/// another, takes `target` columns and one for each bar, at the start of a
/// line or after any text `t` (within `usize`).
pub open spec fn fills_between_bars(z: Seq<char>, target: nat) -> bool {
    &&& forall|closed: bool|
        #![trigger text_width(vbar() + stripped(z) + closing_bar(closed))]
        2 + target <= usize::MAX ==> text_width(vbar() + stripped(z) + closing_bar(closed))
            == 1 + target + closing_bar(closed).len()
    &&& forall|t: Seq<char>, closed: bool|
        #![trigger text_width(t + vbar() + stripped(z) + closing_bar(closed))]
        text_width(t) + 2 + target <= usize::MAX ==> text_width(t + vbar() + stripped(z) + closing_bar(closed))
            == text_width(t) + 1 + target + closing_bar(closed).len()
}

/// `s` closes every control sequence it opens.
pub open spec fn closes_sequences(s: Seq<char>) -> bool {
    !scan(s, false).1
}

/// Centres `s` within `target_width` visible columns. Text narrower than
/// the target that closes its control sequences then takes exactly the
/// target's columns.
pub fn center_to_width(s: &str, target_width: usize) -> (r: String)
    ensures
        r@ == centered(s@, visible_width_of(s@) as nat, target_width as nat),
        closes_sequences(s@) && visible_width_of(s@) < target_width ==> visible_width_of(r@) == target_width,
        closes_sequences(s@) && visible_width_of(s@) < target_width ==> closes_sequences(r@)
            && fills_between_bars(r@, target_width as nat),
{
    let current = visible_width(s);
    let r = center_with_width(s, current, target_width);
    proof {
        if closes_sequences(s@) && current < target_width {
            let gap = (target_width - current) as nat;
            let left = gap / 2;
            let right = (gap - gap / 2) as nat;
            lemma_spaces_plain(left);
            lemma_spaces_plain(right);
            lemma_scan_plain(spaces(left));
            lemma_scan_plain(spaces(right));
            lemma_scan_concat(spaces(left), s@, false);
            lemma_scan_concat(spaces(left) + s@, spaces(right), false);
            assert(stripped(r@) == spaces(left) + stripped(s@) + spaces(right));
            assert(text_width(spaces(left) + stripped(s@) + spaces(right)) == left + current + right);
            let y = stripped(s@);
            assert forall|closed: bool| 2 + target_width <= usize::MAX implies
                #[trigger] text_width(vbar() + stripped(r@) + closing_bar(closed))
                    == 1 + target_width + closing_bar(closed).len() by {
                assert(vbar() + stripped(r@) + closing_bar(closed)
                    =~= vbar() + spaces(left) + y + spaces(right) + closing_bar(closed));
                assert(text_width(vbar() + spaces(left) + y + spaces(right) + closing_bar(closed))
                    == 1 + left + current + right + closing_bar(closed).len());
            }
            assert forall|t: Seq<char>, closed: bool| text_width(t) + 2 + target_width <= usize::MAX implies
                #[trigger] text_width(t + vbar() + stripped(r@) + closing_bar(closed))
                    == text_width(t) + 1 + target_width + closing_bar(closed).len() by {
                assert(t + vbar() + stripped(r@) + closing_bar(closed)
                    =~= t + vbar() + spaces(left) + y + spaces(right) + closing_bar(closed));
                assert(text_width(t + vbar() + spaces(left) + y + spaces(right) + closing_bar(closed))
                    == text_width(t) + 1 + left + current + right + closing_bar(closed).len());
            }
            assert(!scan(r@, false).1);
        }
    }
    r
}

proof fn lemma_spaces_plain(n: nat)
    ensures
        !spaces(n).contains(esc()),
{
    if spaces(n).contains(esc()) {
        let k = choose|k: int| 0 <= k < spaces(n).len() && spaces(n)[k] == esc();
        assert(spaces(n)[k] == ' ');
    }
}

/// Reading `a` then `b` is reading `a + b`.
pub proof fn lemma_scan_concat(a: Seq<char>, b: Seq<char>, open: bool)
    ensures
        scan(a + b, open) == ({
            let (shown_a, open_a) = scan(a, open);
            let (shown_b, open_b) = scan(b, open_a);
            (shown_a + shown_b, open_b)
        }),
    decreases b.len(),
{
    if b.len() == 0 {
        assert(a + b =~= a);
        assert(scan(a, open).0 + Seq::<char>::empty() =~= scan(a, open).0);
    } else {
        lemma_scan_concat(a, b.drop_last(), open);
        assert((a + b).drop_last() =~= a + b.drop_last());
        assert((a + b).last() == b.last());
        let (shown_a, open_a) = scan(a, open);
        let (shown_b, open_b) = scan(b.drop_last(), open_a);
        assert((shown_a + shown_b).push(b.last()) =~= shown_a + shown_b.push(b.last()));
    }
}

/// Text without escape characters, read outside a control sequence, is
/// shown as it is.
pub proof fn lemma_scan_plain(t: Seq<char>)
    requires
        !t.contains(esc()),
    ensures
        scan(t, false) == (t, false),
    decreases t.len(),
{
    if t.len() > 0 {
        assert(!t.drop_last().contains(esc())) by {
            if t.drop_last().contains(esc()) {
                let k = choose|k: int| 0 <= k < t.drop_last().len() && t.drop_last()[k] == esc();
                assert(t[k] == esc());
            }
        }
        lemma_scan_plain(t.drop_last());
        assert(t[t.len() - 1] != esc());
        assert(t.drop_last().push(t.last()) =~= t);
    }
}

/// Parameter characters (digits and `;`) inside an open control sequence
/// show nothing and leave it open.
proof fn lemma_scan_params(p: Seq<char>)
    requires
        forall|i: int| 0 <= i < p.len() ==> (('0' <= #[trigger] p[i] && p[i] <= '9') || p[i] == ';'),
    ensures
        scan(p, true) == (Seq::<char>::empty(), true),
    decreases p.len(),
{
    if p.len() > 0 {
        lemma_scan_params(p.drop_last());
        assert(p[p.len() - 1] == p.last());
    }
}

/// A complete control sequence `ESC [ params m` shows nothing.
proof fn lemma_scan_sequence(p: Seq<char>)
    requires
        forall|i: int| 0 <= i < p.len() ==> (('0' <= #[trigger] p[i] && p[i] <= '9') || p[i] == ';'),
    ensures
        scan(seq![esc(), '['] + p + seq!['m'], false) == (Seq::<char>::empty(), false),
{
    let head = seq![esc(), '['];
    assert(seq![esc()].drop_last() =~= Seq::<char>::empty());
    assert(scan(Seq::<char>::empty(), false) == (Seq::<char>::empty(), false));
    assert(scan(seq![esc()], false) == (Seq::<char>::empty(), true));
    assert(head.drop_last() =~= seq![esc()]);
    assert(scan(head, false) == (Seq::<char>::empty(), true));
    lemma_scan_params(p);
    lemma_scan_concat(head, p, false);
    assert(Seq::<char>::empty() + Seq::<char>::empty() =~= Seq::<char>::empty());
    assert(scan(head + p, false) == (Seq::<char>::empty(), true));
    assert(seq!['m'].drop_last() =~= Seq::<char>::empty());
    assert(scan(Seq::<char>::empty(), true) == (Seq::<char>::empty(), true));
    assert(scan(seq!['m'], true) == (Seq::<char>::empty(), false));
    lemma_scan_concat(head + p, seq!['m'], false);
}

proof fn lemma_tint_code_params(t: Tint)
    ensures
        forall|i: int| 0 <= i < tint_code(t).len()
            ==> (('0' <= #[trigger] tint_code(t)[i] && tint_code(t)[i] <= '9') || tint_code(t)[i] == ';'),
{
    match t {
        Tint::FgDim(c) => {
            assert(tint_code(t) =~= seq!['2', ';'] + fg_code(c));
            assert forall|i: int| 0 <= i < tint_code(t).len() implies
                (('0' <= #[trigger] tint_code(t)[i] && tint_code(t)[i] <= '9') || tint_code(t)[i] == ';') by {
                if i >= 2 {
                    assert(tint_code(t)[i] == fg_code(c)[i - 2]);
                }
            }
        },
        _ => {},
    }
}

/// Painting text that holds no escape character does not change what the
/// terminal shows: removing the control sequences gives the text back.
pub proof fn lemma_painted_strips_to_text(r: Seq<char>, text: Seq<char>, t: Tint)
    requires
        is_painted(r, text, t),
        !text.contains(esc()),
    ensures
        stripped(r) == text,
        scan(r, false) == (text, false),
{
    lemma_scan_plain(text);
    if r != text {
        lemma_tint_code_params(t);
        lemma_scan_sequence(tint_code(t));
        let reset_params = seq!['0'];
        lemma_scan_sequence(reset_params);
        assert(sgr_reset() =~= seq![esc(), '['] + reset_params + seq!['m']);
        lemma_scan_concat(sgr_open(t), text, false);
        lemma_scan_concat(sgr_open(t) + text, sgr_reset(), false);
        assert(Seq::<char>::empty() + text + Seq::<char>::empty() =~= text);
    }
}

/// Painting text that holds no escape character keeps its visible width.
pub proof fn lemma_painted_keeps_width(r: Seq<char>, text: Seq<char>, t: Tint)
    requires
        is_painted(r, text, t),
        !text.contains(esc()),
    ensures
        visible_width_of(r) == visible_width_of(text),
{
    lemma_painted_strips_to_text(r, text, t);
    lemma_scan_plain(text);
}

} // verus!
