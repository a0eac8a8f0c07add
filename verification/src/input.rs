use vstd::prelude::*;
use vstd::string::*;
use crate::text::{chars_of, string_from_chars, parse_usize, parsed_usize};

verus! {

/// A character with the Unicode `White_Space` property, as
/// `char::is_whitespace` decides.
pub open spec fn is_white_space(c: char) -> bool {
    ||| c == '\t'
    ||| c == '\n'
    ||| c == '\u{0B}'
    ||| c == '\u{0C}'
    ||| c == '\r'
    ||| c == ' '
    ||| c == '\u{85}'
    ||| c == '\u{A0}'
    ||| c == '\u{1680}'
    ||| ('\u{2000}' <= c && c <= '\u{200A}')
    ||| c == '\u{2028}'
    ||| c == '\u{2029}'
    ||| c == '\u{202F}'
    ||| c == '\u{205F}'
    ||| c == '\u{3000}'
}

/// The number of white-space characters at the start of `s`.
pub open spec fn leading_space(s: Seq<char>) -> nat
    decreases s.len(),
{
    if s.len() > 0 && is_white_space(s[0]) {
        1 + leading_space(s.drop_first())
    } else {
        0
    }
}

/// The number of white-space characters at the end of `s`.
pub open spec fn trailing_space(s: Seq<char>) -> nat
    decreases s.len(),
{
    if s.len() > 0 && is_white_space(s.last()) {
        1 + trailing_space(s.drop_last())
    } else {
        0
    }
}

/// `s` without its leading and trailing white space, as `str::trim` gives.
pub open spec fn trimmed(s: Seq<char>) -> Seq<char> {
    let t = s.skip(leading_space(s) as int);
    t.take(t.len() - trailing_space(t))
}

fn white_space(c: char) -> (b: bool)
    ensures
        b == is_white_space(c),
{
    c == '\t' || c == '\n' || c == '\u{0B}' || c == '\u{0C}' || c == '\r' || c == ' ' || c == '\u{85}'
        || c == '\u{A0}' || c == '\u{1680}' || ('\u{2000}' <= c && c <= '\u{200A}') || c == '\u{2028}'
        || c == '\u{2029}' || c == '\u{202F}' || c == '\u{205F}' || c == '\u{3000}'
}

proof fn lemma_leading_space(s: Seq<char>, i: int)
    requires
        0 <= i <= s.len(),
        forall|j: int| 0 <= j < i ==> is_white_space(#[trigger] s[j]),
        i == s.len() || !is_white_space(s[i]),
    ensures
        leading_space(s) == i,
    decreases i,
{
    if i > 0 {
        let t = s.drop_first();
        assert forall|j: int| 0 <= j < i - 1 implies is_white_space(#[trigger] t[j]) by {
            assert(t[j] == s[j + 1]);
        }
        if i - 1 < t.len() {
            assert(t[i - 1] == s[i]);
        }
        lemma_leading_space(t, i - 1);
    }
}

proof fn lemma_trailing_space(s: Seq<char>, i: int)
    requires
        0 <= i <= s.len(),
        forall|j: int| s.len() - i <= j < s.len() ==> is_white_space(#[trigger] s[j]),
        i == s.len() || !is_white_space(s[s.len() - i - 1]),
    ensures
        trailing_space(s) == i,
    decreases i,
{
    if i > 0 {
        let t = s.drop_last();
        assert forall|j: int| t.len() - (i - 1) <= j < t.len() implies is_white_space(#[trigger] t[j]) by {
            assert(t[j] == s[j]);
        }
        if i - 1 < t.len() {
            assert(t[t.len() - (i - 1) - 1] == s[s.len() - i - 1]);
        }
        assert(is_white_space(s[s.len() - 1]));
        lemma_trailing_space(t, i - 1);
    }
}

/// `s` without leading and trailing white space.
pub fn trim(s: &str) -> (r: String)
    ensures
        r@ == trimmed(s@),
{
    let cs = chars_of(s);
    let n = cs.len();
    let mut a: usize = 0;
    while a < n && white_space(cs[a])
        invariant
            cs@ == s@,
            n == cs.len(),
            a <= n,
            forall|j: int| 0 <= j < a ==> is_white_space(#[trigger] s@[j]),
        decreases n - a,
    {
        a = a + 1;
    }
    proof {
        lemma_leading_space(s@, a as int);
    }
    let ghost t = s@.skip(a as int);
    let mut b: usize = n;
    while b > a && white_space(cs[b - 1])
        invariant
            cs@ == s@,
            n == cs.len(),
            a <= b <= n,
            t == s@.skip(a as int),
            forall|j: int| b <= j < n ==> is_white_space(#[trigger] s@[j]),
        decreases b,
    {
        b = b - 1;
    }
    proof {
        let i = (n - b) as int;
        assert forall|j: int| t.len() - i <= j < t.len() implies is_white_space(#[trigger] t[j]) by {
            assert(t[j] == s@[j + a]);
        }
        if i < t.len() {
            assert(t[t.len() - i - 1] == s@[b - 1]);
        }
        lemma_trailing_space(t, i);
    }
    let mut out: Vec<char> = Vec::new();
    let mut k: usize = a;
    while k < b
        invariant
            cs@ == s@,
            n == cs.len(),
            a <= k <= b <= n,
            out@ == s@.subrange(a as int, k as int),
        decreases b - k,
    {
        out.push(cs[k]);
        k = k + 1;
        assert(out@ =~= s@.subrange(a as int, k as int));
    }
    assert(trimmed(s@) =~= s@.subrange(a as int, b as int));
    string_from_chars(&out)
}

/// The location typed by the user, without surrounding white space; `None`
/// when nothing but white space was typed.
pub fn location_query(line: &str) -> (r: Option<String>)
    ensures
        trimmed(line@).len() == 0 ==> r is None,
        trimmed(line@).len() > 0 ==> (r matches Some(q) && q@ == trimmed(line@)),
{
    let q = trim(line);
    if q.as_str().is_empty() {
        None
    } else {
        Some(q)
    }
}

/// The answer asks for the daily forecast: after trimming, it lowercases to
/// `d`, which only `d` and `D` do. Any other answer means hourly.
pub open spec fn asks_for_daily(line: Seq<char>) -> bool {
    trimmed(line) == seq!['d'] || trimmed(line) == seq!['D']
}

/// Whether the answer to "hourly or daily" chooses the daily forecast.
pub fn is_daily_choice(line: &str) -> (daily: bool)
    ensures
        daily == asks_for_daily(line@),
{
    let t = trim(line);
    let cs = chars_of(t.as_str());
    if cs.len() == 1 && (cs[0] == 'd' || cs[0] == 'D') {
        assert(t@ =~= seq![cs[0]]);
        true
    } else {
        assert(t@.len() != 1 ==> t@ != seq!['d'] && t@ != seq!['D']);
        false
    }
}

/// The day picked by number, as an index into the `count` days offered:
/// the answer must read as a number from 1 to `count`.
pub open spec fn picked_day(line: Seq<char>, count: nat) -> Option<nat> {
    match parsed_usize(trimmed(line)) {
        Some(num) => if 1 <= num && num <= count { Some((num - 1) as nat) } else { None },
        None => None,
    }
}

/// Reads the number of a day among `count` offered; `None` asks again.
pub fn day_choice(line: &str, count: usize) -> (r: Option<usize>)
    ensures
        r matches Some(i) ==> picked_day(line@, count as nat) == Some(i as nat),
        r is None ==> picked_day(line@, count as nat) is None,
{
    let t = trim(line);
    match parse_usize(t.as_str()) {
        Some(num) => {
            if num >= 1 && num <= count {
                Some(num - 1)
            } else {
                None
            }
        },
        None => None,
    }
}

/// The entries of the menu shown after a forecast.
#[derive(Clone, Copy, Debug, PartialEq, Eq, Structural)]
pub enum MenuChoice {
    NewLocation,
    SameLocation,
    Exit,
    Invalid,
}

/// The menu entry an answer picks: `1`, `2` or `0` after trimming.
pub open spec fn menu_choice_of(line: Seq<char>) -> MenuChoice {
    let t = trimmed(line);
    if t == seq!['1'] {
        MenuChoice::NewLocation
    } else if t == seq!['2'] {
        MenuChoice::SameLocation
    } else if t == seq!['0'] {
        MenuChoice::Exit
    } else {
        MenuChoice::Invalid
    }
}

/// Reads an answer to the menu.
pub fn menu_choice(line: &str) -> (c: MenuChoice)
    ensures
        c == menu_choice_of(line@),
{
    let t = trim(line);
    let cs = chars_of(t.as_str());
    if cs.len() == 1 && cs[0] == '1' {
        assert(t@ =~= seq!['1']);
        MenuChoice::NewLocation
    } else if cs.len() == 1 && cs[0] == '2' {
        assert(t@ =~= seq!['2']);
        MenuChoice::SameLocation
    } else if cs.len() == 1 && cs[0] == '0' {
        assert(t@ =~= seq!['0']);
        MenuChoice::Exit
    } else {
        MenuChoice::Invalid
    }
}

/// Every character of `s` is white space.
pub open spec fn all_white_space(s: Seq<char>) -> bool {
    forall|i: int| 0 <= i < s.len() ==> is_white_space(#[trigger] s[i])
}

proof fn lemma_leading_space_bounds(s: Seq<char>)
    ensures
        leading_space(s) <= s.len(),
        forall|j: int| 0 <= j < leading_space(s) ==> is_white_space(#[trigger] s[j]),
        leading_space(s) < s.len() ==> !is_white_space(s[leading_space(s) as int]),
    decreases s.len(),
{
    if s.len() > 0 && is_white_space(s[0]) {
        let t = s.drop_first();
        lemma_leading_space_bounds(t);
        assert forall|j: int| 0 <= j < leading_space(s) implies is_white_space(#[trigger] s[j]) by {
            if j > 0 {
                assert(s[j] == t[j - 1]);
            }
        }
        if leading_space(s) < s.len() {
            assert(s[leading_space(s) as int] == t[leading_space(t) as int]);
        }
    }
}

proof fn lemma_trailing_space_bounds(s: Seq<char>)
    ensures
        trailing_space(s) <= s.len(),
        forall|j: int| s.len() - trailing_space(s) <= j < s.len() ==> is_white_space(#[trigger] s[j]),
        trailing_space(s) < s.len() ==> !is_white_space(s[s.len() - trailing_space(s) - 1]),
    decreases s.len(),
{
    if s.len() > 0 && is_white_space(s.last()) {
        let t = s.drop_last();
        lemma_trailing_space_bounds(t);
        assert forall|j: int| s.len() - trailing_space(s) <= j < s.len() implies is_white_space(#[trigger] s[j]) by {
            if j < s.len() - 1 {
                assert(s[j] == t[j]);
            }
        }
        if trailing_space(s) < s.len() {
            assert(s[s.len() - trailing_space(s) - 1] == t[t.len() - trailing_space(t) - 1]);
        }
    }
}

/// Trimming removes white space at the two ends and nothing else: the
/// trimmed text stands in the text between white space only, keeps the
/// white space inside it, and begins and ends with a character that is
/// not white space; it is empty exactly when the text is all white space.
pub proof fn lemma_trim_removes_only_ends(s: Seq<char>)
    ensures
        exists|i: int, j: int| #![trigger s.subrange(i, j)]
            0 <= i <= j <= s.len() && s.subrange(i, j) == trimmed(s)
            && all_white_space(s.take(i)) && all_white_space(s.skip(j)),
        trimmed(s).len() > 0 ==> !is_white_space(trimmed(s)[0])
            && !is_white_space(trimmed(s)[trimmed(s).len() - 1]),
        trimmed(s).len() == 0 <==> all_white_space(s),
        is_white_space(' ') && is_white_space('\t') && is_white_space('\n') && is_white_space('\r'),
{
    let l = leading_space(s) as int;
    lemma_leading_space_bounds(s);
    let t = s.skip(l);
    lemma_trailing_space_bounds(t);
    let r = trailing_space(t) as int;
    let e = l + t.len() - r;
    assert(trimmed(s) =~= s.subrange(l, e));
    assert forall|k: int| 0 <= k < s.take(l).len() implies is_white_space(#[trigger] s.take(l)[k]) by {
        assert(s.take(l)[k] == s[k]);
    }
    assert forall|k: int| 0 <= k < s.skip(e).len() implies is_white_space(#[trigger] s.skip(e)[k]) by {
        assert(s.skip(e)[k] == t[t.len() - r + k]);
    }
    assert(s.subrange(l, e) == trimmed(s));
    if trimmed(s).len() > 0 {
        assert(trimmed(s)[0] == t[0]);
        assert(t[0] == s[l]);
        assert(trimmed(s)[trimmed(s).len() - 1] == t[t.len() - r - 1]);
    }
    if trimmed(s).len() == 0 {
        assert forall|k: int| 0 <= k < s.len() implies is_white_space(#[trigger] s[k]) by {
            if k >= l {
                assert(s[k] == t[k - l]);
                assert(t.len() - r <= k - l);
            }
        }
    }
    if all_white_space(s) && trimmed(s).len() > 0 {
        assert(is_white_space(s[l]));
    }
}

/// The menu reads the answer without the white space around it: answers
/// that trim alike pick alike, `1` asks for a new place, `2` for the same
/// place again, `0` ends the viewer, and anything else is refused.
pub proof fn lemma_menu_reads_trimmed(a: Seq<char>, b: Seq<char>)
    ensures
        trimmed(a) == trimmed(b) ==> menu_choice_of(a) == menu_choice_of(b),
        trimmed(a) == seq!['1'] <==> menu_choice_of(a) == MenuChoice::NewLocation,
        trimmed(a) == seq!['2'] <==> menu_choice_of(a) == MenuChoice::SameLocation,
        trimmed(a) == seq!['0'] <==> menu_choice_of(a) == MenuChoice::Exit,
{
    assert(seq!['1'] != seq!['2'] && seq!['1'] != seq!['0'] && seq!['2'] != seq!['0']) by {
        assert(seq!['1'][0] != seq!['2'][0]);
        assert(seq!['1'][0] != seq!['0'][0]);
        assert(seq!['2'][0] != seq!['0'][0]);
    }
}

/// The other answers are read without surrounding white space too:
/// answers that trim alike choose the same forecast and the same day.
pub proof fn lemma_answers_read_trimmed(a: Seq<char>, b: Seq<char>, count: nat)
    ensures
        trimmed(a) == trimmed(b) ==> asks_for_daily(a) == asks_for_daily(b),
        trimmed(a) == trimmed(b) ==> picked_day(a, count) == picked_day(b, count),
{
}

} // verus!
