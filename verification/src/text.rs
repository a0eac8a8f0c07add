use vstd::prelude::*;
use vstd::string::*;

verus! {

/// The characters of `s`, in order.
pub fn chars_of(s: &str) -> (v: Vec<char>)
    ensures
        v@ == s@,
{
    let mut v: Vec<char> = Vec::new();
    for c in it: s.chars()
        invariant
            it.seq() == s@,
            v@ == it.seq().take(it.index() as int),
    {
        v.push(c);
    }
    v
}

/// An ASCII decimal digit.
pub open spec fn is_digit(c: char) -> bool {
    '0' <= c && c <= '9'
}

/// A character that may belong to the numeric prefix of a reading:
/// a digit, a decimal point or a minus sign.
pub open spec fn is_number_char(c: char) -> bool {
    is_digit(c) || c == '.' || c == '-'
}

/// Index of the first character of `s` that is not a number character,
/// or `s.len()` when there is none.
pub open spec fn numeric_prefix_len(s: Seq<char>) -> nat
    decreases s.len(),
{
    if s.len() == 0 {
        0
    } else if !is_number_char(s[0]) {
        0
    } else {
        1 + numeric_prefix_len(s.drop_first())
    }
}

/// A number whose integer part is a single digit, such as `5`, `5.0` or the
/// `5.0` of `5.0°C`, gets a leading space, so that it lines up with
/// two-digit numbers.
pub open spec fn needs_padding(s: Seq<char>) -> bool {
    let k = numeric_prefix_len(s);
    &&& 0 < k
    &&& is_digit(s[0])
    &&& (k == 1 || s[1] == '.')
}

/// What `pad_number` returns for `s`.
pub open spec fn padded_number(s: Seq<char>) -> Seq<char> {
    if needs_padding(s) {
        seq![' '] + s
    } else {
        s
    }
}

proof fn lemma_numeric_prefix(s: Seq<char>, i: int)
    requires
        0 <= i <= s.len(),
        forall|j: int| 0 <= j < i ==> is_number_char(#[trigger] s[j]),
    ensures
        numeric_prefix_len(s) >= i,
        i < s.len() && !is_number_char(s[i]) ==> numeric_prefix_len(s) == i,
        numeric_prefix_len(s) <= s.len(),
    decreases i,
{
    if i > 0 {
        let t = s.drop_first();
        assert forall|j: int| 0 <= j < i - 1 implies is_number_char(#[trigger] t[j]) by {
            assert(t[j] == s[j + 1]);
        }
        lemma_numeric_prefix(t, i - 1);
    } else {
        lemma_numeric_prefix_le(s);
    }
}

proof fn lemma_numeric_prefix_le(s: Seq<char>)
    ensures
        numeric_prefix_len(s) <= s.len(),
    decreases s.len(),
{
    if s.len() > 0 {
        lemma_numeric_prefix_le(s.drop_first());
    }
}

/// Pads a number whose integer part is a single digit with one leading
/// space, whether or not a unit follows it.
pub fn pad_number(s: &str) -> (r: String)
    ensures
        r@ == padded_number(s@),
{
    let cs = chars_of(s);
    let n = cs.len();
    let mut k: usize = 0;
    while k < n && (('0' <= cs[k] && cs[k] <= '9') || cs[k] == '.' || cs[k] == '-')
        invariant
            cs@ == s@,
            n == cs.len(),
            k <= n,
            forall|j: int| 0 <= j < k ==> is_number_char(#[trigger] cs@[j]),
        decreases n - k,
    {
        k = k + 1;
    }
    proof {
        lemma_numeric_prefix(s@, k as int);
    }
    if 0 < k && '0' <= cs[0] && cs[0] <= '9' && (k == 1 || cs[1] == '.') {
        let mut r = String::from_str(" ");
        r.append(s);
        proof {
            reveal_strlit(" ");
        }
        r
    } else {
        String::from_str(s)
    }
}


/// Padding is done once: a padded reading starts with a space, which is
/// not part of a number, so padding it again changes nothing.
pub proof fn lemma_padding_idempotent(s: Seq<char>)
    ensures
        padded_number(padded_number(s)) == padded_number(s),
{
    if needs_padding(s) {
        let t = seq![' '] + s;
        assert(t[0] == ' ');
        assert(numeric_prefix_len(t) == 0);
    }
}

/// A temperature as the forecast writes it, with one decimal and its unit:
/// an optional minus sign, the whole degrees, a point, the tenths and `°C`.
pub open spec fn temperature_text(negative: bool, whole: nat, tenths: nat) -> Seq<char> {
    (if negative { seq!['-'] } else { Seq::empty() }) + decimal(whole)
        + seq!['.', digit_char(tenths), '°', 'C']
}

/// Temperatures from -9.9 to 99.9 degrees take six characters once padded:
/// single-digit ones gain a space, the others already have six.
pub proof fn lemma_padded_temperature_len(negative: bool, whole: nat, tenths: nat)
    requires
        whole < 100,
        tenths < 10,
        negative ==> whole < 10,
    ensures
        padded_number(temperature_text(negative, whole, tenths)).len() == 6,
{
    let s = temperature_text(negative, whole, tenths);
    let d = decimal(whole);
    if whole >= 10 {
        assert(decimal(whole / 10) == seq![digit_char(whole / 10)]);
    }
    assert(d.len() == if whole < 10 { 1nat } else { 2nat });
    let k: int = s.len() - 2;
    assert forall|j: int| 0 <= j < k implies is_number_char(#[trigger] s[j]) by {
        if whole >= 10 {
            assert(d[0] == digit_char(whole / 10) && d[1] == digit_char(whole % 10));
        }
    }
    assert(s[k] == '°');
    lemma_numeric_prefix(s, k);
    if whole >= 10 {
        assert(d[1] == digit_char(whole % 10));
        assert(s[1] != '.');
    }
}

/// Collects characters into a `String` (std's `FromIterator<char>`).
#[verifier::external_body]
pub(crate) fn string_from_chars(v: &Vec<char>) -> (r: String)
    ensures
        r@ == v@,
{
    v.iter().collect()
}

/// A one-character string.
pub fn char_string(c: char) -> (r: String)
    ensures
        r@ == seq![c],
{
    let mut v: Vec<char> = Vec::new();
    v.push(c);
    proof {
        assert(v@ =~= seq![c]);
    }
    string_from_chars(&v)
}

/// The decimal digit character for `d` (below ten).
pub open spec fn digit_char(d: nat) -> char {
    if d == 0 { '0' }
    else if d == 1 { '1' }
    else if d == 2 { '2' }
    else if d == 3 { '3' }
    else if d == 4 { '4' }
    else if d == 5 { '5' }
    else if d == 6 { '6' }
    else if d == 7 { '7' }
    else if d == 8 { '8' }
    else { '9' }
}

/// The value of a decimal digit character.
pub open spec fn digit_value(c: char) -> nat {
    if c == '1' { 1 }
    else if c == '2' { 2 }
    else if c == '3' { 3 }
    else if c == '4' { 4 }
    else if c == '5' { 5 }
    else if c == '6' { 6 }
    else if c == '7' { 7 }
    else if c == '8' { 8 }
    else if c == '9' { 9 }
    else { 0 }
}

/// The shortest decimal numeral of `n`, without sign or leading zeros.
pub open spec fn decimal(n: nat) -> Seq<char>
    decreases n,
{
    if n < 10 {
        seq![digit_char(n)]
    } else {
        decimal(n / 10).push(digit_char(n % 10))
    }
}

/// Every character of `s` is a decimal digit.
pub open spec fn all_digits(s: Seq<char>) -> bool {
    forall|i: int| 0 <= i < s.len() ==> is_digit(#[trigger] s[i])
}

/// The number that the digit string `s` denotes (0 for the empty string).
pub open spec fn digits_value(s: Seq<char>) -> nat
    decreases s.len(),
{
    if s.len() == 0 {
        0
    } else {
        digits_value(s.drop_last()) * 10 + digit_value(s.last())
    }
}

/// The digits that `usize::from_str` reads: `s` without one leading `+`.
pub open spec fn unsigned_body(s: Seq<char>) -> Seq<char> {
    if s.len() > 0 && s[0] == '+' {
        s.drop_first()
    } else {
        s
    }
}

/// What `str::parse::<usize>` gives for `s`: an optional `+` followed by at
/// least one digit, and a value that fits in `usize`.
pub open spec fn parsed_usize(s: Seq<char>) -> Option<usize> {
    let body = unsigned_body(s);
    if body.len() > 0 && all_digits(body) && digits_value(body) <= usize::MAX {
        Some(digits_value(body) as usize)
    } else {
        None
    }
}

pub(crate) fn digit_of(d: usize) -> (c: char)
    requires
        d < 10,
    ensures
        c == digit_char(d as nat),
{
    if d == 0 { '0' }
    else if d == 1 { '1' }
    else if d == 2 { '2' }
    else if d == 3 { '3' }
    else if d == 4 { '4' }
    else if d == 5 { '5' }
    else if d == 6 { '6' }
    else if d == 7 { '7' }
    else if d == 8 { '8' }
    else { '9' }
}

fn value_of_digit(c: char) -> (d: usize)
    requires
        is_digit(c),
    ensures
        d == digit_value(c),
        d < 10,
{
    if c == '1' { 1 }
    else if c == '2' { 2 }
    else if c == '3' { 3 }
    else if c == '4' { 4 }
    else if c == '5' { 5 }
    else if c == '6' { 6 }
    else if c == '7' { 7 }
    else if c == '8' { 8 }
    else if c == '9' { 9 }
    else { 0 }
}

/// The decimal digits of `n`, without sign or leading zeros.
pub fn decimal_chars(n: u64) -> (v: Vec<char>)
    ensures
        v@ == decimal(n as nat),
{
    let mut digits: Vec<char> = Vec::new();
    let mut m: u64 = n;
    while m >= 10
        invariant
            decimal(n as nat) == decimal(m as nat) + digits@,
        decreases m,
    {
        let c = digit_of((m % 10) as usize);
        digits.insert(0, c);
        assert(decimal(m as nat) == decimal((m / 10) as nat).push(c));
        m = m / 10;
    }
    let c = digit_of(m as usize);
    digits.insert(0, c);
    digits
}

/// The decimal numeral of `n`, as `format!("{}", n)` writes it.
pub fn decimal_string(n: usize) -> (r: String)
    ensures
        r@ == decimal(n as nat),
{
    let digits = decimal_chars(n as u64);
    string_from_chars(&digits)
}

proof fn lemma_digits_value_prefix_mono(s: Seq<char>, i: int)
    requires
        0 <= i <= s.len(),
    ensures
        digits_value(s.take(i)) <= digits_value(s),
    decreases s.len() - i,
{
    if i < s.len() {
        lemma_digits_value_prefix_mono(s, i + 1);
        assert(s.take(i + 1).drop_last() =~= s.take(i));
    } else {
        assert(s.take(i) =~= s);
    }
}

/// Parses an unsigned decimal number as `str::parse::<usize>` does.
pub fn parse_usize(s: &str) -> (r: Option<usize>)
    ensures
        r == parsed_usize(s@),
{
    let cs = chars_of(s);
    let n = cs.len();
    let mut i: usize = 0;
    if n > 0 && cs[0] == '+' {
        i = 1;
    }
    let start = i;
    let ghost body = unsigned_body(s@);
    assert(body =~= s@.subrange(start as int, n as int));
    if start == n {
        return None;
    }
    let mut value: usize = 0;
    while i < n
        invariant
            cs@ == s@,
            n == cs.len(),
            start <= i <= n,
            start < n,
            body == s@.subrange(start as int, n as int),
            body == unsigned_body(s@),
            all_digits(body.take(i - start)),
            value == digits_value(body.take(i - start)),
        decreases n - i,
    {
        let c = cs[i];
        assert(body[i - start] == c);
        if !('0' <= c && c <= '9') {
            assert(!is_digit(body[i - start]));
            assert(!all_digits(body));
            return None;
        }
        let d = value_of_digit(c);
        let ghost pre = body.take(i - start);
        let ghost next = body.take(i + 1 - start);
        assert(next.drop_last() =~= pre);
        assert(next.last() == c);
        assert(digits_value(next) == digits_value(pre) * 10 + digit_value(c));
        assert(all_digits(next)) by {
            assert forall|j: int| 0 <= j < next.len() implies is_digit(#[trigger] next[j]) by {
                if j < next.len() - 1 {
                    assert(next[j] == pre[j]);
                }
            }
        }
        match value.checked_mul(10) {
            Some(v10) => match v10.checked_add(d) {
                Some(v) => {
                    value = v;
                }
                None => {
                    proof { lemma_digits_value_prefix_mono(body, i + 1 - start); }
                    return None;
                }
            },
            None => {
                proof { lemma_digits_value_prefix_mono(body, i + 1 - start); }
                return None;
            }
        }
        i = i + 1;
    }
    assert(body.take(n - start) =~= body);
    Some(value)
}

proof fn lemma_decimal_shape(n: nat)
    ensures
        decimal(n).len() > 0,
        all_digits(decimal(n)),
        digits_value(decimal(n)) == n,
        decimal(n)[0] != '+',
    decreases n,
{
    if n < 10 {
        let d = decimal(n);
        assert(d.drop_last() =~= Seq::<char>::empty());
        assert(digits_value(d) == digits_value(d.drop_last()) * 10 + digit_value(d.last()));
    } else {
        lemma_decimal_shape(n / 10);
        let d = decimal(n);
        assert(digits_value(d) == digits_value(d.drop_last()) * 10 + digit_value(d.last()));
        assert(n == (n / 10) * 10 + n % 10);
        assert(d.drop_last() =~= decimal(n / 10));
        assert(d[0] == decimal(n / 10)[0]);
        assert forall|i: int| 0 <= i < d.len() implies is_digit(#[trigger] d[i]) by {
            if i < d.len() - 1 {
                assert(d[i] == decimal(n / 10)[i]);
            }
        }
    }
}

/// Reading back the decimal numeral of a number gives the number.
pub proof fn lemma_parse_decimal_roundtrip(n: usize)
    ensures
        parsed_usize(decimal(n as nat)) == Some(n),
{
    lemma_decimal_shape(n as nat);
}

/// `a` sorts before `b` as `str`'s ordering sorts text: by the first
/// character in which they differ, a proper prefix first.
pub open spec fn lex_less(a: Seq<char>, b: Seq<char>) -> bool
    decreases a.len(),
{
    if a.len() == 0 {
        b.len() > 0
    } else if b.len() == 0 {
        false
    } else if a[0] != b[0] {
        a[0] < b[0]
    } else {
        lex_less(a.drop_first(), b.drop_first())
    }
}

/// No text sorts before itself.
pub proof fn lemma_lex_irreflexive(a: Seq<char>)
    ensures
        !lex_less(a, a),
    decreases a.len(),
{
    if a.len() > 0 {
        lemma_lex_irreflexive(a.drop_first());
    }
}

/// The text order is transitive.
pub proof fn lemma_lex_transitive(a: Seq<char>, b: Seq<char>, c: Seq<char>)
    requires
        lex_less(a, b),
        lex_less(b, c),
    ensures
        lex_less(a, c),
    decreases a.len(),
{
    if a.len() > 0 && b.len() > 0 && c.len() > 0 && a[0] == b[0] && b[0] == c[0] {
        lemma_lex_transitive(a.drop_first(), b.drop_first(), c.drop_first());
    }
}

/// Of two different texts, one sorts before the other.
pub proof fn lemma_lex_total(a: Seq<char>, b: Seq<char>)
    requires
        a != b,
    ensures
        lex_less(a, b) || lex_less(b, a),
    decreases a.len(),
{
    if a.len() == 0 {
        assert(b.len() > 0) by {
            if b.len() == 0 {
                assert(a =~= b);
            }
        }
    } else if b.len() > 0 && a[0] == b[0] {
        if a.drop_first() == b.drop_first() {
            assert(a =~= seq![a[0]] + a.drop_first());
            assert(b =~= seq![b[0]] + b.drop_first());
        }
        lemma_lex_total(a.drop_first(), b.drop_first());
    }
}

/// Texts sort by the first character in which they differ: after a
/// common start `p`, the text with the smaller next character sorts first,
/// whatever follows.
pub proof fn lemma_lex_first_difference(p: Seq<char>, x: char, y: char, a: Seq<char>, b: Seq<char>)
    requires
        x != y,
    ensures
        lex_less(p + seq![x] + a, p + seq![y] + b) == (x < y),
    decreases p.len(),
{
    let u = p + seq![x] + a;
    let v = p + seq![y] + b;
    if p.len() == 0 {
        assert(u[0] == x && v[0] == y);
    } else {
        assert(u[0] == p[0] && v[0] == p[0]);
        assert(u.drop_first() =~= p.drop_first() + seq![x] + a);
        assert(v.drop_first() =~= p.drop_first() + seq![y] + b);
        lemma_lex_first_difference(p.drop_first(), x, y, a, b);
    }
}

/// A proper start of a text sorts before it.
pub proof fn lemma_lex_prefix_first(p: Seq<char>, rest: Seq<char>)
    requires
        rest.len() > 0,
    ensures
        lex_less(p, p + rest),
        !lex_less(p + rest, p),
    decreases p.len(),
{
    if p.len() > 0 {
        assert((p + rest)[0] == p[0]);
        assert((p + rest).drop_first() =~= p.drop_first() + rest);
        lemma_lex_prefix_first(p.drop_first(), rest);
    }
}

/// After a common start, texts sort as what follows it.
pub proof fn lemma_lex_common_start(p: Seq<char>, a: Seq<char>, b: Seq<char>)
    ensures
        lex_less(p + a, p + b) == lex_less(a, b),
    decreases p.len(),
{
    if p.len() == 0 {
        assert(p + a =~= a);
        assert(p + b =~= b);
    } else {
        assert((p + a)[0] == p[0] && (p + b)[0] == p[0]);
        assert((p + a).drop_first() =~= p.drop_first() + a);
        assert((p + b).drop_first() =~= p.drop_first() + b);
        lemma_lex_common_start(p.drop_first(), a, b);
    }
}

/// Of two texts of one length, the one that sorts first still does with
/// anything written after each.
pub proof fn lemma_lex_same_length(s: Seq<char>, t: Seq<char>, a: Seq<char>, b: Seq<char>)
    requires
        s.len() == t.len(),
        lex_less(s, t),
    ensures
        lex_less(s + a, t + b),
    decreases s.len(),
{
    assert(s.len() > 0);
    assert((s + a)[0] == s[0] && (t + b)[0] == t[0]);
    if s[0] == t[0] {
        assert((s + a).drop_first() =~= s.drop_first() + a);
        assert((t + b).drop_first() =~= t.drop_first() + b);
        lemma_lex_same_length(s.drop_first(), t.drop_first(), a, b);
    }
}

/// Digit characters are in the order of their values.
pub proof fn lemma_digit_char_order(i: nat, j: nat)
    requires
        i < j < 10,
    ensures
        digit_char(i) < digit_char(j),
{
}

/// A digit character reads back as its value.
pub proof fn lemma_digit_roundtrip(d: nat)
    requires
        d < 10,
    ensures
        digit_value(digit_char(d)) == d,
        is_digit(digit_char(d)),
{
}

/// Whether `a` sorts before `b` as text.
pub fn text_before(a: &Vec<char>, b: &Vec<char>) -> (r: bool)
    ensures
        r == lex_less(a@, b@),
{
    let mut i: usize = 0;
    assert(a@.skip(0) =~= a@ && b@.skip(0) =~= b@);
    while i < a.len() && i < b.len() && a[i] == b[i]
        invariant
            i <= a.len(),
            i <= b.len(),
            lex_less(a@, b@) == lex_less(a@.skip(i as int), b@.skip(i as int)),
        decreases a.len() - i,
    {
        assert(a@.skip(i as int).drop_first() =~= a@.skip(i + 1));
        assert(b@.skip(i as int).drop_first() =~= b@.skip(i + 1));
        i = i + 1;
    }
    if i == a.len() {
        i < b.len()
    } else if i == b.len() {
        false
    } else {
        a[i] < b[i]
    }
}

} // verus!
