use vstd::prelude::*;
use vstd::string::*;
use crate::ansi::{printable_ascii, closes_sequences, scan, stripped, lemma_painted_strips_to_text, lemma_scan_concat, lemma_scan_plain};
use crate::table::{cells_complete, columns_aligned, line_columns, line_width, render_table, rows_fit, margins_fit, table_lines, padded_widths};
use crate::paint::{esc, is_painted, is_styled, lemma_styled_plain, paint, Colour, Tint};
use crate::text::{all_digits, char_string, decimal, decimal_string, digit_char, digits_value, is_digit, lemma_digit_roundtrip, pad_number, padded_number};
use crate::weather::{code_colour, get_weather_colour, get_weather_text, sky_label, sky_of, lemma_sky_label_plain};

verus! {

/// Padding a reading adds no escape character.
proof fn lemma_padding_plain(s: Seq<char>)
    requires
        !s.contains(esc()),
    ensures
        !padded_number(s).contains(esc()),
{
    if crate::text::needs_padding(s) {
        let p = seq![' '] + s;
        if p.contains(esc()) {
            let k = choose|k: int| 0 <= k < p.len() && p[k] == esc();
            assert(k > 0);
            assert(s[k - 1] == esc());
        }
    }
}

/// A temperature reading, padded to line up and shown in `colour`.
pub fn format_temp(plain: &str, colour: Colour) -> (r: String)
    ensures
        is_styled(r@, padded_number(plain@), Tint::Fg(colour)),
        !plain@.contains(esc()) ==> is_painted(r@, padded_number(plain@), Tint::Fg(colour)),
{
    let padded = pad_number(plain);
    let r = paint(padded.as_str(), Tint::Fg(colour));
    proof {
        if !plain@.contains(esc()) {
            lemma_padding_plain(plain@);
            lemma_styled_plain(r@, padded@, Tint::Fg(colour));
        }
    }
    r
}

/// A felt temperature: a temperature reading shown in cyan.
pub fn format_feels(plain: &str) -> (r: String)
    ensures
        is_styled(r@, padded_number(plain@), Tint::Fg(Colour::Cyan)),
        !plain@.contains(esc()) ==> is_painted(r@, padded_number(plain@), Tint::Fg(Colour::Cyan)),
{
    format_temp(plain, Colour::Cyan)
}

/// Text shown in a colour, such as the place looked up or found.
pub fn colour_text(text: &str, colour: Colour) -> (r: String)
    ensures
        is_styled(r@, text@, Tint::Fg(colour)),
        !text@.contains(esc()) ==> is_painted(r@, text@, Tint::Fg(colour)),
{
    let r = paint(text, Tint::Fg(colour));
    proof {
        if !text@.contains(esc()) {
            lemma_styled_plain(r@, text@, Tint::Fg(colour));
        }
    }
    r
}

/// The title above the daily table, bold and underlined.
pub open spec fn daily_title(name: Seq<char>, country: Seq<char>) -> Seq<char> {
    "7-Day Forecast for "@ + name + ", "@ + country
}

/// The title above the hourly table, bold and underlined.
pub open spec fn hourly_title(name: Seq<char>, country: Seq<char>, day: Seq<char>) -> Seq<char> {
    "Hourly Forecast for "@ + name + ", "@ + country + " – "@ + day
}

/// The title of the daily forecast for a place.
pub fn daily_heading(name: &str, country: &str) -> (r: String)
    ensures
        is_styled(r@, daily_title(name@, country@), Tint::Emphasis),
        !daily_title(name@, country@).contains(esc()) ==> is_painted(r@, daily_title(name@, country@), Tint::Emphasis),
{
    let mut t = String::from_str("7-Day Forecast for ");
    t.append(name);
    t.append(", ");
    t.append(country);
    let r = paint(t.as_str(), Tint::Emphasis);
    proof {
        if !t@.contains(esc()) {
            lemma_styled_plain(r@, t@, Tint::Emphasis);
        }
    }
    r
}

/// The title of the hourly forecast for a place and a day.
pub fn hourly_heading(name: &str, country: &str, day: &str) -> (r: String)
    ensures
        is_styled(r@, hourly_title(name@, country@, day@), Tint::Emphasis),
        !hourly_title(name@, country@, day@).contains(esc()) ==> is_painted(
            r@,
            hourly_title(name@, country@, day@),
            Tint::Emphasis,
        ),
{
    let mut t = String::from_str("Hourly Forecast for ");
    t.append(name);
    t.append(", ");
    t.append(country);
    t.append(" – ");
    t.append(day);
    let r = paint(t.as_str(), Tint::Emphasis);
    proof {
        if !t@.contains(esc()) {
            lemma_styled_plain(r@, t@, Tint::Emphasis);
        }
    }
    r
}

/// A wind speed, padded to line up.
pub fn format_wind(plain: &str) -> (r: String)
    ensures
        r@ == padded_number(plain@),
{
    pad_number(plain)
}

/// The text of a chance of rain, always three columns: the percentage,
/// right-aligned, for values below 100; a certain chance (or any value
/// from 100 up) is written as its three digits, the column leaving no room
/// for the sign.
pub open spec fn rain_text(percent: u8) -> Seq<char> {
    if percent < 10 {
        seq![' '] + decimal(percent as nat) + seq!['%']
    } else if percent < 100 {
        decimal(percent as nat) + seq!['%']
    } else {
        decimal(percent as nat)
    }
}

/// Any chance of rain is blue; none is dimmed.
pub open spec fn rain_tint(percent: u8) -> Tint {
    if percent > 0 {
        Tint::Fg(Colour::Blue)
    } else {
        Tint::Dim
    }
}

proof fn lemma_decimal_plain(n: nat)
    ensures
        !decimal(n).contains(esc()),
        forall|i: int| 0 <= i < decimal(n).len() ==> '0' <= #[trigger] decimal(n)[i] <= '9',
    decreases n,
{
    if n >= 10 {
        lemma_decimal_plain(n / 10);
        let d = decimal(n);
        assert forall|i: int| 0 <= i < d.len() implies '0' <= #[trigger] d[i] <= '9' by {
            if i < d.len() - 1 {
                assert(d[i] == decimal(n / 10)[i]);
            }
        }
    }
}

proof fn lemma_rain_text_plain(percent: u8)
    ensures
        !rain_text(percent).contains(esc()),
        printable_ascii(rain_text(percent)),
        rain_text(percent).len() == 3,
{
    lemma_decimal_plain(percent as nat);
    let n = percent as nat;
    let t = rain_text(percent);
    let d = decimal(n);
    if n >= 10 {
        if n >= 100 {
            assert(n / 10 >= 10 && n / 10 < 100);
            assert((n / 10) / 10 < 10);
            assert(decimal((n / 10) / 10).len() == 1);
            assert(decimal(n / 10).len() == 2);
        } else {
            assert(n / 10 < 10);
            assert(decimal(n / 10).len() == 1);
        }
    }
    assert forall|i: int| 0 <= i < t.len() implies ' ' <= #[trigger] t[i] <= '~' by {
        if percent < 10 {
            if 1 <= i < 1 + d.len() {
                assert(t[i] == d[i - 1]);
            }
        } else {
            if i < d.len() {
                assert(t[i] == d[i]);
            }
        }
    }
    if t.contains(esc()) {
        let k = choose|k: int| 0 <= k < t.len() && t[k] == esc();
        assert(' ' <= t[k]);
    }
}

/// Every chance of rain takes exactly three columns of printable ASCII
/// text, and the painted cell shows exactly that text.
pub proof fn lemma_rain_cell_width(r: Seq<char>, percent: u8)
    requires
        is_painted(r, rain_text(percent), rain_tint(percent)),
    ensures
        stripped(r) == rain_text(percent),
        stripped(r).len() == 3,
        printable_ascii(stripped(r)),
{
    lemma_rain_text_plain(percent);
    lemma_painted_strips_to_text(r, rain_text(percent), rain_tint(percent));
}

/// A chance of rain, three columns wide, blue when above zero and dimmed
/// otherwise.
pub fn format_rain(percent: u8) -> (r: String)
    ensures
        is_painted(r@, rain_text(percent), rain_tint(percent)),
{
    let digits = decimal_string(percent as usize);
    let mut plain = if percent < 10 {
        char_string(' ')
    } else {
        String::new()
    };
    plain.append(digits.as_str());
    if percent < 100 {
        let pct = char_string('%');
        plain.append(pct.as_str());
    }
    assert(plain@ =~= rain_text(percent));
    proof {
        lemma_rain_text_plain(percent);
    }
    let tint = if percent > 0 {
        Tint::Fg(Colour::Blue)
    } else {
        Tint::Dim
    };
    let r = paint(plain.as_str(), tint);
    proof {
        lemma_styled_plain(r@, plain@, tint);
    }
    r
}

/// A weather code described in words and shown in the code's colour.
pub fn format_weather(code: u8) -> (r: String)
    ensures
        is_painted(r@, sky_label(sky_of(code)), Tint::Fg(code_colour(code))),
{
    let text = get_weather_text(code);
    let colour = get_weather_colour(code);
    proof {
        lemma_sky_label_plain(sky_of(code));
    }
    let r = paint(text, Tint::Fg(colour));
    proof {
        lemma_styled_plain(r@, text@, Tint::Fg(colour));
    }
    r
}

/// The hour of the day in two digits, as chrono's `%H` writes it.
pub open spec fn hour_text(hour: u32) -> Seq<char> {
    seq![digit_char((hour / 10) as nat), digit_char((hour % 10) as nat)]
}

/// The hour of the day in two digits.
pub fn hour_label(hour: u32) -> (r: String)
    requires
        hour < 24,
    ensures
        r@ == hour_text(hour),
{
    let tens = decimal_string((hour / 10) as usize);
    let ones = decimal_string((hour % 10) as usize);
    let mut r = String::new();
    r.append(tens.as_str());
    r.append(ones.as_str());
    assert(decimal((hour / 10) as nat) == seq![digit_char((hour / 10) as nat)]);
    assert(decimal((hour % 10) as nat) == seq![digit_char((hour % 10) as nat)]);
    assert(r@ =~= hour_text(hour));
    r
}


/// An hour label is two digits that read back as the hour: the tens of the
/// hour, then its units.
pub proof fn lemma_hour_text_reads_back(hour: u32)
    requires
        hour < 24,
    ensures
        hour_text(hour).len() == 2,
        all_digits(hour_text(hour)),
        digits_value(hour_text(hour)) == hour,
{
    let t = hour_text(hour);
    let (tens, ones) = ((hour / 10) as nat, (hour % 10) as nat);
    lemma_digit_roundtrip(tens);
    lemma_digit_roundtrip(ones);
    assert(t.drop_last() =~= seq![digit_char(tens)]);
    let u = t.drop_last();
    assert(u.drop_last() =~= Seq::<char>::empty());
    assert(digits_value(u.drop_last()) == 0);
    assert(u.last() == digit_char(tens));
    assert(digits_value(u) == tens);
    assert(t.last() == digit_char(ones));
    assert(forall|i: int| 0 <= i < t.len() ==> is_digit(#[trigger] t[i]));
}

/// The number of blocks a bar fills for a scaled temperature: at most all
/// nine.
pub open spec fn bar_fill(scaled: usize) -> nat {
    if scaled > 9 {
        9
    } else {
        scaled as nat
    }
}

/// Block `i` of a bar with `filled` blocks filled.
pub open spec fn block_char(i: int, filled: nat) -> char {
    if i < filled {
        '▰'
    } else {
        '▱'
    }
}

/// Filled blocks go green, yellow, then red in threes; empty blocks are
/// dimmed white.
pub open spec fn block_tint(i: int, filled: nat) -> Tint {
    if i < filled {
        if i < 3 {
            Tint::Fg(Colour::Green)
        } else if i < 6 {
            Tint::Fg(Colour::Yellow)
        } else {
            Tint::Fg(Colour::Red)
        }
    } else {
        Tint::FgDim(Colour::White)
    }
}

/// The pieces one after another.
pub open spec fn concat(pieces: Seq<Seq<char>>) -> Seq<char>
    decreases pieces.len(),
{
    if pieces.len() == 0 {
        Seq::empty()
    } else {
        concat(pieces.drop_last()) + pieces.last()
    }
}

/// `pieces` are the first `n` painted blocks of a bar with `filled` blocks
/// filled.
pub open spec fn bar_pieces(pieces: Seq<Seq<char>>, n: nat, filled: nat) -> bool {
    &&& pieces.len() == n
    &&& forall|i: int| 0 <= i < n ==> is_painted(#[trigger] pieces[i], seq![block_char(i, filled)], block_tint(i, filled))
}

/// `r` is a temperature bar of nine blocks with `filled` of them filled,
/// each block painted in its tint.
pub open spec fn is_temp_bar(r: Seq<char>, filled: nat) -> bool {
    exists|pieces: Seq<Seq<char>>| bar_pieces(pieces, 9, filled) && r == concat(pieces)
}

/// The bar for a day without a temperature range: nine filled blocks,
/// unpainted.
pub open spec fn flat_bar() -> Seq<char> {
    Seq::new(9, |i: int| '▰')
}

/// A nine-block temperature bar. `scaled` is the temperature's position in
/// the day's range scaled to nine and rounded, or `None` when the range is
/// empty; positions beyond nine fill the whole bar.
pub fn draw_temp_bar_compact(scaled: Option<usize>) -> (r: String)
    ensures
        scaled is None ==> r@ == flat_bar(),
        scaled matches Some(s) ==> is_temp_bar(r@, bar_fill(s)),
{
    match scaled {
        None => {
            let mut v: Vec<char> = Vec::new();
            let mut i: usize = 0;
            while i < 9
                invariant
                    i <= 9,
                    v@ == Seq::new(i as nat, |j: int| '▰'),
                decreases 9 - i,
            {
                v.push('▰');
                i = i + 1;
                assert(v@ =~= Seq::new(i as nat, |j: int| '▰'));
            }
            crate::text::string_from_chars(&v)
        },
        Some(s) => {
            let filled: usize = if s > 9 { 9 } else { s };
            let mut result = String::new();
            let ghost mut pieces: Seq<Seq<char>> = Seq::empty();
            let mut i: usize = 0;
            while i < 9
                invariant
                    i <= 9,
                    filled == bar_fill(s),
                    bar_pieces(pieces, i as nat, filled as nat),
                    result@ == concat(pieces),
                decreases 9 - i,
            {
                let block = if i < filled { char_string('▰') } else { char_string('▱') };
                let tint = if i < filled {
                    if i < 3 {
                        Tint::Fg(Colour::Green)
                    } else if i < 6 {
                        Tint::Fg(Colour::Yellow)
                    } else {
                        Tint::Fg(Colour::Red)
                    }
                } else {
                    Tint::FgDim(Colour::White)
                };
                assert(block@ == seq![block_char(i as int, filled as nat)]);
                assert(tint == block_tint(i as int, filled as nat));
                let piece = paint(block.as_str(), tint);
                result.append(piece.as_str());
                proof {
                    assert(!block@.contains(esc())) by {
                        assert(block@.len() == 1 && block@[0] != esc());
                    }
                    lemma_styled_plain(piece@, block@, tint);
                    let old_pieces = pieces;
                    pieces = pieces.push(piece@);
                    assert(pieces.drop_last() =~= old_pieces);
                    assert forall|j: int| 0 <= j < i + 1 implies is_painted(
                        #[trigger] pieces[j],
                        seq![block_char(j, filled as nat)],
                        block_tint(j, filled as nat),
                    ) by {
                        if j < i {
                            assert(pieces[j] == old_pieces[j]);
                        }
                    }
                }
                i = i + 1;
            }
            result
        },
    }
}


/// The blocks a bar shows once its colours are removed.
pub open spec fn plain_bar(filled: nat) -> Seq<char> {
    Seq::new(9, |i: int| block_char(i, filled))
}

proof fn lemma_bar_prefix_scan(pieces: Seq<Seq<char>>, n: nat, filled: nat)
    requires
        n <= pieces.len(),
        forall|i: int| 0 <= i < pieces.len() ==> is_painted(#[trigger] pieces[i], seq![block_char(i, filled)], block_tint(i, filled)),
    ensures
        scan(concat(pieces.take(n as int)), false) == (Seq::new(n, |i: int| block_char(i, filled)), false),
    decreases n,
{
    if n == 0 {
        assert(pieces.take(0) =~= Seq::<Seq<char>>::empty());
        assert(Seq::new(0, |i: int| block_char(i, filled)) =~= Seq::<char>::empty());
    } else {
        let k = (n - 1) as nat;
        lemma_bar_prefix_scan(pieces, k, filled);
        let front = pieces.take(k as int);
        assert(pieces.take(n as int).drop_last() =~= front);
        let piece = pieces[k as int];
        assert(pieces.take(n as int).last() == piece);
        let text = seq![block_char(k as int, filled)];
        assert(!text.contains(esc())) by {
            if text.contains(esc()) {
                let j = choose|j: int| 0 <= j < text.len() && text[j] == esc();
                assert(text[j] == block_char(k as int, filled));
            }
        }
        lemma_painted_strips_to_text(piece, text, block_tint(k as int, filled));
        lemma_scan_concat(concat(front), piece, false);
        assert(Seq::new(k, |i: int| block_char(i, filled)) + text =~= Seq::new(n, |i: int| block_char(i, filled)));
    }
}

/// The number of filled blocks in a bar.
pub open spec fn filled_count(bar: Seq<char>) -> nat
    decreases bar.len(),
{
    if bar.len() == 0 {
        0
    } else {
        filled_count(bar.drop_last()) + if bar.last() == '▰' { 1nat } else { 0nat }
    }
}

proof fn lemma_plain_bar_count(filled: nat, n: nat)
    requires
        filled <= 9,
        n <= 9,
    ensures
        filled_count(Seq::new(n, |i: int| block_char(i, filled))) == if n < filled { n } else { filled },
    decreases n,
{
    if n > 0 {
        let s = Seq::new(n, |i: int| block_char(i, filled));
        assert(s.drop_last() =~= Seq::new((n - 1) as nat, |i: int| block_char(i, filled)));
        lemma_plain_bar_count(filled, (n - 1) as nat);
    }
}

/// A bar shows as many filled blocks as its scaled position, at most
/// nine; so a higher position never shows fewer filled blocks.
pub proof fn lemma_bar_fill_monotone(a: usize, b: usize)
    requires
        a <= b,
    ensures
        filled_count(plain_bar(bar_fill(a))) == bar_fill(a),
        filled_count(plain_bar(bar_fill(b))) == bar_fill(b),
        filled_count(plain_bar(bar_fill(a))) <= filled_count(plain_bar(bar_fill(b))),
{
    lemma_plain_bar_count(bar_fill(a), 9);
    lemma_plain_bar_count(bar_fill(b), 9);
}

/// A temperature bar closes every control sequence it opens.
proof fn lemma_bar_closes(r: Seq<char>, filled: nat)
    requires
        is_temp_bar(r, filled),
    ensures
        closes_sequences(r),
{
    let pieces = choose|pieces: Seq<Seq<char>>| bar_pieces(pieces, 9, filled) && r == concat(pieces);
    lemma_bar_prefix_scan(pieces, 9, filled);
    assert(pieces.take(9) =~= pieces);
}

proof fn lemma_flat_bar_plain()
    ensures
        !flat_bar().contains(esc()),
{
    if flat_bar().contains(esc()) {
        let k = choose|k: int| 0 <= k < flat_bar().len() && flat_bar()[k] == esc();
        assert(flat_bar()[k] == '▰');
    }
}

proof fn lemma_plain_closes(t: Seq<char>)
    requires
        !t.contains(esc()),
    ensures
        closes_sequences(t),
{
    lemma_scan_plain(t);
}

proof fn lemma_painted_closes(r: Seq<char>, text: Seq<char>, t: Tint)
    requires
        is_painted(r, text, t),
        !text.contains(esc()),
    ensures
        closes_sequences(r),
{
    lemma_painted_strips_to_text(r, text, t);
}

proof fn lemma_temp_cell_closes(cell: Seq<char>, temp: Seq<char>, scaled: Option<usize>)
    requires
        is_temp_cell(cell, temp, scaled),
        !temp.contains(esc()),
    ensures
        closes_sequences(cell),
{
    let bar = choose|bar: Seq<char>| #![trigger cell_with_bar(temp, bar)]
        cell == cell_with_bar(temp, bar)
        && (scaled is None ==> bar == flat_bar())
        && (scaled matches Some(s) ==> is_temp_bar(bar, bar_fill(s)));
    lemma_padding_plain(temp);
    let head = padded_number(temp) + seq![' '];
    assert(!head.contains(esc())) by {
        if head.contains(esc()) {
            let k = choose|k: int| 0 <= k < head.len() && head[k] == esc();
            if k < padded_number(temp).len() {
                assert(padded_number(temp)[k] == esc());
            }
        }
    }
    lemma_scan_plain(head);
    match scaled {
        None => {
            lemma_flat_bar_plain();
            lemma_scan_plain(bar);
        },
        Some(s) => {
            lemma_bar_closes(bar, bar_fill(s));
        },
    }
    lemma_scan_concat(head, bar, false);
}

/// Every cell of an hourly row closes the control sequences it opens, so in
/// the hourly table each cell takes exactly its column's width.
pub proof fn lemma_hourly_row_closes(
    row: Seq<Seq<char>>,
    hour: u32,
    code: u8,
    temp: Seq<char>,
    scaled: Option<usize>,
    feel: Seq<char>,
    rain: u8,
    wind: Seq<char>,
)
    requires
        is_hourly_row(row, hour, code, temp, scaled, feel, rain, wind),
        !temp.contains(esc()),
        !feel.contains(esc()),
        !wind.contains(esc()),
    ensures
        forall|i: int| 0 <= i < row.len() ==> closes_sequences(#[trigger] row[i]),
{
    assert(!hour_text(hour).contains(esc())) by {
        if hour_text(hour).contains(esc()) {
            let k = choose|k: int| 0 <= k < 2 && hour_text(hour)[k] == esc();
            assert(hour_text(hour)[k] == digit_char((hour / 10) as nat) || hour_text(hour)[k] == digit_char((hour % 10) as nat));
        }
    }
    lemma_plain_closes(hour_text(hour));
    crate::weather::lemma_sky_label_plain(sky_of(code));
    lemma_painted_closes(row[1], sky_label(sky_of(code)), Tint::Fg(code_colour(code)));
    lemma_temp_cell_closes(row[2], temp, scaled);
    lemma_padding_plain(feel);
    lemma_painted_closes(row[3], padded_number(feel), Tint::Fg(Colour::Cyan));
    lemma_rain_text_plain(rain);
    lemma_painted_closes(row[4], rain_text(rain), rain_tint(rain));
    lemma_padding_plain(wind);
    lemma_plain_closes(padded_number(wind));
}

/// Every cell of a daily row closes the control sequences it opens, so in
/// the daily table each cell takes exactly its column's width.
pub proof fn lemma_daily_row_closes(
    row: Seq<Seq<char>>,
    date: Seq<char>,
    code: u8,
    min: Seq<char>,
    max: Seq<char>,
    feel: Seq<char>,
    rain: Option<u8>,
)
    requires
        is_daily_row(row, date, code, min, max, feel, rain),
        !date.contains(esc()),
        !min.contains(esc()),
        !max.contains(esc()),
        !feel.contains(esc()),
    ensures
        forall|i: int| 0 <= i < row.len() ==> closes_sequences(#[trigger] row[i]),
{
    let c: u8 = match rain {
        Some(p) => p,
        None => 0,
    };
    lemma_plain_closes(date);
    crate::weather::lemma_sky_label_plain(sky_of(code));
    lemma_painted_closes(row[1], sky_label(sky_of(code)), Tint::Fg(code_colour(code)));
    lemma_padding_plain(min);
    lemma_painted_closes(row[2], padded_number(min), Tint::Fg(Colour::Green));
    lemma_padding_plain(max);
    lemma_painted_closes(row[3], padded_number(max), Tint::Fg(Colour::Red));
    lemma_padding_plain(feel);
    lemma_painted_closes(row[4], padded_number(feel), Tint::Fg(Colour::Cyan));
    lemma_rain_text_plain(c);
    lemma_painted_closes(row[5], rain_text(c), rain_tint(c));
}

/// A temperature bar shows, once its colours are removed, nine blocks of
/// which exactly the first `filled` are filled.
pub proof fn lemma_bar_shows_fill(r: Seq<char>, filled: nat)
    requires
        is_temp_bar(r, filled),
    ensures
        stripped(r) == plain_bar(filled),
{
    let pieces = choose|pieces: Seq<Seq<char>>| bar_pieces(pieces, 9, filled) && r == concat(pieces);
    lemma_bar_prefix_scan(pieces, 9, filled);
    assert(pieces.take(9) =~= pieces);
}


/// A padded reading, a space, then the bar.
pub open spec fn cell_with_bar(temp: Seq<char>, bar: Seq<char>) -> Seq<char> {
    padded_number(temp) + seq![' '] + bar
}

/// `cell` shows a temperature reading, padded to line up, then a space and
/// its bar.
pub open spec fn is_temp_cell(cell: Seq<char>, temp: Seq<char>, scaled: Option<usize>) -> bool {
    exists|bar: Seq<char>| #![trigger cell_with_bar(temp, bar)]
        cell == cell_with_bar(temp, bar)
        && (scaled is None ==> bar == flat_bar())
        && (scaled matches Some(s) ==> is_temp_bar(bar, bar_fill(s)))
}

/// The temperature column of the hourly table: the reading, unpainted and
/// padded, then its bar.
pub fn temperature_cell(temp_plain: &str, scaled: Option<usize>) -> (r: String)
    ensures
        is_temp_cell(r@, temp_plain@, scaled),
{
    let mut cell = pad_number(temp_plain);
    let space = char_string(' ');
    cell.append(space.as_str());
    let bar = draw_temp_bar_compact(scaled);
    cell.append(bar.as_str());
    assert(cell@ =~= padded_number(temp_plain@) + seq![' '] + bar@);
    proof {
        lemma_temp_cell_witness(cell@, bar@, temp_plain@, scaled);
    }
    cell
}

proof fn lemma_temp_cell_witness(cell: Seq<char>, bar: Seq<char>, temp: Seq<char>, scaled: Option<usize>)
    requires
        cell == padded_number(temp) + seq![' '] + bar,
        scaled is None ==> bar == flat_bar(),
        scaled matches Some(s) ==> is_temp_bar(bar, bar_fill(s)),
    ensures
        is_temp_cell(cell, temp, scaled),
{
    assert(cell == cell_with_bar(temp, bar));
}


/// The cells of one row of the hourly table: hour, weather, temperature
/// with its bar, felt temperature, chance of rain and wind.
pub open spec fn is_hourly_row(
    row: Seq<Seq<char>>,
    hour: u32,
    code: u8,
    temp: Seq<char>,
    scaled: Option<usize>,
    feel: Seq<char>,
    rain: u8,
    wind: Seq<char>,
) -> bool {
    &&& row.len() == 6
    &&& row[0] == hour_text(hour)
    &&& is_painted(row[1], sky_label(sky_of(code)), Tint::Fg(code_colour(code)))
    &&& is_temp_cell(row[2], temp, scaled)
    &&& (!feel.contains(esc()) ==> is_painted(row[3], padded_number(feel), Tint::Fg(Colour::Cyan)))
    &&& is_painted(row[4], rain_text(rain), rain_tint(rain))
    &&& row[5] == padded_number(wind)
}

/// One row of the hourly table. The readings arrive as the text of the
/// rounded numbers with their units; `scaled` places the temperature on
/// the day's bar.
pub fn hourly_row(
    hour: u32,
    code: u8,
    temp_plain: &str,
    scaled: Option<usize>,
    feel_plain: &str,
    rain: u8,
    wind_plain: &str,
) -> (row: Vec<String>)
    requires
        hour < 24,
    ensures
        is_hourly_row(row.deep_view(), hour, code, temp_plain@, scaled, feel_plain@, rain, wind_plain@),
{
    let mut row: Vec<String> = Vec::new();
    row.push(hour_label(hour));
    row.push(format_weather(code));
    row.push(temperature_cell(temp_plain, scaled));
    row.push(format_feels(feel_plain));
    row.push(format_rain(rain));
    row.push(format_wind(wind_plain));
    row
}

/// The cells of one row of the daily table: date, weather, lowest and
/// highest temperature, highest felt temperature and chance of rain (none
/// reported counts as zero).
pub open spec fn is_daily_row(
    row: Seq<Seq<char>>,
    date: Seq<char>,
    code: u8,
    min: Seq<char>,
    max: Seq<char>,
    feel: Seq<char>,
    rain: Option<u8>,
) -> bool {
    let chance: u8 = match rain {
        Some(p) => p,
        None => 0,
    };
    &&& row.len() == 6
    &&& row[0] == date
    &&& is_painted(row[1], sky_label(sky_of(code)), Tint::Fg(code_colour(code)))
    &&& (!min.contains(esc()) ==> is_painted(row[2], padded_number(min), Tint::Fg(Colour::Green)))
    &&& (!max.contains(esc()) ==> is_painted(row[3], padded_number(max), Tint::Fg(Colour::Red)))
    &&& (!feel.contains(esc()) ==> is_painted(row[4], padded_number(feel), Tint::Fg(Colour::Cyan)))
    &&& is_painted(row[5], rain_text(chance), rain_tint(chance))
}

/// One row of the daily table.
pub fn daily_row(
    date_label: &str,
    code: u8,
    min_plain: &str,
    max_plain: &str,
    feel_plain: &str,
    rain: Option<u8>,
) -> (row: Vec<String>)
    ensures
        is_daily_row(row.deep_view(), date_label@, code, min_plain@, max_plain@, feel_plain@, rain),
{
    let chance: u8 = match rain {
        Some(p) => p,
        None => 0,
    };
    let mut row: Vec<String> = Vec::new();
    row.push(String::from_str(date_label));
    row.push(format_weather(code));
    row.push(format_temp(min_plain, Colour::Green));
    row.push(format_temp(max_plain, Colour::Red));
    row.push(format_feels(feel_plain));
    row.push(format_rain(chance));
    row
}

/// The headers of the hourly table.
pub open spec fn hourly_headers() -> Seq<Seq<char>> {
    seq!["Hr"@, "Weather"@, "Temperature"@, "Feel"@, "Rain"@, "Wind"@]
}

/// The headers of the daily table.
pub open spec fn daily_headers() -> Seq<Seq<char>> {
    seq!["Date"@, "Weather"@, "Min"@, "Max"@, "Feel"@, "Rain"@]
}

/// Rows with a cell for each of the six columns, every cell closing the
/// control sequences it opens (as the rows of `hourly_row` and `daily_row`
/// do).
pub open spec fn rows_complete(rows: Seq<Seq<Seq<char>>>) -> bool {
    &&& forall|k: int| 0 <= k < rows.len() ==> (#[trigger] rows[k]).len() == 6
    &&& forall|k: int, i: int| 0 <= k < rows.len() && 0 <= i < rows[k].len() ==> closes_sequences(#[trigger] rows[k][i])
}

proof fn lemma_headers_complete(headers: Seq<Seq<char>>, rows: Seq<Seq<Seq<char>>>)
    requires
        headers.len() == 6,
        forall|i: int| 0 <= i < 6 ==> printable_ascii(#[trigger] headers[i]),
        rows_complete(rows),
    ensures
        cells_complete(headers, rows),
{
    assert forall|i: int| 0 <= i < headers.len() implies closes_sequences(#[trigger] headers[i]) by {
        assert(printable_ascii(headers[i]));
        assert(!headers[i].contains(esc())) by {
            if headers[i].contains(esc()) {
                let k = choose|k: int| 0 <= k < headers[i].len() && headers[i][k] == esc();
                assert(' ' <= headers[i][k]);
            }
        }
        lemma_plain_closes(headers[i]);
    }
}

proof fn lemma_hourly_headers_printable()
    ensures
        forall|i: int| 0 <= i < 6 ==> printable_ascii(#[trigger] hourly_headers()[i]),
{
    reveal_strlit("Hr");
    reveal_strlit("Weather");
    reveal_strlit("Temperature");
    reveal_strlit("Feel");
    reveal_strlit("Rain");
    reveal_strlit("Wind");
}

proof fn lemma_daily_headers_printable()
    ensures
        forall|i: int| 0 <= i < 6 ==> printable_ascii(#[trigger] daily_headers()[i]),
{
    reveal_strlit("Date");
    reveal_strlit("Weather");
    reveal_strlit("Min");
    reveal_strlit("Max");
    reveal_strlit("Feel");
    reveal_strlit("Rain");
}

fn headers_of(names: [&str; 6]) -> (h: Vec<String>)
    ensures
        h.len() == 6,
        forall|i: int| 0 <= i < 6 ==> #[trigger] h@[i]@ == names@[i]@,
{
    let mut h: Vec<String> = Vec::new();
    let mut i: usize = 0;
    while i < 6
        invariant
            i <= 6,
            h.len() == i,
            forall|j: int| 0 <= j < i ==> #[trigger] h@[j]@ == names@[j]@,
        decreases 6 - i,
    {
        h.push(String::from_str(names[i]));
        i = i + 1;
    }
    h
}

/// The hourly forecast laid out as a boxed table, one line per entry;
/// `None` where a column would be wider than `usize` can count.
pub fn hourly_table_lines(rows: &Vec<Vec<String>>) -> (r: Option<Vec<String>>)
    requires
        rows_fit(hourly_headers(), rows.deep_view()),
    ensures
        rows.len() == 0 ==> (r matches Some(lines) && lines.len() == 0),
        rows.len() > 0 ==> (r is Some <==> margins_fit(hourly_headers(), rows.deep_view())),
        r matches Some(lines) ==> lines.deep_view() == table_lines(
            hourly_headers(),
            rows.deep_view(),
            padded_widths(hourly_headers(), rows.deep_view()),
        ),
        r is Some && rows.len() > 0 ==> columns_aligned(hourly_headers(), rows.deep_view()),
        r matches Some(lines) ==> (rows.len() > 0 && rows_complete(rows.deep_view())
            && line_width(padded_widths(hourly_headers(), rows.deep_view())) <= usize::MAX
            ==> forall|j: int| 0 <= j < lines.len() ==> line_columns(#[trigger] lines.deep_view()[j], j)
                == line_width(padded_widths(hourly_headers(), rows.deep_view()))),
{
    let names = ["Hr", "Weather", "Temperature", "Feel", "Rain", "Wind"];
    let headers = headers_of(names);
    assert(headers.deep_view() =~= hourly_headers());
    proof {
        if rows_complete(rows.deep_view()) {
            lemma_hourly_headers_printable();
            lemma_headers_complete(hourly_headers(), rows.deep_view());
        }
    }
    render_table(&headers, rows)
}

/// The daily forecast laid out as a boxed table, one line per entry;
/// `None` where a column would be wider than `usize` can count.
pub fn daily_table_lines(rows: &Vec<Vec<String>>) -> (r: Option<Vec<String>>)
    requires
        rows_fit(daily_headers(), rows.deep_view()),
    ensures
        rows.len() == 0 ==> (r matches Some(lines) && lines.len() == 0),
        rows.len() > 0 ==> (r is Some <==> margins_fit(daily_headers(), rows.deep_view())),
        r matches Some(lines) ==> lines.deep_view() == table_lines(
            daily_headers(),
            rows.deep_view(),
            padded_widths(daily_headers(), rows.deep_view()),
        ),
        r is Some && rows.len() > 0 ==> columns_aligned(daily_headers(), rows.deep_view()),
        r matches Some(lines) ==> (rows.len() > 0 && rows_complete(rows.deep_view())
            && line_width(padded_widths(daily_headers(), rows.deep_view())) <= usize::MAX
            ==> forall|j: int| 0 <= j < lines.len() ==> line_columns(#[trigger] lines.deep_view()[j], j)
                == line_width(padded_widths(daily_headers(), rows.deep_view()))),
{
    let names = ["Date", "Weather", "Min", "Max", "Feel", "Rain"];
    let headers = headers_of(names);
    assert(headers.deep_view() =~= daily_headers());
    proof {
        if rows_complete(rows.deep_view()) {
            lemma_daily_headers_printable();
            lemma_headers_complete(daily_headers(), rows.deep_view());
        }
    }
    render_table(&headers, rows)
}

} // verus!
