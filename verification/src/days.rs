use vstd::prelude::*;
use std::collections::HashMap;
use vstd::std_specs::iter::IteratorSpec;
use crate::clock::{four_digits, lemma_four_digits_order, lemma_two_digits_order, two_digits, key_chars, key_text, near_moment, parse_time_to_local, time_moment, time_parses, time_readable};
use crate::text::{lemma_lex_common_start, lemma_lex_irreflexive, lemma_lex_same_length, lemma_lex_total, lemma_lex_transitive, lex_less, text_before};

verus! {

broadcast use vstd::std_specs::hash::group_hash_axioms;

/// A moment in the viewer's local time, to the hour.
#[derive(Clone, Copy, Debug, PartialEq, Eq, Structural)]
pub struct LocalStamp {
    pub year: i32,
    pub month: u32,
    pub day: u32,
    pub hour: u32,
}

/// A calendar day as one number, `yyyymmdd`: days compare as the calendar
/// orders them.
pub open spec fn day_key(st: LocalStamp) -> i64 {
    (st.year * 10000 + st.month * 100 + st.day) as i64
}

/// The day key of a moment.
pub fn stamp_day_key(st: &LocalStamp) -> (k: i64)
    ensures
        k == day_key(*st),
{
    st.year as i64 * 10000 + st.month as i64 * 100 + st.day as i64
}

/// The hourly readings of one day: for each reading, its hour, weather
/// code, chance of rain (none reported counts as zero) and its position in
/// the hourly series, where the temperatures and wind are found.
pub struct DayGroup {
    pub hours: Vec<u32>,
    pub codes: Vec<u8>,
    pub rain: Vec<u8>,
    pub indices: Vec<usize>,
}

/// The positions below `n` whose moment falls on day `k`, in order.
pub open spec fn positions_on(stamps: Seq<LocalStamp>, k: i64, n: nat) -> Seq<usize>
    decreases n,
{
    if n == 0 {
        Seq::empty()
    } else {
        let before = positions_on(stamps, k, (n - 1) as nat);
        if day_key(stamps[n - 1]) == k {
            before.push((n - 1) as usize)
        } else {
            before
        }
    }
}

/// Some moment among the first `n` falls on day `k`.
pub open spec fn has_day(stamps: Seq<LocalStamp>, k: i64, n: nat) -> bool {
    exists|i: int| 0 <= i < n && day_key(#[trigger] stamps[i]) == k
}

/// A reported chance of rain, none counting as zero.
pub open spec fn chance(p: Option<u8>) -> u8 {
    match p {
        Some(v) => v,
        None => 0,
    }
}

/// `g` holds, in order, the readings at positions `idx`.
pub open spec fn group_holds(
    g: DayGroup,
    idx: Seq<usize>,
    stamps: Seq<LocalStamp>,
    codes: Seq<u8>,
    precip: Seq<Option<u8>>,
) -> bool {
    &&& g.indices@ == idx
    &&& g.hours@ == idx.map_values(|i: usize| stamps[i as int].hour)
    &&& g.codes@ == idx.map_values(|i: usize| codes[i as int])
    &&& g.rain@ == idx.map_values(|i: usize| chance(precip[i as int]))
}

/// `m` groups the first `n` readings by day: one entry per day that occurs,
/// holding that day's readings in their original order.
pub open spec fn groups_readings(
    m: Map<i64, DayGroup>,
    stamps: Seq<LocalStamp>,
    codes: Seq<u8>,
    precip: Seq<Option<u8>>,
    n: nat,
) -> bool {
    &&& forall|k: i64| #[trigger] m.contains_key(k) <==> has_day(stamps, k, n)
    &&& forall|k: i64| #[trigger] m.contains_key(k) ==> group_holds(
        m[k],
        positions_on(stamps, k, n),
        stamps,
        codes,
        precip,
    )
}

proof fn lemma_positions_absent(stamps: Seq<LocalStamp>, k: i64, n: nat)
    requires
        !has_day(stamps, k, n),
    ensures
        positions_on(stamps, k, n) == Seq::<usize>::empty(),
    decreases n,
{
    if n > 0 {
        assert(day_key(stamps[n - 1]) != k);
        assert(!has_day(stamps, k, (n - 1) as nat));
        lemma_positions_absent(stamps, k, (n - 1) as nat);
    }
}

/// Groups readings by the day of their moment.
pub fn group_stamps_by_day(
    stamps: &Vec<LocalStamp>,
    codes: &Vec<u8>,
    precip: &Vec<Option<u8>>,
) -> (m: HashMap<i64, DayGroup>)
    requires
        codes.len() >= stamps.len(),
        precip.len() >= stamps.len(),
    ensures
        groups_readings(m@, stamps@, codes@, precip@, stamps.len() as nat),
{
    let mut m: HashMap<i64, DayGroup> = HashMap::new();
    let n = stamps.len();
    let mut i: usize = 0;
    while i < n
        invariant
            n == stamps.len(),
            codes.len() >= n,
            precip.len() >= n,
            i <= n,
            groups_readings(m@, stamps@, codes@, precip@, i as nat),
        decreases n - i,
    {
        let st = stamps[i];
        let key = stamp_day_key(&st);
        let ghost old_m = m@;
        let found = m.remove(&key);
        let mut g = match found {
            Some(g) => g,
            None => DayGroup { hours: Vec::new(), codes: Vec::new(), rain: Vec::new(), indices: Vec::new() },
        };
        let ghost before = positions_on(stamps@, key, i as nat);
        proof {
            if !old_m.contains_key(key) {
                lemma_positions_absent(stamps@, key, i as nat);
                assert(g.indices@ =~= before);
                assert(g.hours@ =~= before.map_values(|j: usize| stamps@[j as int].hour));
                assert(g.codes@ =~= before.map_values(|j: usize| codes@[j as int]));
                assert(g.rain@ =~= before.map_values(|j: usize| chance(precip@[j as int])));
            }
            assert(group_holds(g, before, stamps@, codes@, precip@));
        }
        let c = match precip[i] {
            Some(v) => v,
            None => 0,
        };
        g.hours.push(st.hour);
        g.codes.push(codes[i]);
        g.rain.push(c);
        g.indices.push(i);
        let ghost after = positions_on(stamps@, key, (i + 1) as nat);
        assert(after == before.push(i));
        assert(g.hours@ =~= after.map_values(|j: usize| stamps@[j as int].hour));
        assert(g.codes@ =~= after.map_values(|j: usize| codes@[j as int]));
        assert(g.rain@ =~= after.map_values(|j: usize| chance(precip@[j as int])));
        m.insert(key, g);
        proof {
            assert forall|k: i64| #[trigger] m@.contains_key(k) <==> has_day(stamps@, k, (i + 1) as nat) by {
                if k != key {
                    if has_day(stamps@, k, (i + 1) as nat) {
                        let w = choose|w: int| 0 <= w < i + 1 && day_key(#[trigger] stamps@[w]) == k;
                        assert(w < i);
                        assert(has_day(stamps@, k, i as nat));
                    }
                    if has_day(stamps@, k, i as nat) {
                        let w = choose|w: int| 0 <= w < i && day_key(#[trigger] stamps@[w]) == k;
                        assert(has_day(stamps@, k, (i + 1) as nat));
                    }
                } else {
                    assert(day_key(stamps@[i as int]) == k);
                }
            }
            assert forall|k: i64| #[trigger] m@.contains_key(k) implies group_holds(
                m@[k],
                positions_on(stamps@, k, (i + 1) as nat),
                stamps@,
                codes@,
                precip@,
            ) by {
                if k != key {
                    assert(old_m.contains_key(k));
                    assert(positions_on(stamps@, k, (i + 1) as nat) == positions_on(stamps@, k, i as nat));
                }
            }
        }
        i = i + 1;
    }
    m
}


/// Day `a` is listed before day `b`: the days are listed as their texts
/// (`%Y-%m-%d`, as the forecast service writes them) sort, and two days with
/// one text by number.
pub open spec fn key_before(a: i64, b: i64) -> bool {
    lex_less(key_text(a), key_text(b)) || (key_text(a) == key_text(b) && a < b)
}

/// No day is listed before itself.
pub proof fn lemma_key_before_irreflexive(a: i64)
    ensures
        !key_before(a, a),
{
    lemma_lex_irreflexive(key_text(a));
}

/// The listing order is transitive.
pub proof fn lemma_key_before_transitive(a: i64, b: i64, c: i64)
    requires
        key_before(a, b),
        key_before(b, c),
    ensures
        key_before(a, c),
{
    if lex_less(key_text(a), key_text(b)) && lex_less(key_text(b), key_text(c)) {
        lemma_lex_transitive(key_text(a), key_text(b), key_text(c));
    }
}

/// Of two different days, one is listed before the other.
pub proof fn lemma_key_before_total(a: i64, b: i64)
    requires
        a != b,
    ensures
        key_before(a, b) || key_before(b, a),
{
    if key_text(a) != key_text(b) {
        lemma_lex_total(key_text(a), key_text(b));
    }
}

proof fn lemma_calendar_then_listed(a: LocalStamp, b: LocalStamp)
    requires
        stamp_in_range(a),
        stamp_in_range(b),
        0 <= a.year <= 9999,
        0 <= b.year <= 9999,
        day_key(a) < day_key(b),
    ensures
        key_before(day_key(a), day_key(b)),
{
    lemma_day_key_parts(a);
    lemma_day_key_parts(b);
    lemma_day_key_order(a, b);
    let (ya, ma, da) = (a.year as int, a.month as int, a.day as int);
    let (yb, mb, db) = (b.year as int, b.month as int, b.day as int);
    let ta = key_text(day_key(a));
    let tb = key_text(day_key(b));
    assert(ta == four_digits(ya) + seq!['-'] + two_digits(ma) + seq!['-'] + two_digits(da));
    assert(tb == four_digits(yb) + seq!['-'] + two_digits(mb) + seq!['-'] + two_digits(db));
    let dash = seq!['-'];
    if ya < yb {
        lemma_four_digits_order(ya, yb);
        assert(ta =~= four_digits(ya) + (dash + two_digits(ma) + dash + two_digits(da)));
        assert(tb =~= four_digits(yb) + (dash + two_digits(mb) + dash + two_digits(db)));
        lemma_lex_same_length(four_digits(ya), four_digits(yb), dash + two_digits(ma) + dash + two_digits(da),
            dash + two_digits(mb) + dash + two_digits(db));
    } else if ma < mb {
        assert(ya == yb);
        let p = four_digits(ya) + dash;
        lemma_two_digits_order(ma, mb);
        lemma_lex_same_length(two_digits(ma), two_digits(mb), dash + two_digits(da), dash + two_digits(db));
        assert(ta =~= p + (two_digits(ma) + (dash + two_digits(da))));
        assert(tb =~= p + (two_digits(mb) + (dash + two_digits(db))));
        lemma_lex_common_start(p, two_digits(ma) + (dash + two_digits(da)), two_digits(mb) + (dash + two_digits(db)));
    } else {
        assert(ya == yb && ma == mb && da < db);
        let p = four_digits(ya) + dash + two_digits(ma) + dash;
        lemma_two_digits_order(da, db);
        assert(ta =~= p + two_digits(da));
        assert(tb =~= p + two_digits(db));
        lemma_lex_common_start(p, two_digits(da), two_digits(db));
    }
}

/// For days of the years 0 to 9999, whose texts all have one length, days
/// are listed in the calendar's order: one is listed before another
/// exactly when it comes earlier in the calendar.
pub proof fn lemma_listing_follows_calendar(a: LocalStamp, b: LocalStamp)
    requires
        stamp_in_range(a),
        stamp_in_range(b),
        0 <= a.year <= 9999,
        0 <= b.year <= 9999,
    ensures
        key_before(day_key(a), day_key(b)) <==> day_key(a) < day_key(b),
{
    if day_key(a) < day_key(b) {
        lemma_calendar_then_listed(a, b);
    } else if day_key(a) == day_key(b) {
        lemma_key_before_irreflexive(day_key(a));
    } else {
        lemma_calendar_then_listed(b, a);
        if key_before(day_key(a), day_key(b)) {
            lemma_key_before_transitive(day_key(a), day_key(b), day_key(a));
            lemma_key_before_irreflexive(day_key(a));
        }
    }
}

/// Whether day `a` is listed before day `b`.
pub fn day_before(a: i64, b: i64) -> (r: bool)
    ensures
        r == key_before(a, b),
{
    let ta = key_chars(a);
    let tb = key_chars(b);
    if text_before(&ta, &tb) {
        true
    } else if text_before(&tb, &ta) {
        false
    } else {
        proof {
            if ta@ != tb@ {
                lemma_lex_total(ta@, tb@);
            }
        }
        a < b
    }
}

/// `days` are the first `limit` days of `dom` in listing order (all of them
/// when there are fewer), in that order.
pub open spec fn first_listed_days(days: Seq<i64>, dom: Set<i64>, limit: nat) -> bool {
    &&& days.len() <= limit
    &&& forall|i: int, j: int| 0 <= i < j < days.len() ==> key_before(days[i], days[j])
    &&& forall|i: int| 0 <= i < days.len() ==> dom.contains(#[trigger] days[i])
    &&& forall|k: i64| #[trigger] dom.contains(k) ==> days.contains(k) || (days.len() == limit && key_before(days.last(), k))
}

/// The keys of a map, each once.
fn map_keys(groups: &HashMap<i64, DayGroup>) -> (keys: Vec<i64>)
    ensures
        keys@.to_set() == groups@.dom(),
        keys@.no_duplicates(),
{
    let ghost all = vstd::std_specs::hash::spec_keys_iter(groups).remaining().unref();
    let mut keys: Vec<i64> = Vec::new();
    for k in it: groups.keys()
        invariant
            all == vstd::std_specs::hash::spec_keys_iter(groups).remaining().unref(),
            it.seq() == vstd::std_specs::hash::spec_keys_iter(groups).remaining(),
            keys.len() == it.index(),
            it.index() <= all.len(),
            keys@ == all.take(it.index() as int),
            it.index() == it.seq().len() ==> keys@ == all,
    {
        assert(all[it.index() as int] == *k);
        keys.push(*k);
        assert(keys@ =~= all.take(it.index() + 1));
        assert(it.index() + 1 == all.len() ==> all.take(it.index() + 1) =~= all);
    }
    assert(keys@ == all);
    keys
}

/// Days listed in order are all different.
proof fn lemma_listed_distinct(days: Seq<i64>)
    requires
        forall|i: int, j: int| 0 <= i < j < days.len() ==> key_before(days[i], days[j]),
    ensures
        days.no_duplicates(),
{
    assert forall|i: int, j: int| 0 <= i < days.len() && 0 <= j < days.len() && i != j
        implies days[i] != days[j] by {
        lemma_key_before_irreflexive(days[i]);
    }
}

/// The days that can be chosen for the hourly forecast: the first seven
/// days of the grouped readings in the order of their texts (all of them
/// when there are fewer).
pub fn first_days(groups: &HashMap<i64, DayGroup>) -> (days: Vec<i64>)
    ensures
        first_listed_days(days@, groups@.dom(), 7),
        days.len() == if groups@.dom().len() < 7 { groups@.dom().len() } else { 7 },
{
    let keys = map_keys(groups);
    let ghost dom = groups@.dom();
    let n = keys.len();
    let mut days: Vec<i64> = Vec::new();
    while days.len() < 7
        invariant
            n == keys.len(),
            keys@.to_set() == dom,
            dom == groups@.dom(),
            days.len() <= 7,
            forall|i: int, j: int| 0 <= i < j < days.len() ==> key_before(days@[i], days@[j]),
            forall|i: int| 0 <= i < days.len() ==> dom.contains(#[trigger] days@[i]),
            forall|k: i64| #[trigger] dom.contains(k) ==> days@.contains(k) || days.len() == 0 || key_before(days@.last(), k),
        decreases 7 - days.len(),
    {
        let mut best: Option<i64> = None;
        let mut j: usize = 0;
        while j < n
            invariant
                n == keys.len(),
                keys@.to_set() == dom,
                j <= n,
                days.len() < 7,
                best matches Some(b) ==> dom.contains(b) && (days.len() == 0 || key_before(days@.last(), b)),
                forall|q: int| 0 <= q < j && (days.len() == 0 || key_before(days@.last(), keys@[q]))
                    ==> (best matches Some(b) && !key_before(#[trigger] keys@[q], b)),
            decreases n - j,
        {
            let candidate = keys[j];
            assert(keys@.to_set().contains(keys@[j as int]));
            let eligible = days.len() == 0 || day_before(days[days.len() - 1], candidate);
            if eligible {
                match best {
                    Some(b) => {
                        if day_before(candidate, b) {
                            best = Some(candidate);
                            proof {
                                lemma_key_before_irreflexive(candidate);
                                assert forall|q: int| 0 <= q < j && (days.len() == 0 || key_before(days@.last(), keys@[q]))
                                    implies !key_before(#[trigger] keys@[q], candidate) by {
                                    if key_before(keys@[q], candidate) {
                                        lemma_key_before_transitive(keys@[q], candidate, b);
                                    }
                                }
                            }
                        }
                    },
                    None => {
                        best = Some(candidate);
                        proof {
                            lemma_key_before_irreflexive(candidate);
                        }
                    },
                }
            }
            j = j + 1;
        }
        match best {
            Some(b) => {
                let ghost before = days@;
                days.push(b);
                proof {
                    assert forall|i: int, j: int| 0 <= i < j < days.len() implies key_before(days@[i], days@[j]) by {
                        if j == days.len() - 1 && i < j - 1 {
                            lemma_key_before_transitive(days@[i], before.last(), b);
                        }
                    }
                    assert forall|k: i64| #[trigger] dom.contains(k) implies days@.contains(k) || key_before(days@.last(), k) by {
                        if !before.contains(k) {
                            assert(before.len() == 0 || key_before(before.last(), k));
                            assert(keys@.to_set().contains(k));
                            let q = choose|q: int| 0 <= q < keys@.len() && keys@[q] == k;
                            if k != b {
                                assert(!key_before(keys@[q], b));
                                lemma_key_before_total(k, b);
                            } else {
                                assert(days@[days.len() - 1] == k);
                            }
                        } else {
                            let q = choose|q: int| 0 <= q < before.len() && before[q] == k;
                            assert(days@[q] == k);
                        }
                    }
                }
            },
            None => {
                proof {
                    assert forall|k: i64| #[trigger] dom.contains(k) implies days@.contains(k) by {
                        assert(keys@.to_set().contains(k));
                        let q = choose|q: int| 0 <= q < keys@.len() && keys@[q] == k;
                        if !days@.contains(k) {
                            assert(days.len() == 0 || key_before(days@.last(), keys@[q]));
                        }
                    }
                    lemma_listed_distinct(days@);
                    days@.unique_seq_to_set();
                    assert(days@.to_set() =~= dom);
                }
                return days;
            },
        }
    }
    proof {
        lemma_listed_distinct(days@);
        days@.unique_seq_to_set();
        assert(days@.to_set().subset_of(dom));
        vstd::set_lib::lemma_len_subset(days@.to_set(), dom);
    }
    days
}


/// Month 1 to 12, day 1 to 31 and hour 0 to 23.
pub open spec fn stamp_in_range(st: LocalStamp) -> bool {
    1 <= st.month <= 12 && 1 <= st.day <= 31 && st.hour < 24
}

/// Day keys order days as the calendar does: by year, then month, then day.
pub proof fn lemma_day_key_order(a: LocalStamp, b: LocalStamp)
    requires
        stamp_in_range(a),
        stamp_in_range(b),
    ensures
        day_key(a) < day_key(b) <==> (a.year < b.year || (a.year == b.year && (a.month < b.month
            || (a.month == b.month && a.day < b.day)))),
        day_key(a) == day_key(b) <==> (a.year == b.year && a.month == b.month && a.day == b.day),
{
}

/// A day key gives back the year, month and day it was made of.
pub proof fn lemma_day_key_parts(st: LocalStamp)
    requires
        stamp_in_range(st),
    ensures
        crate::clock::key_parts(day_key(st)) == (st.year as int, st.month as int, st.day as int),
{
    let k = day_key(st) as int;
    let rest = st.month * 100 + st.day;
    vstd::arithmetic::div_mod::lemma_fundamental_div_mod_converse(k, 10000, st.year as int, rest as int);
    vstd::arithmetic::div_mod::lemma_fundamental_div_mod_converse(rest as int, 100, st.month as int, st.day as int);
}

/// The positions on a day are the positions below `n` whose moment falls
/// on that day, each once and in increasing order.
pub proof fn lemma_positions_on(stamps: Seq<LocalStamp>, k: i64, n: nat)
    requires
        n <= stamps.len(),
        n <= usize::MAX,
    ensures
        forall|j: int| 0 <= j < positions_on(stamps, k, n).len() ==> {
            let p = #[trigger] positions_on(stamps, k, n)[j];
            p < n && day_key(stamps[p as int]) == k
        },
        forall|a: int, b: int| 0 <= a < b < positions_on(stamps, k, n).len()
            ==> positions_on(stamps, k, n)[a] < positions_on(stamps, k, n)[b],
        forall|i: int| 0 <= i < n && day_key(#[trigger] stamps[i]) == k
            ==> positions_on(stamps, k, n).contains(i as usize),
    decreases n,
{
    if n > 0 {
        let m = (n - 1) as nat;
        lemma_positions_on(stamps, k, m);
        let before = positions_on(stamps, k, m);
        if day_key(stamps[m as int]) == k {
            let after = before.push(m as usize);
            assert(positions_on(stamps, k, n) == after);
            assert forall|j: int| 0 <= j < after.len() implies {
                let p = #[trigger] after[j];
                p < n && day_key(stamps[p as int]) == k
            } by {
                if j < before.len() {
                    assert(after[j] == before[j]);
                }
            }
            assert forall|a: int, b: int| 0 <= a < b < after.len() implies after[a] < after[b] by {
                assert(after[a] == before[a]);
                if b < before.len() {
                    assert(after[b] == before[b]);
                }
            }
            assert forall|i: int| 0 <= i < n && day_key(#[trigger] stamps[i]) == k implies after.contains(i as usize) by {
                if i < m {
                    let j = choose|j: int| 0 <= j < before.len() && before[j] == i as usize;
                    assert(after[j] == i as usize);
                } else {
                    assert(after[before.len() as int] == i as usize);
                }
            }
        }
    }
}

/// In a grouping of readings by day, every reading is held by the group of
/// its own day, and a group holds only readings of its day, each once, in
/// the order of the series.
pub proof fn lemma_grouping_partitions(
    m: Map<i64, DayGroup>,
    stamps: Seq<LocalStamp>,
    codes: Seq<u8>,
    precip: Seq<Option<u8>>,
)
    requires
        stamps.len() <= usize::MAX,
        groups_readings(m, stamps, codes, precip, stamps.len()),
    ensures
        forall|i: int| 0 <= i < stamps.len() ==> m.contains_key(day_key(#[trigger] stamps[i]))
            && m[day_key(stamps[i])].indices@.contains(i as usize),
        forall|k: i64, j: int| m.contains_key(k) && 0 <= j < m[k].indices@.len() ==> {
            let p = #[trigger] m[k].indices@[j];
            p < stamps.len() && day_key(stamps[p as int]) == k
        },
        forall|k: i64, a: int, b: int| m.contains_key(k) && 0 <= a < b < m[k].indices@.len()
            ==> #[trigger] m[k].indices@[a] < #[trigger] m[k].indices@[b],
{
    assert forall|i: int| 0 <= i < stamps.len() implies m.contains_key(day_key(#[trigger] stamps[i]))
        && m[day_key(stamps[i])].indices@.contains(i as usize) by {
        let k = day_key(stamps[i]);
        assert(has_day(stamps, k, stamps.len()));
        assert(m.contains_key(k));
        assert(group_holds(m[k], positions_on(stamps, k, stamps.len()), stamps, codes, precip));
        lemma_positions_on(stamps, k, stamps.len());
        assert(positions_on(stamps, k, stamps.len()).contains(i as usize));
    }
    assert forall|k: i64, j: int| m.contains_key(k) && 0 <= j < m[k].indices@.len() implies {
        let p = #[trigger] m[k].indices@[j];
        p < stamps.len() && day_key(stamps[p as int]) == k
    } by {
        lemma_positions_on(stamps, k, stamps.len());
        assert(m[k].indices@[j] == positions_on(stamps, k, stamps.len())[j]);
    }
    assert forall|k: i64, a: int, b: int| m.contains_key(k) && 0 <= a < b < m[k].indices@.len()
        implies #[trigger] m[k].indices@[a] < #[trigger] m[k].indices@[b] by {
        lemma_positions_on(stamps, k, stamps.len());
    }
}


/// A grouping of the first `n` readings reads only positions below `n`:
/// with the same moments, value series that agree below `n` (one may run on
/// past the other) are grouped into the same days holding the same hours,
/// codes, chances of rain and positions.
pub proof fn lemma_grouping_reads_prefix(
    m1: Map<i64, DayGroup>,
    m2: Map<i64, DayGroup>,
    stamps: Seq<LocalStamp>,
    codes1: Seq<u8>,
    precip1: Seq<Option<u8>>,
    codes2: Seq<u8>,
    precip2: Seq<Option<u8>>,
    n: nat,
)
    requires
        n <= stamps.len(),
        n <= usize::MAX,
        n <= codes1.len(),
        n <= codes2.len(),
        n <= precip1.len(),
        n <= precip2.len(),
        codes1.take(n as int) == codes2.take(n as int),
        precip1.take(n as int) == precip2.take(n as int),
        groups_readings(m1, stamps, codes1, precip1, n),
        groups_readings(m2, stamps, codes2, precip2, n),
    ensures
        m1.dom() == m2.dom(),
        forall|k: i64| #[trigger] m1.contains_key(k) ==> {
            &&& m1[k].hours@ == m2[k].hours@
            &&& m1[k].codes@ == m2[k].codes@
            &&& m1[k].rain@ == m2[k].rain@
            &&& m1[k].indices@ == m2[k].indices@
        },
{
    assert(m1.dom() =~= m2.dom()) by {
        assert forall|k: i64| m1.dom().contains(k) <==> m2.dom().contains(k) by {
            assert(m1.contains_key(k) <==> has_day(stamps, k, n));
            assert(m2.contains_key(k) <==> has_day(stamps, k, n));
        }
    }
    assert forall|k: i64| #[trigger] m1.contains_key(k) implies {
        &&& m1[k].hours@ == m2[k].hours@
        &&& m1[k].codes@ == m2[k].codes@
        &&& m1[k].rain@ == m2[k].rain@
        &&& m1[k].indices@ == m2[k].indices@
    } by {
        let idx = positions_on(stamps, k, n);
        assert(m2.contains_key(k));
        lemma_positions_on(stamps, k, n);
        assert forall|j: int| 0 <= j < idx.len() implies codes1[idx[j] as int] == codes2[idx[j] as int]
            && precip1[idx[j] as int] == precip2[idx[j] as int] by {
            let p = idx[j] as int;
            assert(positions_on(stamps, k, n)[j] < n);
            assert(0 <= p < n);
            assert(codes1.take(n as int)[p] == codes1[p]);
            assert(codes2.take(n as int)[p] == codes2[p]);
            assert(precip1.take(n as int)[p] == precip1[p]);
            assert(precip2.take(n as int)[p] == precip2[p]);
            assert(codes1.take(n as int)[p] == codes2.take(n as int)[p]);
            assert(precip1.take(n as int)[p] == precip2.take(n as int)[p]);
        }
        assert(m1[k].codes@ =~= m2[k].codes@);
        assert(m1[k].rain@ =~= m2[k].rain@);
        assert(m1[k].hours@ =~= m2[k].hours@);
    }
}

/// Every timestamp of the series can be read.
pub open spec fn all_times_parse(times: Seq<String>) -> bool {
    forall|i: int| 0 <= i < times.len() ==> time_parses(#[trigger] times[i]@)
}

/// Groups hourly readings by their local day. Each timestamp is read in
/// the machine's time zone, so which day a reading falls on depends on it:
/// reading `i` is placed by a local stamp within a day of the moment that
/// `times[i]` names, and the readings are grouped exactly by those stamps'
/// days. Every timestamp must be readable (the viewer stops otherwise).
pub fn group_hourly_by_day(
    times: &Vec<String>,
    codes: &Vec<u8>,
    precip: &Vec<Option<u8>>,
) -> (m: HashMap<i64, DayGroup>)
    requires
        codes.len() >= times.len(),
        precip.len() >= times.len(),
        all_times_parse(times@),
    ensures
        exists|stamps: Seq<LocalStamp>|
            stamps.len() == times.len()
            && (forall|i: int| 0 <= i < stamps.len() ==> stamp_in_range(#[trigger] stamps[i])
                && near_moment(stamps[i], time_moment(times@[i]@)->0))
            && groups_readings(m@, stamps, codes@, precip@, times.len() as nat),
{
    let n = times.len();
    let mut stamps: Vec<LocalStamp> = Vec::new();
    let mut i: usize = 0;
    while i < n
        invariant
            n == times.len(),
            all_times_parse(times@),
            i <= n,
            stamps.len() == i,
            forall|j: int| 0 <= j < i ==> stamp_in_range(#[trigger] stamps@[j])
                && near_moment(stamps@[j], time_moment(times@[j]@)->0),
        decreases n - i,
    {
        assert(time_parses(times@[i as int]@));
        let st = parse_time_to_local(times[i].as_str());
        stamps.push(st);
        i = i + 1;
    }
    let m = group_stamps_by_day(&stamps, codes, precip);
    assert(stamps@.len() == times.len());
    m
}

/// Groups hourly readings by their local day when every timestamp can be
/// read; `None` otherwise.
pub fn try_group_hourly_by_day(
    times: &Vec<String>,
    codes: &Vec<u8>,
    precip: &Vec<Option<u8>>,
) -> (r: Option<HashMap<i64, DayGroup>>)
    requires
        codes.len() >= times.len(),
        precip.len() >= times.len(),
    ensures
        r is Some <==> all_times_parse(times@),
        r matches Some(m) ==> exists|stamps: Seq<LocalStamp>|
            stamps.len() == times.len()
            && (forall|i: int| 0 <= i < stamps.len() ==> stamp_in_range(#[trigger] stamps[i])
                && near_moment(stamps[i], time_moment(times@[i]@)->0))
            && groups_readings(m@, stamps, codes@, precip@, times.len() as nat),
{
    let n = times.len();
    let mut i: usize = 0;
    while i < n
        invariant
            n == times.len(),
            i <= n,
            forall|j: int| 0 <= j < i ==> time_parses(#[trigger] times@[j]@),
        decreases n - i,
    {
        if !time_readable(times[i].as_str()) {
            return None;
        }
        i = i + 1;
    }
    Some(group_hourly_by_day(times, codes, precip))
}

} // verus!
