//! Command-line flags → [`Trigger`]: the parsers behind `--every`,
//! `--daily`, `--weekly`, `--monthly`, and the rule that picks one of them.

use vstd::prelude::*;

use crate::fmt::join;
use crate::model::{CalendarEntry, Trigger, TriggerModel};
use crate::text::{
    all_digits, chars_of, digit_char, digit_value, lower, unsigned_value, digits_value, debug_char, debug_char_text, debug_str, debug_text, digits_upto,
    find_char, first_index, is_ascii_digit, is_digit, lemma_first_index, lemma_first_index_is,
    lower_seq, lowercased, parse_u8, parses_u8, push_str, quoted_after, quoted_message, slice_vec, split_once,
    string_of, string_of_chars, trim, trim_bounds, vec_eq_str,
};

verus! {

/// The trigger-selecting flags shared by `add` and `set-trigger`. Exactly one
/// of them is meant to be given.
#[derive(Debug, Clone, PartialEq, Eq)]
pub struct TriggerArgs {
    /// `RunAtLoad`: fire once when the agent is loaded (i.e. at login).
    pub at_login: bool,
    /// `StartInterval`, e.g. `30m`, `2h`, `90s`, `1h30m`.
    pub every: Option<String>,
    /// A daily time, `HH:MM`. Repeatable.
    pub daily: Vec<String>,
    /// `weekday[,weekday...]@HH:MM`, e.g. `mon,fri@09:30`. Repeatable.
    pub weekly: Vec<String>,
    /// `day@HH:MM`, e.g. `15@08:00`. Repeatable.
    pub monthly: Vec<String>,
    /// No automatic trigger: a service started and stopped by hand.
    pub manual: bool,
}

/// The texts of a list of strings.
pub open spec fn texts(v: Seq<String>) -> Seq<Seq<char>> {
    v.map_values(|s: String| s@)
}

// ---------------------------------------------------------------------------
// Durations
// ---------------------------------------------------------------------------

/// Why a duration was rejected.
pub enum DurationError {
    /// Nothing given.
    Empty,
    /// A component does not start with a digit.
    Format,
    /// The last component has no unit.
    MissingUnit,
    /// A component's number does not fit in 64 bits.
    NumberTooLarge,
    /// A unit other than `h`, `m`, `s`.
    UnknownUnit(char),
    /// The running total does not fit in 64 bits.
    Overflow,
    /// The total is zero.
    Zero,
    /// The total does not fit in 32 bits.
    TooBig,
}

/// How many ASCII digits `s` starts with.
pub open spec fn lead_digits(s: Seq<char>) -> nat
    decreases s.len(),
{
    if s.len() > 0 && is_digit(s[0]) {
        1 + lead_digits(s.drop_first())
    } else {
        0
    }
}

/// Seconds per unit.
pub open spec fn unit_secs(c: char) -> Option<nat> {
    if c == 'h' {
        Some(3600)
    } else if c == 'm' {
        Some(60)
    } else if c == 's' {
        Some(1)
    } else {
        None
    }
}

/// Reads `<digits><unit>` components off the front of `s`, adding their
/// seconds to `acc`.
pub open spec fn components(s: Seq<char>, acc: nat) -> Result<nat, DurationError>
    decreases s.len(),
{
    if s.len() == 0 {
        Ok(acc)
    } else {
        let k = lead_digits(s);
        if k == 0 {
            Err(DurationError::Format)
        } else if k >= s.len() {
            Err(DurationError::MissingUnit)
        } else {
            let n = digits_value(s.subrange(0, k as int));
            if n > u64::MAX {
                Err(DurationError::NumberTooLarge)
            } else {
                match unit_secs(s[k as int]) {
                    None => Err(DurationError::UnknownUnit(s[k as int])),
                    Some(mul) => if acc + n * mul > u64::MAX {
                        Err(DurationError::Overflow)
                    } else {
                        components(s.subrange(k + 1 as int, s.len() as int), acc + n * mul)
                    },
                }
            }
        }
    }
}

/// What `parse_duration` makes of `s`: the total in seconds, or why not.
pub open spec fn duration_of(s: Seq<char>) -> Result<u32, DurationError> {
    if s.len() == 0 {
        Err(DurationError::Empty)
    } else {
        match components(s, 0) {
            Err(e) => Err(e),
            Ok(total) => if total == 0 {
                Err(DurationError::Zero)
            } else if total > u32::MAX {
                Err(DurationError::TooBig)
            } else {
                Ok(total as u32)
            },
        }
    }
}

/// The message each rejection reads as.
pub open spec fn duration_message(e: DurationError, s: Seq<char>) -> Seq<char> {
    match e {
        DurationError::Empty => "--every 不能为空"@,
        DurationError::Format => "--every 格式错误: "@ + debug_text(s) + "，期望形如 30m/2h/90s/1h30m"@,
        DurationError::MissingUnit => "--every 缺少单位: "@ + debug_text(s) + "，期望 h/m/s"@,
        DurationError::NumberTooLarge => "时长数字过大: "@ + debug_text(s),
        DurationError::UnknownUnit(c) => "--every 未知单位 "@ + debug_char_text(c) + ": "@
            + debug_text(s) + "，期望 h/m/s"@,
        DurationError::Overflow => "时长溢出: "@ + debug_text(s),
        DurationError::Zero => "--every 格式错误: "@ + debug_text(s),
        DurationError::TooBig => "--every 太大了: "@ + debug_text(s),
    }
}

/// `parse_duration`'s whole answer.
pub open spec fn duration_result(s: Seq<char>) -> Result<u32, Seq<char>> {
    match duration_of(s) {
        Ok(v) => Ok(v),
        Err(e) => Err(duration_message(e, s)),
    }
}

proof fn lemma_lead_digits_is(s: Seq<char>, k: int)
    requires
        0 <= k <= s.len(),
        forall|j: int| 0 <= j < k ==> is_digit(#[trigger] s[j]),
        k < s.len() ==> !is_digit(s[k]),
    ensures
        lead_digits(s) == k,
    decreases k,
{
    if k > 0 {
        let t = s.drop_first();
        assert forall|j: int| 0 <= j < k - 1 implies is_digit(#[trigger] t[j]) by {
            assert(t[j] == s[j + 1]);
        }
        if k - 1 < t.len() {
            assert(t[k - 1] == s[k]);
        }
        lemma_lead_digits_is(t, k - 1);
    }
}

/// Parses `30m`, `2h`, `90s`, `1h30m`, `1h30m10s`, ... into seconds.
///
/// Also used by `--timeout`. Overflowing values are rejected rather than
/// wrapping.
pub fn parse_duration(s: &str) -> (r: Result<u32, String>)
    ensures
        match r {
            Ok(v) => duration_result(s@) == Ok::<u32, Seq<char>>(v),
            Err(m) => duration_result(s@) == Err::<u32, Seq<char>>(m@),
        },
{
    let v = chars_of(s);
    if v.len() == 0 {
        return Err(string_of("--every 不能为空"));
    }
    let mut total: u64 = 0;
    let mut pos: usize = 0;
    assert(v@.subrange(0, v@.len() as int) =~= s@);
    while pos < v.len()
        invariant
            pos <= v@.len(),
            v@ == s@,
            v@.len() > 0,
            components(s@, 0) == components(v@.subrange(pos as int, v@.len() as int), total as nat),
            pos == 0 ==> total == 0,
        decreases v@.len() - pos,
    {
        let ghost rest = v@.subrange(pos as int, v@.len() as int);
        let mut j = pos;
        while j < v.len() && is_ascii_digit(v[j])
            invariant
                pos <= j <= v@.len(),
                forall|q: int| pos <= q < j ==> is_digit(#[trigger] v@[q]),
            decreases v@.len() - j,
        {
            j = j + 1;
        }
        proof {
            assert forall|q: int| 0 <= q < j - pos implies is_digit(#[trigger] rest[q]) by {
                assert(rest[q] == v@[pos + q]);
            }
            if j < v@.len() {
                assert(rest[j - pos] == v@[j as int]);
            }
            lemma_lead_digits_is(rest, j - pos);
        }
        if j == pos {
            return Err(quoted_message("--every 格式错误: ", s, "，期望形如 30m/2h/90s/1h30m"));
        }
        if j >= v.len() {
            return Err(quoted_message("--every 缺少单位: ", s, "，期望 h/m/s"));
        }
        assert(rest.subrange(0, j - pos) =~= v@.subrange(pos as int, j as int));
        assert(all_digits(v@.subrange(pos as int, j as int))) by {
            assert forall|q: int| 0 <= q < j - pos implies is_digit(
                #[trigger] v@.subrange(pos as int, j as int)[q],
            ) by {
                assert(v@.subrange(pos as int, j as int)[q] == v@[pos + q]);
            }
        }
        let n = match digits_upto(&v, pos, j, u64::MAX) {
            Some(n) => n,
            None => {
                return Err(quoted_after("时长数字过大: ", s));
            },
        };
        let unit = v[j];
        assert(rest[j - pos] == unit);
        let mul: u64 = if unit == 'h' {
            3600
        } else if unit == 'm' {
            60
        } else if unit == 's' {
            1
        } else {
            let mut m = string_of("--every 未知单位 ");
            let dc = debug_char(unit);
            push_str(&mut m, dc.as_str());
            push_str(&mut m, ": ");
            let ds = debug_str(s);
            push_str(&mut m, ds.as_str());
            push_str(&mut m, "，期望 h/m/s");
            return Err(m);
        };
        let next = match n.checked_mul(mul) {
            Some(p) => match total.checked_add(p) {
                Some(t) => t,
                None => {
                    return Err(quoted_after("时长溢出: ", s));
                },
            },
            None => {
                return Err(quoted_after("时长溢出: ", s));
            },
        };
        assert(rest.subrange(j - pos + 1, rest.len() as int) =~= v@.subrange(
            j + 1,
            v@.len() as int,
        ));
        total = next;
        pos = j + 1;
    }
    assert(v@.subrange(pos as int, v@.len() as int).len() == 0);
    if total == 0 {
        return Err(quoted_after("--every 格式错误: ", s));
    }
    if total > 4294967295u64 {
        return Err(quoted_after("--every 太大了: ", s));
    }
    Ok(total as u32)
}

// ---------------------------------------------------------------------------
// Times of day, weekdays, calendar entries
// ---------------------------------------------------------------------------

/// What `HH:MM` parses to, or the message why not.
pub open spec fn hhmm_of(s: Seq<char>) -> Result<(u8, u8), Seq<char>> {
    match split_once(s, ':') {
        None => Err("时间格式错误: "@ + debug_text(s) + "，期望 HH:MM"@),
        Some((h, m)) => match parses_u8(h) {
            None => Err("小时不是数字: "@ + debug_text(s)),
            Some(hour) => match parses_u8(m) {
                None => Err("分钟不是数字: "@ + debug_text(s)),
                Some(minute) => if hour > 23 {
                    Err("小时必须在 0-23: "@ + debug_text(s))
                } else if minute > 59 {
                    Err("分钟必须在 0-59: "@ + debug_text(s))
                } else {
                    Ok((hour, minute))
                },
            },
        },
    }
}

/// Parses `HH:MM` into `(hour, minute)`, validating ranges.
pub fn parse_hhmm(s: &str) -> (r: Result<(u8, u8), String>)
    ensures
        match r {
            Ok(hm) => hhmm_of(s@) == Ok::<(u8, u8), Seq<char>>(hm),
            Err(m) => hhmm_of(s@) == Err::<(u8, u8), Seq<char>>(m@),
        },
{
    let v = chars_of(s);
    let i = match find_char(&v, ':') {
        Some(i) => i,
        None => {
            return Err(quoted_message("时间格式错误: ", s, "，期望 HH:MM"));
        },
    };
    proof {
        lemma_first_index(v@, ':');
    }
    assert(i < v.len());
    let h = slice_vec(&v, 0, i);
    let m = slice_vec(&v, i + 1, v.len());
    let hour = match parse_u8(&h) {
        Some(x) => x,
        None => {
            return Err(quoted_after("小时不是数字: ", s));
        },
    };
    let minute = match parse_u8(&m) {
        Some(x) => x,
        None => {
            return Err(quoted_after("分钟不是数字: ", s));
        },
    };
    if hour > 23 {
        return Err(quoted_after("小时必须在 0-23: ", s));
    }
    if minute > 59 {
        return Err(quoted_after("分钟必须在 0-59: ", s));
    }
    Ok((hour, minute))
}

/// What one weekday token parses to, or the message why not.
pub open spec fn weekday_of(s: Seq<char>) -> Result<u8, Seq<char>> {
    let l = lower_seq(s);
    if l == "sun"@ {
        Ok(0)
    } else if l == "mon"@ {
        Ok(1)
    } else if l == "tue"@ {
        Ok(2)
    } else if l == "wed"@ {
        Ok(3)
    } else if l == "thu"@ {
        Ok(4)
    } else if l == "fri"@ {
        Ok(5)
    } else if l == "sat"@ {
        Ok(6)
    } else {
        match parses_u8(l) {
            Some(w) => if w <= 7 {
                Ok(w)
            } else {
                Err("星期格式错误: "@ + debug_text(s) + "，期望 mon..sun 或 0-7"@)
            },
            None => Err("星期格式错误: "@ + debug_text(s) + "，期望 mon..sun 或 0-7"@),
        }
    }
}

/// Parses one weekday token: `mon`..`sun` (English three-letter
/// abbreviations, any case) or a launchd-style number `0`-`7`.
pub fn parse_weekday(s: &str) -> (r: Result<u8, String>)
    ensures
        match r {
            Ok(w) => weekday_of(s@) == Ok::<u8, Seq<char>>(w),
            Err(m) => weekday_of(s@) == Err::<u8, Seq<char>>(m@),
        },
{
    let v = chars_of(s);
    let l = lowercased(&v);
    if vec_eq_str(&l, "sun") {
        return Ok(0);
    }
    if vec_eq_str(&l, "mon") {
        return Ok(1);
    }
    if vec_eq_str(&l, "tue") {
        return Ok(2);
    }
    if vec_eq_str(&l, "wed") {
        return Ok(3);
    }
    if vec_eq_str(&l, "thu") {
        return Ok(4);
    }
    if vec_eq_str(&l, "fri") {
        return Ok(5);
    }
    if vec_eq_str(&l, "sat") {
        return Ok(6);
    }
    match parse_u8(&l) {
        Some(w) => {
            if w <= 7 {
                Ok(w)
            } else {
                Err(quoted_message("星期格式错误: ", s, "，期望 mon..sun 或 0-7"))
            }
        },
        None => Err(quoted_message("星期格式错误: ", s, "，期望 mon..sun 或 0-7")),
    }
}

/// `str::split(c)`: the pieces between the separators, empty ones included.
pub open spec fn split_all(s: Seq<char>, c: char) -> Seq<Seq<char>>
    decreases s.len(),
{
    match first_index(s, c) {
        Some(i) => {
            proof {
                lemma_first_index(s, c);
            }
            seq![s.subrange(0, i)] + split_all(s.subrange(i + 1, s.len() as int), c)
        },
        None => seq![s],
    }
}

/// A text with no separator in it is one piece.
pub(crate) proof fn lemma_split_one(x: Seq<char>, c: char)
    requires
        forall|j: int| 0 <= j < x.len() ==> x[j] != c,
    ensures
        split_all(x, c) == seq![x],
{
    lemma_first_index_is(x, c, x.len() as int);
}

/// Splitting two texts glued by the separator splits each of them.
pub(crate) proof fn lemma_split_concat(a: Seq<char>, b: Seq<char>, c: char)
    ensures
        split_all(a + seq![c] + b, c) == split_all(a, c) + split_all(b, c),
    decreases a.len(),
{
    let s = a + seq![c] + b;
    lemma_first_index(a, c);
    match first_index(a, c) {
        Some(i) => {
            lemma_first_index_is(s, c, i);
            let tail = a.subrange(i + 1, a.len() as int);
            assert(s.subrange(0, i) =~= a.subrange(0, i));
            assert(s.subrange(i + 1, s.len() as int) =~= tail + seq![c] + b);
            lemma_split_concat(tail, b, c);
            assert(split_all(a, c) == seq![a.subrange(0, i)] + split_all(tail, c));
            assert(split_all(s, c) =~= split_all(a, c) + split_all(b, c));
        },
        None => {
            lemma_first_index_is(s, c, a.len() as int);
            assert(s.subrange(0, a.len() as int) =~= a);
            assert(s.subrange(a.len() + 1 as int, s.len() as int) =~= b);
        },
    }
}

/// Splitting pieces joined by a separator that none of them holds gives the
/// pieces back.
pub(crate) proof fn lemma_split_join(ps: Seq<Seq<char>>, c: char)
    requires
        ps.len() > 0,
        forall|k: int, j: int| 0 <= k < ps.len() && 0 <= j < ps[k].len() ==> #[trigger] ps[k][j] != c,
    ensures
        split_all(join(ps, seq![c]), c) == ps,
    decreases ps.len(),
{
    let l = ps.last();
    assert forall|j: int| 0 <= j < l.len() implies l[j] != c by {
        assert(ps[ps.len() - 1][j] == l[j]);
    }
    if ps.len() == 1 {
        lemma_split_one(ps[0], c);
        assert(ps =~= seq![ps[0]]);
    } else {
        let d = ps.drop_last();
        assert forall|k: int, j: int| 0 <= k < d.len() && 0 <= j < d[k].len() implies #[trigger] d[k][j]
            != c by {
            assert(d[k] == ps[k]);
        }
        lemma_split_join(d, c);
        lemma_split_concat(join(d, seq![c]), l, c);
        lemma_split_one(l, c);
        assert(d + seq![l] =~= ps);
    }
}

/// Prepends what was already parsed to the outcome of the rest.
pub open spec fn prepend<T>(done: Seq<T>, rest: Result<Seq<T>, Seq<char>>) -> Result<
    Seq<T>,
    Seq<char>,
> {
    match rest {
        Ok(r) => Ok(done + r),
        Err(e) => Err(e),
    }
}

/// One entry per weekday piece, or the first piece's complaint.
pub open spec fn weekly_days(pieces: Seq<Seq<char>>, hour: u8, minute: u8, s: Seq<char>) -> Result<
    Seq<CalendarEntry>,
    Seq<char>,
>
    decreases pieces.len(),
{
    if pieces.len() == 0 {
        Ok(Seq::empty())
    } else {
        let d = trim(pieces[0]);
        if d.len() == 0 {
            Err("--weekly 星期列表里有空项: "@ + debug_text(s))
        } else {
            match weekday_of(d) {
                Err(e) => Err(e),
                Ok(w) => prepend(
                    seq![CalendarEntry { minute, hour, weekday: Some(w), day: None }],
                    weekly_days(pieces.drop_first(), hour, minute, s),
                ),
            }
        }
    }
}

/// What one `--weekly` value parses to.
pub open spec fn weekly_of(s: Seq<char>) -> Result<Seq<CalendarEntry>, Seq<char>> {
    match split_once(s, '@') {
        None => Err("--weekly 格式错误: "@ + debug_text(s) + "，期望 mon,fri@HH:MM"@),
        Some((days, time)) => if days.len() == 0 {
            Err("--weekly 缺少星期: "@ + debug_text(s))
        } else {
            match hhmm_of(time) {
                Err(e) => Err(e),
                Ok((hour, minute)) => weekly_days(split_all(days, ','), hour, minute, s),
            }
        },
    }
}

proof fn lemma_prepend_assoc<T>(a: Seq<T>, b: Seq<T>, r: Result<Seq<T>, Seq<char>>)
    ensures
        prepend(a, prepend(b, r)) == prepend(a + b, r),
{
    match r {
        Ok(x) => {
            assert(a + (b + x) =~= (a + b) + x);
        },
        Err(_) => {},
    }
}

/// Parses `weekday[,weekday...]@HH:MM` into one entry per weekday.
pub fn parse_weekly(s: &str) -> (r: Result<Vec<CalendarEntry>, String>)
    ensures
        match r {
            Ok(es) => weekly_of(s@) == Ok::<Seq<CalendarEntry>, Seq<char>>(es@),
            Err(m) => weekly_of(s@) == Err::<Seq<CalendarEntry>, Seq<char>>(m@),
        },
{
    let v = chars_of(s);
    let at = match find_char(&v, '@') {
        Some(i) => i,
        None => {
            return Err(quoted_message("--weekly 格式错误: ", s, "，期望 mon,fri@HH:MM"));
        },
    };
    proof {
        lemma_first_index(v@, '@');
    }
    if at == 0 {
        return Err(quoted_after("--weekly 缺少星期: ", s));
    }
    let days = slice_vec(&v, 0, at);
    assert(at < v.len());
    let time_v = slice_vec(&v, at + 1, v.len());
    let time = string_of_chars(&time_v);
    let (hour, minute) = match parse_hhmm(time.as_str()) {
        Ok(hm) => hm,
        Err(e) => {
            return Err(e);
        },
    };
    let ghost whole = weekly_days(split_all(days@, ','), hour, minute, s@);
    let mut entries: Vec<CalendarEntry> = Vec::new();
    let mut p: usize = 0;
    assert(days@.subrange(0, days@.len() as int) =~= days@);
    proof {
        match whole {
            Ok(x) => {
                assert(entries@ + x =~= x);
            },
            Err(_) => {},
        }
    }
    loop
        invariant
            p <= days@.len(),
            whole == weekly_days(split_all(days@, ','), hour, minute, s@),
            weekly_of(s@) == whole,
            whole == prepend(
                entries@,
                weekly_days(
                    split_all(days@.subrange(p as int, days@.len() as int), ','),
                    hour,
                    minute,
                    s@,
                ),
            ),
        decreases days@.len() - p,
    {
        let ghost rest = days@.subrange(p as int, days@.len() as int);
        // the next separator, or the end
        let mut q = p;
        while q < days.len() && days[q] != ','
            invariant
                p <= q <= days@.len(),
                forall|k: int| p <= k < q ==> days@[k] != ',',
            decreases days@.len() - q,
        {
            q = q + 1;
        }
        proof {
            assert forall|k: int| 0 <= k < q - p implies rest[k] != ',' by {
                assert(rest[k] == days@[p + k]);
            }
            if q < days@.len() {
                assert(rest[q - p] == days@[q as int]);
            }
            lemma_first_index_is(rest, ',', q - p);
            assert(rest.subrange(0, q - p) =~= days@.subrange(p as int, q as int));
        }
        let ghost pieces = split_all(rest, ',');
        assert(pieces[0] == days@.subrange(p as int, q as int));
        let (a, b) = trim_bounds(&days, p, q);
        if a == b {
            return Err(quoted_after("--weekly 星期列表里有空项: ", s));
        }
        let piece = slice_vec(&days, a, b);
        let piece_s = string_of_chars(&piece);
        let w = match parse_weekday(piece_s.as_str()) {
            Ok(w) => w,
            Err(e) => {
                return Err(e);
            },
        };
        let ghost e = CalendarEntry { minute, hour, weekday: Some(w), day: None };
        assert(trim(pieces[0]) == piece@);
        assert(weekly_days(pieces, hour, minute, s@) == prepend(
            seq![e],
            weekly_days(pieces.drop_first(), hour, minute, s@),
        ));
        let ghost old_entries = entries@;
        assert(whole == prepend(old_entries, weekly_days(pieces, hour, minute, s@)));
        entries.push(CalendarEntry { minute, hour, weekday: Some(w), day: None });
        proof {
            lemma_prepend_assoc(
                old_entries,
                seq![e],
                weekly_days(pieces.drop_first(), hour, minute, s@),
            );
            assert(old_entries + seq![e] =~= entries@);
            assert(whole == prepend(entries@, weekly_days(pieces.drop_first(), hour, minute, s@)));
        }
        if q >= days.len() {
            assert(pieces == seq![rest]);
            assert(pieces.drop_first().len() == 0);
            assert(entries@ + Seq::<CalendarEntry>::empty() =~= entries@);
            return Ok(entries);
        }
        assert(pieces.drop_first() == split_all(days@.subrange(q + 1, days@.len() as int), ',')) by {
            assert(rest.subrange(q - p + 1, rest.len() as int) =~= days@.subrange(
                q + 1,
                days@.len() as int,
            ));
            assert(pieces =~= seq![rest.subrange(0, q - p)] + split_all(
                rest.subrange(q - p + 1, rest.len() as int),
                ',',
            ));
        }
        p = q + 1;
    }
}

/// What one `--monthly` value parses to.
pub open spec fn monthly_of(s: Seq<char>) -> Result<CalendarEntry, Seq<char>> {
    match split_once(s, '@') {
        None => Err("--monthly 格式错误: "@ + debug_text(s) + "，期望 15@HH:MM"@),
        Some((day, time)) => match parses_u8(day) {
            None => Err("--monthly 日期不是数字: "@ + debug_text(s)),
            Some(d) => if !(1 <= d && d <= 31) {
                Err("--monthly 日期必须在 1-31: "@ + debug_text(s))
            } else {
                match hhmm_of(time) {
                    Err(e) => Err(e),
                    Ok((hour, minute)) => Ok(
                        CalendarEntry { minute, hour, weekday: None, day: Some(d) },
                    ),
                }
            },
        },
    }
}

/// Parses `day@HH:MM`.
pub fn parse_monthly(s: &str) -> (r: Result<CalendarEntry, String>)
    ensures
        match r {
            Ok(e) => monthly_of(s@) == Ok::<CalendarEntry, Seq<char>>(e),
            Err(m) => monthly_of(s@) == Err::<CalendarEntry, Seq<char>>(m@),
        },
{
    let v = chars_of(s);
    let at = match find_char(&v, '@') {
        Some(i) => i,
        None => {
            return Err(quoted_message("--monthly 格式错误: ", s, "，期望 15@HH:MM"));
        },
    };
    proof {
        lemma_first_index(v@, '@');
    }
    let day_v = slice_vec(&v, 0, at);
    assert(at < v.len());
    let time_v = slice_vec(&v, at + 1, v.len());
    let day = match parse_u8(&day_v) {
        Some(d) => d,
        None => {
            return Err(quoted_after("--monthly 日期不是数字: ", s));
        },
    };
    if !(1 <= day && day <= 31) {
        return Err(quoted_after("--monthly 日期必须在 1-31: ", s));
    }
    let time = string_of_chars(&time_v);
    let (hour, minute) = match parse_hhmm(time.as_str()) {
        Ok(hm) => hm,
        Err(e) => {
            return Err(e);
        },
    };
    Ok(CalendarEntry { minute, hour, weekday: None, day: Some(day) })
}

} // verus!

verus! {

// ---------------------------------------------------------------------------
// Picking the trigger
// ---------------------------------------------------------------------------

/// One daily entry per `HH:MM`, or the first one's complaint.
pub open spec fn daily_entries(ds: Seq<Seq<char>>) -> Result<Seq<CalendarEntry>, Seq<char>>
    decreases ds.len(),
{
    if ds.len() == 0 {
        Ok(Seq::empty())
    } else {
        match hhmm_of(ds[0]) {
            Err(e) => Err(e),
            Ok((hour, minute)) => prepend(
                seq![CalendarEntry { minute, hour, weekday: None, day: None }],
                daily_entries(ds.drop_first()),
            ),
        }
    }
}

/// The entries of every `--weekly` value in order, or the first complaint.
pub open spec fn weekly_entries(ws: Seq<Seq<char>>) -> Result<Seq<CalendarEntry>, Seq<char>>
    decreases ws.len(),
{
    if ws.len() == 0 {
        Ok(Seq::empty())
    } else {
        match weekly_of(ws[0]) {
            Err(e) => Err(e),
            Ok(es) => prepend(es, weekly_entries(ws.drop_first())),
        }
    }
}

/// One entry per `--monthly` value, or the first complaint.
pub open spec fn monthly_entries(ms: Seq<Seq<char>>) -> Result<Seq<CalendarEntry>, Seq<char>>
    decreases ms.len(),
{
    if ms.len() == 0 {
        Ok(Seq::empty())
    } else {
        match monthly_of(ms[0]) {
            Err(e) => Err(e),
            Ok(entry) => prepend(seq![entry], monthly_entries(ms.drop_first())),
        }
    }
}

/// A calendar trigger from parsed entries.
pub open spec fn calendar(r: Result<Seq<CalendarEntry>, Seq<char>>) -> Result<
    TriggerModel,
    Seq<char>,
> {
    match r {
        Ok(es) => Ok(TriggerModel::Calendar(es)),
        Err(e) => Err(e),
    }
}

/// The message when no trigger flag is set.
pub open spec fn no_trigger_message() -> Seq<char> {
    "必须指定一种触发方式：--at-login / --every / --daily / --weekly / --monthly / --manual"@
}

/// The trigger the flags select, or the message why they do not: the first
/// set flag wins, in the order `--at-login`, `--manual`, `--every`,
/// `--daily`, `--weekly`, `--monthly`.
pub open spec fn trigger_of(a: TriggerArgs) -> Result<TriggerModel, Seq<char>> {
    if a.at_login {
        Ok(TriggerModel::AtLogin)
    } else if a.manual {
        Ok(TriggerModel::Manual)
    } else if a.every is Some {
        match duration_result(a.every->0@) {
            Ok(v) => Ok(TriggerModel::Interval(v)),
            Err(m) => Err(m),
        }
    } else if a.daily@.len() > 0 {
        calendar(daily_entries(texts(a.daily@)))
    } else if a.weekly@.len() > 0 {
        calendar(weekly_entries(texts(a.weekly@)))
    } else if a.monthly@.len() > 0 {
        calendar(monthly_entries(texts(a.monthly@)))
    } else {
        Err(no_trigger_message())
    }
}

fn daily_list(ds: &Vec<String>) -> (r: Result<Vec<CalendarEntry>, String>)
    ensures
        match r {
            Ok(es) => daily_entries(texts(ds@)) == Ok::<Seq<CalendarEntry>, Seq<char>>(es@),
            Err(m) => daily_entries(texts(ds@)) == Err::<Seq<CalendarEntry>, Seq<char>>(m@),
        },
{
    let ghost all = texts(ds@);
    let mut entries: Vec<CalendarEntry> = Vec::new();
    let mut i: usize = 0;
    assert(all.subrange(0, all.len() as int) =~= all);
    proof {
        match daily_entries(all) {
            Ok(x) => {
                assert(entries@ + x =~= x);
            },
            Err(_) => {},
        }
    }
    while i < ds.len()
        invariant
            i <= ds@.len(),
            all == texts(ds@),
            daily_entries(all) == prepend(
                entries@,
                daily_entries(all.subrange(i as int, all.len() as int)),
            ),
        decreases ds@.len() - i,
    {
        let ghost rest = all.subrange(i as int, all.len() as int);
        assert(rest[0] == ds@[i as int]@);
        let (hour, minute) = match parse_hhmm(ds[i].as_str()) {
            Ok(hm) => hm,
            Err(e) => {
                return Err(e);
            },
        };
        let ghost e = CalendarEntry { minute, hour, weekday: None, day: None };
        let ghost old_entries = entries@;
        entries.push(CalendarEntry::daily(hour, minute));
        proof {
            lemma_prepend_assoc(old_entries, seq![e], daily_entries(rest.drop_first()));
            assert(old_entries + seq![e] =~= entries@);
            assert(rest.drop_first() =~= all.subrange(i + 1, all.len() as int));
        }
        i = i + 1;
    }
    proof {
        assert(all.subrange(i as int, all.len() as int).len() == 0);
        assert(entries@ + Seq::<CalendarEntry>::empty() =~= entries@);
    }
    Ok(entries)
}

fn weekly_list(ws: &Vec<String>) -> (r: Result<Vec<CalendarEntry>, String>)
    ensures
        match r {
            Ok(es) => weekly_entries(texts(ws@)) == Ok::<Seq<CalendarEntry>, Seq<char>>(es@),
            Err(m) => weekly_entries(texts(ws@)) == Err::<Seq<CalendarEntry>, Seq<char>>(m@),
        },
{
    let ghost all = texts(ws@);
    let mut entries: Vec<CalendarEntry> = Vec::new();
    let mut i: usize = 0;
    assert(all.subrange(0, all.len() as int) =~= all);
    proof {
        match weekly_entries(all) {
            Ok(x) => {
                assert(entries@ + x =~= x);
            },
            Err(_) => {},
        }
    }
    while i < ws.len()
        invariant
            i <= ws@.len(),
            all == texts(ws@),
            weekly_entries(all) == prepend(
                entries@,
                weekly_entries(all.subrange(i as int, all.len() as int)),
            ),
        decreases ws@.len() - i,
    {
        let ghost rest = all.subrange(i as int, all.len() as int);
        assert(rest[0] == ws@[i as int]@);
        let mut more = match parse_weekly(ws[i].as_str()) {
            Ok(es) => es,
            Err(e) => {
                return Err(e);
            },
        };
        let ghost old_entries = entries@;
        let ghost added = more@;
        entries.append(&mut more);
        proof {
            lemma_prepend_assoc(old_entries, added, weekly_entries(rest.drop_first()));
            assert(old_entries + added =~= entries@);
            assert(rest.drop_first() =~= all.subrange(i + 1, all.len() as int));
        }
        i = i + 1;
    }
    proof {
        assert(all.subrange(i as int, all.len() as int).len() == 0);
        assert(entries@ + Seq::<CalendarEntry>::empty() =~= entries@);
    }
    Ok(entries)
}

fn monthly_list(ms: &Vec<String>) -> (r: Result<Vec<CalendarEntry>, String>)
    ensures
        match r {
            Ok(es) => monthly_entries(texts(ms@)) == Ok::<Seq<CalendarEntry>, Seq<char>>(es@),
            Err(m) => monthly_entries(texts(ms@)) == Err::<Seq<CalendarEntry>, Seq<char>>(m@),
        },
{
    let ghost all = texts(ms@);
    let mut entries: Vec<CalendarEntry> = Vec::new();
    let mut i: usize = 0;
    assert(all.subrange(0, all.len() as int) =~= all);
    proof {
        match monthly_entries(all) {
            Ok(x) => {
                assert(entries@ + x =~= x);
            },
            Err(_) => {},
        }
    }
    while i < ms.len()
        invariant
            i <= ms@.len(),
            all == texts(ms@),
            monthly_entries(all) == prepend(
                entries@,
                monthly_entries(all.subrange(i as int, all.len() as int)),
            ),
        decreases ms@.len() - i,
    {
        let ghost rest = all.subrange(i as int, all.len() as int);
        assert(rest[0] == ms@[i as int]@);
        let entry = match parse_monthly(ms[i].as_str()) {
            Ok(e) => e,
            Err(e) => {
                return Err(e);
            },
        };
        let ghost old_entries = entries@;
        entries.push(entry);
        proof {
            lemma_prepend_assoc(old_entries, seq![entry], monthly_entries(rest.drop_first()));
            assert(old_entries + seq![entry] =~= entries@);
            assert(rest.drop_first() =~= all.subrange(i + 1, all.len() as int));
        }
        i = i + 1;
    }
    proof {
        assert(all.subrange(i as int, all.len() as int).len() == 0);
        assert(entries@ + Seq::<CalendarEntry>::empty() =~= entries@);
    }
    Ok(entries)
}

/// Turns the parsed flags into a [`Trigger`]. The first flag that is set
/// decides, in the order `--at-login`, `--manual`, `--every`, `--daily`,
/// `--weekly`, `--monthly`; with none set the answer is an error.
pub fn trigger_from_args(args: &TriggerArgs) -> (r: Result<Trigger, String>)
    ensures
        match r {
            Ok(t) => trigger_of(*args) == Ok::<TriggerModel, Seq<char>>(t@),
            Err(m) => trigger_of(*args) == Err::<TriggerModel, Seq<char>>(m@),
        },
{
    if args.at_login {
        return Ok(Trigger::AtLogin);
    }
    if args.manual {
        return Ok(Trigger::Manual);
    }
    if let Some(every) = &args.every {
        return match parse_duration(every.as_str()) {
            Ok(seconds) => Ok(Trigger::Interval { seconds }),
            Err(e) => Err(e),
        };
    }
    if args.daily.len() > 0 {
        return match daily_list(&args.daily) {
            Ok(entries) => Ok(Trigger::Calendar { entries }),
            Err(e) => Err(e),
        };
    }
    if args.weekly.len() > 0 {
        return match weekly_list(&args.weekly) {
            Ok(entries) => Ok(Trigger::Calendar { entries }),
            Err(e) => Err(e),
        };
    }
    if args.monthly.len() > 0 {
        return match monthly_list(&args.monthly) {
            Ok(entries) => Ok(Trigger::Calendar { entries }),
            Err(e) => Err(e),
        };
    }
    Err(
        string_of(
            "必须指定一种触发方式：--at-login / --every / --daily / --weekly / --monthly / --manual",
        ),
    )
}

} // verus!

verus! {

proof fn lemma_lead_digits_concat(a: Seq<char>, b: Seq<char>)
    requires
        lead_digits(a) < a.len(),
    ensures
        lead_digits(a + b) == lead_digits(a),
    decreases a.len(),
{
    if a.len() > 0 && is_digit(a[0]) {
        assert((a + b).drop_first() =~= a.drop_first() + b);
        lemma_lead_digits_concat(a.drop_first(), b);
    } else {
        assert((a + b)[0] == a[0]);
    }
}

proof fn lemma_components_grow(s: Seq<char>, acc: nat)
    requires
        components(s, acc) is Ok,
    ensures
        components(s, acc)->Ok_0 >= acc,
    decreases s.len(),
{
    if s.len() > 0 {
        let k = lead_digits(s);
        let n = digits_value(s.subrange(0, k as int));
        let mul = unit_secs(s[k as int])->0;
        lemma_components_grow(s.subrange(k + 1 as int, s.len() as int), acc + n * mul);
    }
}

/// Reading `a` then `b` is reading `b` from where `a` left off.
proof fn lemma_components_concat(a: Seq<char>, b: Seq<char>, acc: nat)
    requires
        components(a, acc) is Ok,
    ensures
        components(a + b, acc) == components(b, components(a, acc)->Ok_0),
    decreases a.len(),
{
    if a.len() == 0 {
        assert(a + b =~= b);
    } else {
        let k = lead_digits(a);
        lemma_lead_digits_concat(a, b);
        let ab = a + b;
        assert(ab.subrange(0, k as int) =~= a.subrange(0, k as int));
        assert(ab[k as int] == a[k as int]);
        let n = digits_value(a.subrange(0, k as int));
        let mul = unit_secs(a[k as int])->0;
        let rest = a.subrange(k + 1 as int, a.len() as int);
        assert(ab.subrange(k + 1 as int, ab.len() as int) =~= rest + b);
        lemma_components_concat(rest, b, acc + n * mul);
    }
}

/// Starting from `acc` instead of zero adds `acc`, as long as the total
/// still fits in 64 bits.
proof fn lemma_components_shift(s: Seq<char>, acc: nat)
    requires
        components(s, 0) is Ok,
        acc + components(s, 0)->Ok_0 <= u64::MAX,
    ensures
        components(s, acc) == Ok::<nat, DurationError>(acc + components(s, 0)->Ok_0),
    decreases s.len(),
{
    if s.len() > 0 {
        let k = lead_digits(s);
        let n = digits_value(s.subrange(0, k as int));
        let mul = unit_secs(s[k as int])->0;
        let rest = s.subrange(k + 1 as int, s.len() as int);
        lemma_components_grow(rest, n * mul);
        lemma_components_shift_general(rest, n * mul, acc);
    }
}

proof fn lemma_components_shift_general(s: Seq<char>, base: nat, extra: nat)
    requires
        components(s, base) is Ok,
        extra + components(s, base)->Ok_0 <= u64::MAX,
    ensures
        components(s, base + extra) == Ok::<nat, DurationError>(extra + components(s, base)->Ok_0),
    decreases s.len(),
{
    if s.len() > 0 {
        let k = lead_digits(s);
        let n = digits_value(s.subrange(0, k as int));
        let mul = unit_secs(s[k as int])->0;
        let rest = s.subrange(k + 1 as int, s.len() as int);
        lemma_components_grow(rest, base + n * mul);
        assert(base + extra + n * mul == (base + n * mul) + extra);
        lemma_components_shift_general(rest, base + n * mul, extra);
    }
}

/// Durations add up: two texts that each parse, glued together in either
/// order, parse to the sum of their totals as long as that fits in 32 bits
/// (`30m` and `1h` give `1h30m` and `30m1h`, both 5400 seconds).
pub proof fn durations_add_up(a: Seq<char>, b: Seq<char>, x: u32, y: u32)
    requires
        duration_result(a) == Ok::<u32, Seq<char>>(x),
        duration_result(b) == Ok::<u32, Seq<char>>(y),
        x + y <= u32::MAX,
    ensures
        duration_result(a + b) == Ok::<u32, Seq<char>>((x + y) as u32),
        duration_result(b + a) == Ok::<u32, Seq<char>>((x + y) as u32),
{
    assert(duration_of(a) == Ok::<u32, DurationError>(x));
    assert(duration_of(b) == Ok::<u32, DurationError>(y));
    lemma_components_concat(a, b, 0);
    lemma_components_shift(b, x as nat);
    lemma_components_concat(b, a, 0);
    lemma_components_shift(a, y as nat);
    assert((a + b).len() > 0);
    assert((b + a).len() > 0);
}

} // verus!

verus! {

/// The exact total of `s` read as `<digits><unit>` pieces (`h`, `m`, `s`),
/// with no bound on any number, or `None` when `s` is not such a sequence.
pub open spec fn exact_total(s: Seq<char>) -> Option<nat>
    decreases s.len(),
{
    if s.len() == 0 {
        Some(0)
    } else {
        let k = lead_digits(s);
        if k == 0 || k >= s.len() {
            None
        } else {
            match unit_secs(s[k as int]) {
                None => None,
                Some(mul) => match exact_total(s.subrange(k + 1 as int, s.len() as int)) {
                    Some(t) => Some(digits_value(s.subrange(0, k as int)) * mul + t),
                    None => None,
                },
            }
        }
    }
}

proof fn lemma_components_exact(s: Seq<char>, acc: nat)
    requires
        acc <= u64::MAX,
    ensures
        (components(s, acc) is Ok) <==> (exact_total(s) is Some && acc + exact_total(s)->0
            <= u64::MAX),
        components(s, acc) is Ok ==> components(s, acc)->Ok_0 == acc + exact_total(s)->0,
    decreases s.len(),
{
    if s.len() > 0 {
        let k = lead_digits(s);
        if k > 0 && k < s.len() {
            let n = digits_value(s.subrange(0, k as int));
            let rest = s.subrange(k + 1 as int, s.len() as int);
            match unit_secs(s[k as int]) {
                Some(mul) => {
                    assert(mul >= 1);
                    assert(n * mul >= n) by (nonlinear_arith)
                        requires
                            mul >= 1,
                    ;
                    if n > u64::MAX {
                        assert(components(s, acc) is Err);
                        if exact_total(s) is Some {
                            assert(exact_total(s)->0 >= n * mul);
                        }
                    } else if acc + n * mul > u64::MAX {
                        assert(components(s, acc) is Err);
                        if exact_total(s) is Some {
                            assert(exact_total(s)->0 >= n * mul);
                        }
                    } else {
                        lemma_components_exact(rest, acc + n * mul);
                        assert(components(s, acc) == components(rest, acc + n * mul));
                        if exact_total(rest) is Some {
                            assert(exact_total(s)->0 == n * mul + exact_total(rest)->0);
                        }
                    }
                },
                None => {
                    assert(components(s, acc) is Err);
                },
            }
        }
    }
}

/// `parse_duration` succeeds exactly on a non-empty sequence of
/// `<digits><unit>` pieces whose exact total is between 1 and `u32::MAX`,
/// and then answers that total: the 64-bit checks on the way never refuse
/// a duration that fits.
pub proof fn a_duration_is_its_exact_total(s: Seq<char>)
    ensures
        (duration_result(s) is Ok) <==> (s.len() > 0 && exact_total(s) is Some && 0
            < exact_total(s)->0 <= u32::MAX),
        duration_result(s) is Ok ==> duration_result(s)->Ok_0 == exact_total(s)->0,
{
    lemma_components_exact(s, 0);
}

/// The week as launchd numbers it, from Sunday.
pub open spec fn week() -> Seq<Seq<char>> {
    seq!["sun"@, "mon"@, "tue"@, "wed"@, "thu"@, "fri"@, "sat"@]
}

/// A day's three-letter name, in any case, parses to its place in the week
/// counted from Sunday as 0, the number launchd uses for it: the name and
/// that number written as a digit parse to the same weekday.
pub proof fn a_day_name_is_its_place_in_the_week(s: Seq<char>, k: int)
    requires
        0 <= k < 7,
        lower_seq(s) == week()[k],
    ensures
        weekday_of(s) == Ok::<u8, Seq<char>>(k as u8),
        weekday_of(s) == weekday_of(seq![digit_char(k as nat)]),
{
    reveal_strlit("sun");
    reveal_strlit("mon");
    reveal_strlit("tue");
    reveal_strlit("wed");
    reveal_strlit("thu");
    reveal_strlit("fri");
    reveal_strlit("sat");
    let w = week();
    assert(w[0] == "sun"@ && w[1] == "mon"@ && w[2] == "tue"@ && w[3] == "wed"@ && w[4] == "thu"@
        && w[5] == "fri"@ && w[6] == "sat"@);
    let l = lower_seq(s);
    let names = seq!['s', 'm', 't', 'w', 't', 'f', 's'];
    let seconds = seq!['u', 'o', 'u', 'e', 'h', 'r', 'a'];
    assert(l[0] == names[k] && l[1] == seconds[k]);
    assert forall|i: int| 0 <= i < k implies l != #[trigger] w[i] by {
        assert(w[i][0] == names[i] && w[i][1] == seconds[i]);
        assert(l[0] != w[i][0] || l[1] != w[i][1]);
    }
    if k > 0 {
        assert(l != w[0]);
    }
    if k > 1 {
        assert(l != w[1]);
    }
    if k > 2 {
        assert(l != w[2]);
    }
    if k > 3 {
        assert(l != w[3]);
    }
    if k > 4 {
        assert(l != w[4]);
    }
    if k > 5 {
        assert(l != w[5]);
    }
    let d = seq![digit_char(k as nat)];
    assert(digit_char(k as nat) as int == k + 48);
    assert(lower(d[0]) == d[0]);
    assert(lower_seq(d) =~= d);
    assert(d.len() == 1);
    assert(all_digits(d));
    assert(d.drop_last() =~= Seq::<char>::empty());
    assert(d.last() == d[0]);
    assert(digits_value(Seq::<char>::empty()) == 0);
    assert(digits_value(d) == digit_value(d[0]));
    assert(digit_value(d[0]) == k);
    assert(unsigned_value(d) == Some(k as nat));
}

/// launchd's weekday numbers are taken as they are, `0` to `7` (both ends
/// Sunday), and nothing that parses is outside that range.
pub proof fn weekday_numbers_stand_for_themselves(s: Seq<char>, k: nat)
    requires
        k <= 7,
    ensures
        weekday_of(seq![digit_char(k)]) == Ok::<u8, Seq<char>>(k as u8),
        weekday_of(s) matches Ok(w) ==> w <= 7,
{
    reveal_strlit("sun");
    reveal_strlit("mon");
    reveal_strlit("tue");
    reveal_strlit("wed");
    reveal_strlit("thu");
    reveal_strlit("fri");
    reveal_strlit("sat");
    let d = seq![digit_char(k)];
    assert(digit_char(k) as int == k + 48);
    assert(lower(d[0]) == d[0]);
    assert(lower_seq(d) =~= d);
    assert(all_digits(d));
    assert(d.drop_last() =~= Seq::<char>::empty());
    assert(d.last() == d[0]);
    assert(digits_value(Seq::<char>::empty()) == 0);
    assert(digits_value(d) == digit_value(d[0]));
    assert(unsigned_value(d) == Some(k));
}

} // verus!
