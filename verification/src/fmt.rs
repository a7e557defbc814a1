//! Small formatting helpers for the command line: fixed-width tables, run
//! durations and exit codes, service uptimes.

use vstd::prelude::*;

use crate::i18n::{line_piece, lines_of};
use crate::model::Run;
use crate::text::{
    chars_of, chars_of_string, dec, int_text, is_ws, lemma_trim_end_is, pad2, push_char,
    push_chars, push_i64, push_pad2, push_u64, string_of, trim_end,
};
use crate::trigger_args::{lemma_split_concat, lemma_split_one, split_all};

verus! {

// ---------------------------------------------------------------------------
// Durations, exit codes, uptimes
// ---------------------------------------------------------------------------

/// Whole seconds from `started` to `finished` (milliseconds), never negative.
pub open spec fn elapsed_secs(started: i64, finished: i64) -> nat {
    let d = finished - started;
    if d <= 0 {
        0
    } else {
        (d / 1000) as nat
    }
}

/// `12s` below a minute, `3m12s` from a minute on.
pub open spec fn duration_text(secs: nat) -> Seq<char> {
    if secs >= 60 {
        dec(secs / 60) + seq!['m'] + dec(secs % 60) + seq!['s']
    } else {
        dec(secs) + seq!['s']
    }
}

/// `finished_at - started_at` as `12s` / `3m12s`, or `运行中` while it has
/// not finished.
pub fn duration(run: &Run) -> (r: String)
    ensures
        r@ == match run.finished_at_ms {
            None => "运行中"@,
            Some(f) => duration_text(elapsed_secs(run.started_at_ms, f)),
        },
{
    match run.finished_at_ms {
        None => string_of("运行中"),
        Some(finished) => {
            let d: i128 = finished as i128 - run.started_at_ms as i128;
            let secs: u64 = if d <= 0 {
                0
            } else {
                (d / 1000) as u64
            };
            let mut s = String::new();
            if secs >= 60 {
                push_u64(&mut s, secs / 60);
                push_char(&mut s, 'm');
                push_u64(&mut s, secs % 60);
                push_char(&mut s, 's');
            } else {
                push_u64(&mut s, secs);
                push_char(&mut s, 's');
            }
            assert(s@ =~= duration_text(elapsed_secs(run.started_at_ms, finished)));
            s
        },
    }
}

/// `-` while running, the exit code once finished, `signal` when a signal
/// ended it.
pub open spec fn exit_code_text(run: Run) -> Seq<char> {
    match (run.finished_at_ms, run.exit_code) {
        (None, _) => "-"@,
        (Some(_), Some(code)) => int_text(code as int),
        (Some(_), None) => "signal"@,
    }
}

/// `0` / `-` / `signal` describing how a run ended.
pub fn exit_code(run: &Run) -> (r: String)
    ensures
        r@ == exit_code_text(*run),
{
    match (run.finished_at_ms, run.exit_code) {
        (None, _) => string_of("-"),
        (Some(_), Some(code)) => {
            let mut s = String::new();
            push_i64(&mut s, code as i64);
            assert(s@ =~= int_text(code as int));
            s
        },
        (Some(_), None) => string_of("signal"),
    }
}

/// `45s` / `12m03s` / `3h07m` / `2d04h`, for a non-negative number of
/// seconds.
pub open spec fn uptime_text(s: nat) -> Seq<char> {
    if s < 60 {
        dec(s) + seq!['s']
    } else if s < 3600 {
        dec(s / 60) + seq!['m'] + pad2(s % 60) + seq!['s']
    } else if s < 86400 {
        dec(s / 3600) + seq!['h'] + pad2((s % 3600) / 60) + seq!['m']
    } else {
        dec(s / 86400) + seq!['d'] + pad2((s % 86400) / 3600) + seq!['h']
    }
}

/// A service's uptime as `45s` / `12m03s` / `3h07m` / `2d04h`; a negative
/// count reads as `0s`.
pub fn uptime(secs: i64) -> (r: String)
    ensures
        r@ == uptime_text(if secs < 0 { 0 } else { secs as nat }),
{
    let s: u64 = if secs < 0 {
        0
    } else {
        secs as u64
    };
    let mut out = String::new();
    if s < 60 {
        push_u64(&mut out, s);
        push_char(&mut out, 's');
    } else if s < 3600 {
        push_u64(&mut out, s / 60);
        push_char(&mut out, 'm');
        push_pad2(&mut out, s % 60);
        push_char(&mut out, 's');
    } else if s < 86400 {
        push_u64(&mut out, s / 3600);
        push_char(&mut out, 'h');
        push_pad2(&mut out, (s % 3600) / 60);
        push_char(&mut out, 'm');
    } else {
        push_u64(&mut out, s / 86400);
        push_char(&mut out, 'd');
        push_pad2(&mut out, (s % 86400) / 3600);
        push_char(&mut out, 'h');
    }
    assert(out@ =~= uptime_text(s as nat));
    out
}

// ---------------------------------------------------------------------------
// Tables
// ---------------------------------------------------------------------------

/// East-Asian characters that take two terminal columns.
pub open spec fn wide(c: char) -> bool {
    let u = c as u32;
    ||| (0x1100 <= u && u <= 0x115F)
    ||| (0x2E80 <= u && u <= 0xA4CF)
    ||| (0xAC00 <= u && u <= 0xD7A3)
    ||| (0xF900 <= u && u <= 0xFAFF)
    ||| (0xFF00 <= u && u <= 0xFF60)
    ||| (0xFFE0 <= u && u <= 0xFFE6)
}

/// Columns one character takes.
pub open spec fn char_width(c: char) -> nat {
    if wide(c) {
        2
    } else {
        1
    }
}

/// Columns a text takes.
pub open spec fn width(s: Seq<char>) -> nat
    decreases s.len(),
{
    if s.len() == 0 {
        0
    } else {
        width(s.drop_last()) + char_width(s.last())
    }
}

/// `n` spaces.
pub open spec fn spaces(n: nat) -> Seq<char> {
    Seq::new(n, |i: int| ' ')
}

/// `s`, padded with spaces on the right to `w` columns.
pub open spec fn padded(s: Seq<char>, w: nat) -> Seq<char> {
    if width(s) >= w {
        s
    } else {
        s + spaces((w - width(s)) as nat)
    }
}

/// The parts, separated by `sep`.
pub open spec fn join(parts: Seq<Seq<char>>, sep: Seq<char>) -> Seq<char>
    decreases parts.len(),
{
    if parts.len() == 0 {
        Seq::empty()
    } else if parts.len() == 1 {
        parts[0]
    } else {
        join(parts.drop_last(), sep) + sep + parts.last()
    }
}

/// The width of column `i`, `0` past the last one.
pub open spec fn width_at(widths: Seq<nat>, i: int) -> nat {
    if 0 <= i < widths.len() {
        widths[i]
    } else {
        0
    }
}

/// One rendered line: each cell padded to its column, two spaces between
/// cells, trailing whitespace removed.
pub open spec fn row_text(cells: Seq<Seq<char>>, widths: Seq<nat>) -> Seq<char> {
    trim_end(join(Seq::new(cells.len(), |i: int| padded(cells[i], width_at(widths, i))), "  "@))
}

/// The width of column `i`: its header, or the widest cell below it.
pub open spec fn column_width(headers: Seq<Seq<char>>, rows: Seq<Seq<Seq<char>>>, i: int) -> nat
    decreases rows.len(),
{
    if rows.len() == 0 {
        width(headers[i])
    } else {
        let above = column_width(headers, rows.drop_last(), i);
        let cell = if i < rows.last().len() {
            width(rows.last()[i])
        } else {
            0
        };
        if above >= cell {
            above
        } else {
            cell
        }
    }
}

/// Every column's width.
pub open spec fn column_widths(headers: Seq<Seq<char>>, rows: Seq<Seq<Seq<char>>>) -> Seq<nat> {
    Seq::new(headers.len(), |i: int| column_width(headers, rows, i))
}

/// The rows, one line each.
pub open spec fn rows_text(rows: Seq<Seq<Seq<char>>>, widths: Seq<nat>) -> Seq<char>
    decreases rows.len(),
{
    if rows.len() == 0 {
        Seq::empty()
    } else {
        rows_text(rows.drop_last(), widths) + row_text(rows.last(), widths) + seq!['\n']
    }
}

/// The whole table: the header line, then one line per row.
pub open spec fn table_text(headers: Seq<Seq<char>>, rows: Seq<Seq<Seq<char>>>) -> Seq<char> {
    let ws = column_widths(headers, rows);
    row_text(headers, ws) + seq!['\n'] + rows_text(rows, ws)
}

/// The texts of a row of cells.
pub open spec fn cells_of(row: Vec<String>) -> Seq<Seq<char>> {
    row@.map_values(|c: String| c@)
}

/// The texts of every row.
pub open spec fn rows_of(rows: Seq<Vec<String>>) -> Seq<Seq<Seq<char>>> {
    rows.map_values(|r: Vec<String>| cells_of(r))
}

/// The texts of the headers.
pub open spec fn headers_of(headers: Seq<&str>) -> Seq<Seq<char>> {
    headers.map_values(|h: &str| h@)
}

/// Texts short enough to be measured in a `usize`: every text in memory is.
pub open spec fn measurable(s: Seq<char>) -> bool {
    s.len() <= usize::MAX / 2
}

proof fn lemma_width_bound(s: Seq<char>)
    ensures
        width(s) <= 2 * s.len(),
    decreases s.len(),
{
    if s.len() > 0 {
        lemma_width_bound(s.drop_last());
    }
}

fn is_wide(c: char) -> (b: bool)
    ensures
        b == wide(c),
{
    let cp = c as u32;
    (0x1100 <= cp && cp <= 0x115F) || (0x2E80 <= cp && cp <= 0xA4CF) || (0xAC00 <= cp && cp
        <= 0xD7A3) || (0xF900 <= cp && cp <= 0xFAFF) || (0xFF00 <= cp && cp <= 0xFF60) || (0xFFE0
        <= cp && cp <= 0xFFE6)
}

/// East-Asian characters roughly take two terminal columns; good enough for
/// aligning a table that mixes ASCII and Chinese.
fn display_width(s: &Vec<char>) -> (w: usize)
    requires
        measurable(s@),
    ensures
        w == width(s@),
{
    let mut w: usize = 0;
    let mut i: usize = 0;
    while i < s.len()
        invariant
            i <= s@.len(),
            measurable(s@),
            w == width(s@.subrange(0, i as int)),
        decreases s@.len() - i,
    {
        proof {
            lemma_width_bound(s@.subrange(0, i + 1));
            assert(s@.subrange(0, i + 1).drop_last() =~= s@.subrange(0, i as int));
        }
        w = w + if is_wide(s[i]) {
            2
        } else {
            1
        };
        i = i + 1;
    }
    assert(s@.subrange(0, s@.len() as int) =~= s@);
    w
}

/// `s` padded with spaces to `width` columns.
fn pad(s: &Vec<char>, width: usize) -> (r: Vec<char>)
    requires
        measurable(s@),
    ensures
        r@ == padded(s@, width as nat),
{
    let w = display_width(s);
    let mut r = s.clone();
    if w >= width {
        return r;
    }
    let n = width - w;
    let mut k: usize = 0;
    while k < n
        invariant
            k <= n,
            r@ == s@ + spaces(k as nat),
        decreases n - k,
    {
        r.push(' ');
        k = k + 1;
        assert(r@ =~= s@ + spaces(k as nat));
    }
    r
}

/// `s` without trailing whitespace.
fn trimmed_end(s: &Vec<char>) -> (r: Vec<char>)
    ensures
        r@ == trim_end(s@),
{
    let mut b = s.len();
    while b > 0 && crate::text::is_whitespace(s[b - 1])
        invariant
            b <= s@.len(),
            forall|j: int| b <= j < s@.len() ==> is_ws(#[trigger] s@[j]),
        decreases b,
    {
        b = b - 1;
    }
    proof {
        lemma_trim_end_is(s@, b as int);
    }
    crate::text::slice_vec(s, 0, b)
}

/// Renders one line of the table.
fn render_row(cells: &Vec<Vec<char>>, widths: &Vec<usize>) -> (r: Vec<char>)
    requires
        forall|i: int| 0 <= i < cells@.len() ==> measurable(#[trigger] cells@[i]@),
    ensures
        r@ == row_text(cells@.map_values(|c: Vec<char>| c@), widths@.map_values(|w: usize| w as nat)),
{
    let ghost cs = cells@.map_values(|c: Vec<char>| c@);
    let ghost ws = widths@.map_values(|w: usize| w as nat);
    let ghost parts = Seq::new(cs.len(), |i: int| padded(cs[i], width_at(ws, i)));
    let mut joined: Vec<char> = Vec::new();
    let mut i: usize = 0;
    while i < cells.len()
        invariant
            i <= cells@.len(),
            cs == cells@.map_values(|c: Vec<char>| c@),
            ws == widths@.map_values(|w: usize| w as nat),
            parts == Seq::new(cs.len(), |i: int| padded(cs[i], width_at(ws, i))),
            forall|i: int| 0 <= i < cells@.len() ==> measurable(#[trigger] cells@[i]@),
            joined@ == join(parts.subrange(0, i as int), "  "@),
        decreases cells@.len() - i,
    {
        let w: usize = if i < widths.len() {
            widths[i]
        } else {
            0
        };
        assert(w as nat == width_at(ws, i as int));
        let p = pad(&cells[i], w);
        assert(p@ == parts[i as int]);
        if i > 0 {
            let sep = chars_of("  ");
            let mut k: usize = 0;
            let ghost before = joined@;
            while k < sep.len()
                invariant
                    k <= sep@.len(),
                    joined@ == before + sep@.subrange(0, k as int),
                decreases sep@.len() - k,
            {
                joined.push(sep[k]);
                k = k + 1;
                assert(joined@ =~= before + sep@.subrange(0, k as int));
            }
            assert(sep@.subrange(0, sep@.len() as int) =~= sep@);
        }
        let ghost before2 = joined@;
        let mut k: usize = 0;
        while k < p.len()
            invariant
                k <= p@.len(),
                joined@ == before2 + p@.subrange(0, k as int),
            decreases p@.len() - k,
        {
            joined.push(p[k]);
            k = k + 1;
            assert(joined@ =~= before2 + p@.subrange(0, k as int));
        }
        proof {
            assert(p@.subrange(0, p@.len() as int) =~= p@);
            let t = parts.subrange(0, i + 1);
            assert(t.drop_last() =~= parts.subrange(0, i as int));
            if i == 0 {
                assert(joined@ =~= t[0]);
            }
        }
        i = i + 1;
    }
    assert(parts.subrange(0, cells@.len() as int) =~= parts);
    trimmed_end(&joined)
}

/// Renders a simple fixed-width table: `headers` plus `rows`, columns
/// left-aligned and padded to the widest cell (counting East-Asian
/// characters as two columns), one line per row, each ending in a newline.
pub fn table(headers: &[&str], rows: &[Vec<String>]) -> (out: String)
    requires
        forall|i: int| 0 <= i < headers@.len() ==> measurable(#[trigger] headers@[i]@),
        forall|r: int, i: int|
            0 <= r < rows@.len() && 0 <= i < rows@[r]@.len() ==> measurable(
                #[trigger] rows@[r]@[i]@,
            ),
    ensures
        out@ == table_text(headers_of(headers@), rows_of(rows@)),
{
    let ghost hs = headers_of(headers@);
    let ghost rs = rows_of(rows@);
    let ncols = headers.len();
    // header cells as characters
    let mut hcells: Vec<Vec<char>> = Vec::new();
    let mut widths: Vec<usize> = Vec::new();
    let mut i: usize = 0;
    while i < ncols
        invariant
            i <= ncols == headers@.len(),
            hs == headers_of(headers@),
            forall|i: int| 0 <= i < headers@.len() ==> measurable(#[trigger] headers@[i]@),
            hcells@.len() == i,
            widths@.len() == i,
            forall|j: int| 0 <= j < i ==> (#[trigger] hcells@[j])@ == hs[j],
            forall|j: int| 0 <= j < i ==> #[trigger] widths@[j] == width(hs[j]),
        decreases ncols - i,
    {
        let h = chars_of(headers[i]);
        let w = display_width(&h);
        hcells.push(h);
        widths.push(w);
        i = i + 1;
    }
    // widen each column to its widest cell
    let mut r: usize = 0;
    while r < rows.len()
        invariant
            r <= rows@.len(),
            ncols == headers@.len() == hs.len(),
            hs == headers_of(headers@),
            rs == rows_of(rows@),
            widths@.len() == ncols,
            forall|r: int, i: int|
                0 <= r < rows@.len() && 0 <= i < rows@[r]@.len() ==> measurable(
                    #[trigger] rows@[r]@[i]@,
                ),
            forall|j: int|
                0 <= j < ncols ==> #[trigger] widths@[j] == column_width(
                    hs,
                    rs.subrange(0, r as int),
                    j,
                ),
        decreases rows@.len() - r,
    {
        let row = &rows[r];
        let ghost old_widths = widths@;
        let mut c: usize = 0;
        while c < ncols && c < row.len()
            invariant
                c <= ncols,
                c <= row@.len(),
                r < rows@.len(),
                widths@.len() == ncols,
                row == rows@[r as int],
                forall|i: int| 0 <= i < row@.len() ==> measurable(#[trigger] row@[i]@),
                forall|j: int| c <= j < ncols ==> #[trigger] widths@[j] == old_widths[j],
                forall|j: int|
                    0 <= j < c ==> #[trigger] widths@[j] == (if old_widths[j] >= width(
                        row@[j]@,
                    ) {
                        old_widths[j] as nat
                    } else {
                        width(row@[j]@)
                    }),
            decreases ncols - c,
        {
            let cell = chars_of_string(&row[c]);
            let w = display_width(&cell);
            if w > widths[c] {
                widths.set(c, w);
            }
            c = c + 1;
        }
        proof {
            let t = rs.subrange(0, r + 1);
            assert(t.drop_last() =~= rs.subrange(0, r as int));
            assert(t.last() == cells_of(rows@[r as int]));
            assert forall|j: int| 0 <= j < ncols implies #[trigger] widths@[j] == column_width(
                hs,
                t,
                j,
            ) by {
                assert(old_widths[j] == column_width(hs, rs.subrange(0, r as int), j));
                assert(t.last().len() == row@.len());
                if j < row@.len() {
                    assert(t.last()[j] == row@[j]@);
                    assert(j < c);
                } else {
                    assert(widths@[j] == old_widths[j]);
                }
            }
        }
        r = r + 1;
    }
    assert(rs.subrange(0, rows@.len() as int) =~= rs);
    let ghost ws = column_widths(hs, rs);
    assert(widths@.map_values(|w: usize| w as nat) =~= ws);
    assert(hcells@.map_values(|c: Vec<char>| c@) =~= hs);
    let mut out = String::new();
    let line = render_row(&hcells, &widths);
    push_chars(&mut out, &line);
    push_char(&mut out, '\n');
    let mut r: usize = 0;
    while r < rows.len()
        invariant
            r <= rows@.len(),
            rs == rows_of(rows@),
            ws == widths@.map_values(|w: usize| w as nat),
            forall|r: int, i: int|
                0 <= r < rows@.len() && 0 <= i < rows@[r]@.len() ==> measurable(
                    #[trigger] rows@[r]@[i]@,
                ),
            out@ == row_text(hs, ws) + seq!['\n'] + rows_text(rs.subrange(0, r as int), ws),
        decreases rows@.len() - r,
    {
        let row = &rows[r];
        let mut cells: Vec<Vec<char>> = Vec::new();
        let mut c: usize = 0;
        while c < row.len()
            invariant
                c <= row@.len(),
                r < rows@.len(),
                row == rows@[r as int],
                cells@.len() == c,
                forall|j: int| 0 <= j < c ==> (#[trigger] cells@[j])@ == row@[j]@,
            decreases row@.len() - c,
        {
            cells.push(chars_of_string(&row[c]));
            c = c + 1;
        }
        assert(cells@.map_values(|c: Vec<char>| c@) =~= cells_of(*row));
        assert(forall|i: int| 0 <= i < cells@.len() ==> measurable(#[trigger] cells@[i]@)) by {
            assert forall|i: int| 0 <= i < cells@.len() implies measurable(
                #[trigger] cells@[i]@,
            ) by {
                assert(cells@[i]@ == rows@[r as int]@[i]@);
            }
        }
        let line = render_row(&cells, &widths);
        push_chars(&mut out, &line);
        push_char(&mut out, '\n');
        proof {
            let t = rs.subrange(0, r + 1);
            assert(t.drop_last() =~= rs.subrange(0, r as int));
            assert(t.last() == cells_of(*row));
        }
        r = r + 1;
        assert(out@ =~= row_text(hs, ws) + seq!['\n'] + rows_text(rs.subrange(0, r as int), ws));
    }
    out
}

// ---------------------------------------------------------------------------
// The table's lines
// ---------------------------------------------------------------------------

/// No line break in `s`.
pub open spec fn one_line(s: Seq<char>) -> bool {
    forall|j: int| 0 <= j < s.len() ==> #[trigger] s[j] != '\n'
}

/// The lines a table is made of: the header line, then one per row.
pub open spec fn table_lines(headers: Seq<Seq<char>>, rows: Seq<Seq<Seq<char>>>) -> Seq<Seq<char>> {
    let ws = column_widths(headers, rows);
    seq![row_text(headers, ws)] + Seq::new(rows.len(), |i: int| row_text(rows[i], ws))
}

proof fn lemma_one_line_concat(a: Seq<char>, b: Seq<char>)
    requires
        one_line(a),
        one_line(b),
    ensures
        one_line(a + b),
{
    assert forall|j: int| 0 <= j < (a + b).len() implies #[trigger] (a + b)[j] != '\n' by {
        if j < a.len() {
            assert((a + b)[j] == a[j]);
        } else {
            assert((a + b)[j] == b[j - a.len()]);
        }
    }
}

proof fn lemma_trim_end_shape(s: Seq<char>)
    ensures
        trim_end(s).len() <= s.len(),
        forall|j: int| 0 <= j < trim_end(s).len() ==> #[trigger] trim_end(s)[j] == s[j],
        trim_end(s).len() == 0 || !is_ws(trim_end(s).last()),
    decreases s.len(),
{
    if s.len() > 0 && is_ws(s.last()) {
        lemma_trim_end_shape(s.drop_last());
    }
}

proof fn lemma_join_one_line(parts: Seq<Seq<char>>)
    requires
        forall|i: int| 0 <= i < parts.len() ==> one_line(#[trigger] parts[i]),
    ensures
        one_line(join(parts, "  "@)),
    decreases parts.len(),
{
    if parts.len() == 1 {
        assert(one_line(parts[0]));
    } else if parts.len() > 1 {
        let d = parts.drop_last();
        assert forall|i: int| 0 <= i < d.len() implies one_line(#[trigger] d[i]) by {
            assert(d[i] == parts[i]);
        }
        lemma_join_one_line(d);
        reveal_strlit("  ");
        assert(one_line("  "@));
        assert(one_line(parts[parts.len() - 1]));
        lemma_one_line_concat(join(d, "  "@), "  "@);
        lemma_one_line_concat(join(d, "  "@) + "  "@, parts.last());
    }
}

proof fn lemma_row_one_line(cells: Seq<Seq<char>>, ws: Seq<nat>)
    requires
        forall|i: int| 0 <= i < cells.len() ==> one_line(#[trigger] cells[i]),
    ensures
        one_line(row_text(cells, ws)),
        row_text(cells, ws).len() == 0 || !is_ws(row_text(cells, ws).last()),
{
    let parts = Seq::new(cells.len(), |i: int| padded(cells[i], width_at(ws, i)));
    assert forall|i: int| 0 <= i < parts.len() implies one_line(#[trigger] parts[i]) by {
        let c = cells[i];
        let w = width_at(ws, i);
        if width(c) < w {
            let sp = spaces((w - width(c)) as nat);
            assert(one_line(sp));
            lemma_one_line_concat(c, sp);
        }
    }
    lemma_join_one_line(parts);
    let whole = join(parts, "  "@);
    lemma_trim_end_shape(whole);
    assert forall|j: int| 0 <= j < trim_end(whole).len() implies #[trigger] trim_end(whole)[j] != '\n' by {
        assert(trim_end(whole)[j] == whole[j]);
    }
}

proof fn lemma_table_split(headers: Seq<Seq<char>>, rows: Seq<Seq<Seq<char>>>, ws: Seq<nat>)
    requires
        forall|i: int| 0 <= i < headers.len() ==> one_line(#[trigger] headers[i]),
        forall|r: int, i: int| 0 <= r < rows.len() && 0 <= i < rows[r].len() ==> one_line(#[trigger] rows[r][i]),
    ensures
        split_all(row_text(headers, ws) + seq!['\n'] + rows_text(rows, ws), '\n') == seq![row_text(headers, ws)]
            + Seq::new(rows.len(), |i: int| row_text(rows[i], ws)) + seq![Seq::<char>::empty()],
    decreases rows.len(),
{
    let e = Seq::<char>::empty();
    let h = row_text(headers, ws);
    lemma_row_one_line(headers, ws);
    let t = h + seq!['\n'] + rows_text(rows, ws);
    let want = seq![h] + Seq::new(rows.len(), |i: int| row_text(rows[i], ws)) + seq![e];
    lemma_split_one(e, '\n');
    if rows.len() == 0 {
        assert(t =~= h + seq!['\n'] + e);
        lemma_split_concat(h, e, '\n');
        lemma_split_one(h, '\n');
        assert(split_all(t, '\n') =~= want);
    } else {
        let d = rows.drop_last();
        assert forall|r: int, i: int| 0 <= r < d.len() && 0 <= i < d[r].len() implies one_line(
            #[trigger] d[r][i],
        ) by {
            assert(d[r] == rows[r]);
        }
        lemma_table_split(headers, d, ws);
        let td = h + seq!['\n'] + rows_text(d, ws);
        let q = td.drop_last();
        assert(td =~= q + seq!['\n'] + e) by {
            assert(rows_text(d, ws).len() == 0 || rows_text(d, ws).last() == '\n');
        }
        lemma_split_concat(q, e, '\n');
        let dw = seq![h] + Seq::new(d.len(), |i: int| row_text(d[i], ws));
        assert(split_all(q, '\n') =~= dw) by {
            assert(split_all(td, '\n') == dw + seq![e]);
            assert(split_all(q, '\n') + seq![e] == dw + seq![e]);
            assert(split_all(q, '\n') =~= (split_all(q, '\n') + seq![e]).drop_last());
            assert(dw =~= (dw + seq![e]).drop_last());
        }
        let last = rows[rows.len() - 1];
        assert(last == rows.last());
        assert forall|i: int| 0 <= i < last.len() implies one_line(#[trigger] last[i]) by {
            assert(one_line(rows[rows.len() - 1][i]));
        }
        lemma_row_one_line(last, ws);
        let r = row_text(last, ws);
        assert(t =~= q + seq!['\n'] + (r + seq!['\n'] + e));
        lemma_split_concat(q, r + seq!['\n'] + e, '\n');
        lemma_split_concat(r, e, '\n');
        lemma_split_one(r, '\n');
        assert(split_all(t, '\n') =~= want) by {
            assert(split_all(t, '\n') == dw + (seq![r] + seq![e]));
            assert forall|k: int| 0 <= k < want.len() implies split_all(t, '\n')[k] == want[k] by {
                if 1 <= k < rows.len() {
                    assert(d[k - 1] == rows[k - 1]);
                }
            }
        }
    }
}

/// The table is its lines, one per `\n`: the header line, then one line per
/// row in order, none of them ending in whitespace, as long as no cell
/// holds a line break; so it has one line more than it has rows.
pub proof fn a_table_is_its_header_and_row_lines(headers: Seq<Seq<char>>, rows: Seq<Seq<Seq<char>>>)
    requires
        forall|i: int| 0 <= i < headers.len() ==> one_line(#[trigger] headers[i]),
        forall|r: int, i: int| 0 <= r < rows.len() && 0 <= i < rows[r].len() ==> one_line(#[trigger] rows[r][i]),
    ensures
        lines_of(table_text(headers, rows)) == table_lines(headers, rows),
        lines_of(table_text(headers, rows)).len() == rows.len() + 1,
        forall|k: int|
            0 <= k < table_lines(headers, rows).len() ==> (#[trigger] table_lines(headers, rows)[k]).len() == 0
                || !is_ws(table_lines(headers, rows)[k].last()),
{
    let ws = column_widths(headers, rows);
    lemma_table_split(headers, rows, ws);
    let ls = table_lines(headers, rows);
    let pieces = split_all(table_text(headers, rows), '\n');
    assert(pieces == ls + seq![Seq::<char>::empty()]);
    lemma_row_one_line(headers, ws);
    assert forall|k: int| 0 <= k < ls.len() implies (#[trigger] ls[k]).len() == 0 || !is_ws(ls[k].last()) by {
        if k > 0 {
            let row = rows[k - 1];
            assert forall|i: int| 0 <= i < row.len() implies one_line(#[trigger] row[i]) by {
                assert(one_line(rows[k - 1][i]));
            }
            lemma_row_one_line(row, ws);
        }
    }
    assert(lines_of(table_text(headers, rows)) =~= ls) by {
        assert forall|k: int| 0 <= k < ls.len() implies line_piece(pieces, k) == ls[k] by {
            assert(pieces[k] == ls[k]);
            assert(ls[k].len() == 0 || ls[k].last() != '\r') by {
                assert(is_ws('\r'));
            }
        }
    }
}

/// From a minute on, a duration reads as whole minutes, `m`, the seconds
/// left over (under 60), `s`: the minutes times 60 plus the seconds give back
/// the elapsed seconds, however many hours that is. Below a minute it is
/// just the seconds.
pub proof fn a_duration_reads_back_as_minutes_and_seconds(secs: nat)
    ensures
        secs >= 60 ==> exists|m: nat, s: nat|
            #![trigger dec(m), dec(s)]
            s < 60 && m * 60 + s == secs && duration_text(secs) == dec(m) + seq!['m'] + dec(s)
                + seq!['s'],
        secs < 60 ==> duration_text(secs) == dec(secs) + seq!['s'],
{
    if secs >= 60 {
        let m = secs / 60;
        let s = secs % 60;
        assert(m * 60 + s == secs);
        assert(duration_text(secs) == dec(m) + seq!['m'] + dec(s) + seq!['s']);
    }
}

} // verus!
