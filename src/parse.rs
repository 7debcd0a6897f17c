//! Reading a grid from text: one line per row, cells separated by ASCII
//! whitespace, each cell written `numerator/denominator` in decimal.
use vstd::prelude::*;

use crate::fraction::ProperFraction;
use crate::inventory::grid_view;

verus! {

/// ASCII whitespace as `split_ascii_whitespace` counts it, but for the line
/// break, which ends a row.
pub open spec fn is_blank(b: u8) -> bool {
    b == 0x20 || b == 0x09 || b == 0x0d || b == 0x0c
}

/// An ASCII decimal digit.
pub open spec fn is_digit(b: u8) -> bool {
    0x30 <= b <= 0x39
}

/// The (start, end) of each line of `s`, scanning from `pos` with the current
/// line open since `start`. A line break that ends the text opens no further
/// line.
pub open spec fn line_scan(s: Seq<u8>, start: int, pos: int) -> Seq<(int, int)>
    decreases s.len() - pos,
{
    if pos >= s.len() {
        if start < s.len() {
            seq![(start, s.len() as int)]
        } else {
            Seq::empty()
        }
    } else if s[pos] == 0x0a {
        seq![(start, pos)] + line_scan(s, pos + 1, pos + 1)
    } else {
        line_scan(s, start, pos + 1)
    }
}

/// The (start, end) of each line of `s`.
pub open spec fn line_spans(s: Seq<u8>) -> Seq<(int, int)> {
    line_scan(s, 0, 0)
}

/// The (start, end) of each blank-separated token of `s` before `end`,
/// scanning from `pos` with the current token open since `start`.
pub open spec fn token_scan(s: Seq<u8>, start: int, pos: int, end: int) -> Seq<(int, int)>
    decreases end - pos,
{
    if pos >= end {
        if start < end {
            seq![(start, end)]
        } else {
            Seq::empty()
        }
    } else if is_blank(s[pos]) {
        if start < pos {
            seq![(start, pos)] + token_scan(s, pos + 1, pos + 1, end)
        } else {
            token_scan(s, pos + 1, pos + 1, end)
        }
    } else {
        token_scan(s, start, pos + 1, end)
    }
}

/// The (start, end) of each blank-separated token of `s[a..b]`.
pub open spec fn token_spans(s: Seq<u8>, a: int, b: int) -> Seq<(int, int)> {
    token_scan(s, a, a, b)
}

/// The first `/` in `a..b`, or `b`.
pub open spec fn slash_index(s: Seq<u8>, a: int, b: int) -> int
    decreases b - a,
{
    if a >= b {
        b
    } else if s[a] == 0x2f {
        a
    } else {
        slash_index(s, a + 1, b)
    }
}

/// `s[a..b]` is a nonempty run of decimal digits.
pub open spec fn all_digits(s: Seq<u8>, a: int, b: int) -> bool {
    a < b && forall|i: int| a <= i < b ==> is_digit(#[trigger] s[i])
}

/// The number that the digits `s[a..b]` write in decimal.
pub open spec fn decimal(s: Seq<u8>, a: int, b: int) -> nat
    decreases b - a,
{
    if b <= a {
        0
    } else {
        decimal(s, a, b - 1) * 10 + (s[b - 1] - 0x30) as nat
    }
}

/// The digits `s[a..b]` write a number that fits in a `u64`.
pub open spec fn is_u64_number(s: Seq<u8>, a: int, b: int) -> bool {
    all_digits(s, a, b) && decimal(s, a, b) <= u64::MAX
}

/// The cell that the token `s[a..b]` writes, if it is `digits/digits` with
/// both numbers fitting in a `u64`.
pub open spec fn token_value(s: Seq<u8>, a: int, b: int) -> Option<ProperFraction> {
    let k = slash_index(s, a, b);
    if k < b && is_u64_number(s, a, k) && is_u64_number(s, k + 1, b) {
        Some(
            ProperFraction {
                numerator: decimal(s, a, k) as u64,
                denominator: decimal(s, k + 1, b) as u64,
            },
        )
    } else {
        None
    }
}

/// Why a text is not a grid.
#[derive(Clone, Copy, Debug, PartialEq, Eq, Structural)]
pub enum ParseError {
    /// This token of this line is not `digits/digits` within `u64`.
    BadToken { line: usize, token: usize },
    /// This line does not hold as many cells as the grid has rows.
    WrongTokenCount { line: usize, count: usize },
    /// The text does not hold as many lines as the grid has rows.
    WrongLineCount { count: usize },
}

/// The first of the tokens `toks[j..]` that writes no cell, or `toks.len()`.
pub open spec fn first_bad_token(s: Seq<u8>, toks: Seq<(int, int)>, j: int) -> int
    decreases toks.len() - j,
{
    if j >= toks.len() {
        toks.len() as int
    } else if token_value(s, toks[j].0, toks[j].1) is None {
        j
    } else {
        first_bad_token(s, toks, j + 1)
    }
}

/// What the line `s[a..b]`, the `line`-th, reads as in a grid of `size` rows.
pub open spec fn row_result(s: Seq<u8>, a: int, b: int, line: int, size: int) -> Result<
    Seq<ProperFraction>,
    ParseError,
> {
    let toks = token_spans(s, a, b);
    let bad = first_bad_token(s, toks, 0);
    if bad < toks.len() {
        Err(ParseError::BadToken { line: line as usize, token: bad as usize })
    } else if toks.len() != size {
        Err(ParseError::WrongTokenCount { line: line as usize, count: toks.len() as usize })
    } else {
        Ok(toks.map_values(|t: (int, int)| token_value(s, t.0, t.1).unwrap()))
    }
}

/// The first of the lines `lines[i..]` that reads as no row, or `lines.len()`.
pub open spec fn first_bad_line(s: Seq<u8>, lines: Seq<(int, int)>, i: int, size: int) -> int
    decreases lines.len() - i,
{
    if i >= lines.len() {
        lines.len() as int
    } else if row_result(s, lines[i].0, lines[i].1, i, size) is Err {
        i
    } else {
        first_bad_line(s, lines, i + 1, size)
    }
}

/// What the text `s` reads as: a `size` by `size` grid, or the first error
/// met reading it line by line, token by token, with the line count last.
pub open spec fn parse_result(s: Seq<u8>, size: int) -> Result<Seq<Seq<ProperFraction>>, ParseError> {
    let lines = line_spans(s);
    let bad = first_bad_line(s, lines, 0, size);
    if bad < lines.len() {
        Err(row_result(s, lines[bad].0, lines[bad].1, bad, size)->Err_0)
    } else if lines.len() != size {
        Err(ParseError::WrongLineCount { count: lines.len() as usize })
    } else {
        Ok(
            lines.map_values(
                |l: (int, int)| row_result(s, l.0, l.1, 0, size)->Ok_0,
            ),
        )
    }
}

/// Spans of `usize` bounds as spans of integers.
pub open spec fn spans_view(r: Seq<(usize, usize)>) -> Seq<(int, int)> {
    r.map_values(|p: (usize, usize)| (p.0 as int, p.1 as int))
}

/// The spans of the lines of `s`.
fn split_lines(s: &[u8]) -> (r: Vec<(usize, usize)>)
    ensures
        spans_view(r@) == line_spans(s@),
        forall|i: int| 0 <= i < r@.len() ==> (#[trigger] r@[i]).0 <= r@[i].1 <= s@.len(),
{
    let mut r: Vec<(usize, usize)> = Vec::new();
    let mut start: usize = 0;
    let mut pos: usize = 0;
    while pos < s.len()
        invariant
            start <= pos <= s@.len(),
            spans_view(r@) + line_scan(s@, start as int, pos as int) == line_spans(s@),
            forall|i: int| 0 <= i < r@.len() ==> (#[trigger] r@[i]).0 <= r@[i].1 <= s@.len(),
        decreases s@.len() - pos,
    {
        if s[pos] == 0x0a {
            let ghost before = spans_view(r@);
            r.push((start, pos));
            assert(spans_view(r@) =~= before + seq![(start as int, pos as int)]);
            start = pos + 1;
        }
        pos = pos + 1;
        proof {
            assert(spans_view(r@) + line_scan(s@, start as int, pos as int) =~= line_spans(s@));
        }
    }
    if start < s.len() {
        let ghost before = spans_view(r@);
        r.push((start, s.len()));
        assert(spans_view(r@) =~= before + seq![(start as int, s@.len() as int)]);
    }
    assert(spans_view(r@) =~= line_spans(s@));
    r
}

/// The spans of the blank-separated tokens of `s[a..b]`.
fn split_tokens(s: &[u8], a: usize, b: usize) -> (r: Vec<(usize, usize)>)
    requires
        a <= b <= s@.len(),
    ensures
        spans_view(r@) == token_spans(s@, a as int, b as int),
        forall|i: int| 0 <= i < r@.len() ==> a <= (#[trigger] r@[i]).0 <= r@[i].1 <= b,
{
    let mut r: Vec<(usize, usize)> = Vec::new();
    let mut start: usize = a;
    let mut pos: usize = a;
    while pos < b
        invariant
            a <= start <= pos <= b,
            b <= s@.len(),
            spans_view(r@) + token_scan(s@, start as int, pos as int, b as int) == token_spans(
                s@,
                a as int,
                b as int,
            ),
            forall|i: int| 0 <= i < r@.len() ==> a <= (#[trigger] r@[i]).0 <= r@[i].1 <= b,
        decreases b - pos,
    {
        let c = s[pos];
        if c == 0x20 || c == 0x09 || c == 0x0d || c == 0x0c {
            if start < pos {
                let ghost before = spans_view(r@);
                r.push((start, pos));
                assert(spans_view(r@) =~= before + seq![(start as int, pos as int)]);
            }
            start = pos + 1;
        }
        pos = pos + 1;
        proof {
            assert(spans_view(r@) + token_scan(s@, start as int, pos as int, b as int)
                =~= token_spans(s@, a as int, b as int));
        }
    }
    if start < b {
        let ghost before = spans_view(r@);
        r.push((start, b));
        assert(spans_view(r@) =~= before + seq![(start as int, b as int)]);
    }
    assert(spans_view(r@) =~= token_spans(s@, a as int, b as int));
    r
}

/// A longer run of digits writes a number at least as large.
proof fn lemma_decimal_grows(s: Seq<u8>, a: int, i: int, b: int)
    requires
        a <= i <= b <= s.len(),
        forall|k: int| a <= k < b ==> is_digit(#[trigger] s[k]),
    ensures
        decimal(s, a, i) <= decimal(s, a, b),
    decreases b - i,
{
    if i < b {
        lemma_decimal_grows(s, a, i, b - 1);
    }
}

/// The number that the digits `s[a..b]` write, if they are digits and it
/// fits in a `u64`.
fn parse_number(s: &[u8], a: usize, b: usize) -> (r: Option<u64>)
    requires
        a <= b <= s@.len(),
    ensures
        r == (if is_u64_number(s@, a as int, b as int) {
            Some(decimal(s@, a as int, b as int) as u64)
        } else {
            None::<u64>
        }),
{
    if a == b {
        return None;
    }
    let mut v: u64 = 0;
    let mut i: usize = a;
    while i < b
        invariant
            a <= i <= b <= s@.len(),
            forall|k: int| a <= k < i ==> is_digit(#[trigger] s@[k]),
            v == decimal(s@, a as int, i as int),
        decreases b - i,
    {
        let c = s[i];
        if !(0x30 <= c && c <= 0x39) {
            assert(!all_digits(s@, a as int, b as int));
            return None;
        }
        let d = (c - 0x30) as u64;
        if v > (u64::MAX - d) / 10 {
            proof {
                assert(v * 10 + d > u64::MAX) by (nonlinear_arith)
                    requires
                        v > (u64::MAX - d) / 10,
                        d <= 9,
                ;
                assert(decimal(s@, a as int, i as int + 1) == v * 10 + d);
                if all_digits(s@, a as int, b as int) {
                    lemma_decimal_grows(s@, a as int, i as int + 1, b as int);
                }
            }
            return None;
        }
        proof {
            assert(v * 10 + d <= u64::MAX) by (nonlinear_arith)
                requires
                    v <= (u64::MAX - d) / 10,
                    d <= 9,
            ;
        }
        v = v * 10 + d;
        i = i + 1;
    }
    Some(v)
}

/// The cell that the token `s[a..b]` writes, if any.
fn parse_token(s: &[u8], a: usize, b: usize) -> (r: Option<ProperFraction>)
    requires
        a <= b <= s@.len(),
    ensures
        r == token_value(s@, a as int, b as int),
{
    let mut k: usize = a;
    while k < b && s[k] != 0x2f
        invariant
            a <= k <= b <= s@.len(),
            slash_index(s@, k as int, b as int) == slash_index(s@, a as int, b as int),
        decreases b - k,
    {
        k = k + 1;
    }
    if k == b {
        return None;
    }
    let numerator = parse_number(s, a, k);
    let denominator = parse_number(s, k + 1, b);
    match (numerator, denominator) {
        (Some(n), Some(d)) => Some(ProperFraction { numerator: n, denominator: d }),
        _ => None,
    }
}

/// What the line `s[a..b]`, the `line`-th, reads as in a grid of `size` rows.
fn parse_row(s: &[u8], a: usize, b: usize, line: usize, size: usize) -> (r: Result<
    Vec<ProperFraction>,
    ParseError,
>)
    requires
        a <= b <= s@.len(),
    ensures
        match r {
            Ok(row) => row_result(s@, a as int, b as int, line as int, size as int) == Ok::<
                Seq<ProperFraction>,
                ParseError,
            >(row@),
            Err(e) => row_result(s@, a as int, b as int, line as int, size as int) == Err::<
                Seq<ProperFraction>,
                ParseError,
            >(e),
        },
{
    let toks = split_tokens(s, a, b);
    let ghost ts = token_spans(s@, a as int, b as int);
    let mut row: Vec<ProperFraction> = Vec::new();
    let mut j: usize = 0;
    while j < toks.len()
        invariant
            spans_view(toks@) == ts,
            ts == token_spans(s@, a as int, b as int),
            forall|i: int| 0 <= i < toks@.len() ==> a <= (#[trigger] toks@[i]).0 <= toks@[i].1 <= b,
            b <= s@.len(),
            j <= toks@.len(),
            first_bad_token(s@, ts, 0) == first_bad_token(s@, ts, j as int),
            row@ == ts.take(j as int).map_values(
                |t: (int, int)| token_value(s@, t.0, t.1).unwrap(),
            ),
        decreases toks@.len() - j,
    {
        let (ta, tb) = toks[j];
        assert(ts[j as int] == (ta as int, tb as int));
        match parse_token(s, ta, tb) {
            Some(f) => {
                row.push(f);
                proof {
                    assert(row@ =~= ts.take(j as int + 1).map_values(
                        |t: (int, int)| token_value(s@, t.0, t.1).unwrap(),
                    ));
                }
            },
            None => {
                return Err(ParseError::BadToken { line, token: j });
            },
        }
        j = j + 1;
    }
    if toks.len() != size {
        return Err(ParseError::WrongTokenCount { line, count: toks.len() });
    }
    assert(ts.take(j as int) =~= ts);
    Ok(row)
}

/// Reads a `size` by `size` grid from text: one line per row, cells separated
/// by blanks, each written `numerator/denominator` in decimal.
pub fn parse_grid(s: &[u8], size: usize) -> (r: Result<Vec<Vec<ProperFraction>>, ParseError>)
    ensures
        match r {
            Ok(g) => parse_result(s@, size as int) == Ok::<Seq<Seq<ProperFraction>>, ParseError>(
                grid_view(&g),
            ),
            Err(e) => parse_result(s@, size as int) == Err::<Seq<Seq<ProperFraction>>, ParseError>(
                e,
            ),
        },
{
    let lines = split_lines(s);
    let ghost ls = line_spans(s@);
    let mut grid: Vec<Vec<ProperFraction>> = Vec::new();
    let mut i: usize = 0;
    while i < lines.len()
        invariant
            spans_view(lines@) == ls,
            ls == line_spans(s@),
            forall|k: int| 0 <= k < lines@.len() ==> (#[trigger] lines@[k]).0 <= lines@[k].1 <= s@.len(),
            i <= lines@.len(),
            first_bad_line(s@, ls, 0, size as int) == first_bad_line(s@, ls, i as int, size as int),
            grid_view(&grid) == ls.take(i as int).map_values(
                |l: (int, int)| row_result(s@, l.0, l.1, 0, size as int)->Ok_0,
            ),
        decreases lines@.len() - i,
    {
        let (la, lb) = lines[i];
        assert(ls[i as int] == (la as int, lb as int));
        match parse_row(s, la, lb, i, size) {
            Ok(row) => {
                let ghost before = grid_view(&grid);
                grid.push(row);
                proof {
                    assert(grid_view(&grid) =~= before.push(row@));
                    assert(grid_view(&grid) =~= ls.take(i as int + 1).map_values(
                        |l: (int, int)| row_result(s@, l.0, l.1, 0, size as int)->Ok_0,
                    ));
                }
            },
            Err(e) => {
                return Err(e);
            },
        }
        i = i + 1;
    }
    if lines.len() != size {
        return Err(ParseError::WrongLineCount { count: lines.len() });
    }
    assert(ls.take(i as int) =~= ls);
    Ok(grid)
}

} // verus!
