//! Parsing of coordinate strings ("x,y x,y ...") into fixed-point
//! coordinates.
//!
//! A token is two decimal numbers joined by a comma; a number is an
//! optional minus sign, digits, and an optional fraction, of which the
//! first three digits are kept (the fixed-point scale).  A malformed or
//! out-of-range token is skipped — one bad vertex never discards the whole
//! ring.

use vstd::prelude::*;
use vstd::string::StringSliceAdditionalSpecFns;
use crate::coords::{Coord, COORD_LIMIT, coord_ok};

verus! {

pub open spec fn is_digit(b: u8) -> bool {
    48 <= b <= 57
}

pub open spec fn digit_val(b: u8) -> int {
    b - 48
}

pub open spec fn all_digits(s: Seq<u8>) -> bool {
    forall|i: int| 0 <= i < s.len() ==> is_digit(#[trigger] s[i])
}

/// Value of a digit string, most significant first.
pub open spec fn digits_value(s: Seq<u8>) -> int
    decreases s.len(),
{
    if s.len() == 0 {
        0
    } else {
        digits_value(s.drop_last()) * 10 + digit_val(s.last())
    }
}

/// Value of the first three fraction digits, in thousandths.
pub open spec fn frac_milli(s: Seq<u8>) -> int {
    (if s.len() >= 1 {
        digit_val(s[0]) * 100
    } else {
        0
    }) + (if s.len() >= 2 {
        digit_val(s[1]) * 10
    } else {
        0
    }) + (if s.len() >= 3 {
        digit_val(s[2])
    } else {
        0
    })
}

/// The body of a number (no sign): digits, optionally a dot and more
/// digits.
pub open spec fn wf_unsigned(s: Seq<u8>) -> bool {
    exists|d: int|
        0 < d <= s.len() && all_digits(#[trigger] s.subrange(0, d)) && (d == s.len() || (s[d]
            == 46 && d + 1 < s.len() && all_digits(s.subrange(d + 1, s.len() as int))))
}

/// Fixed-point value of the body: the integer part in thousandths plus the
/// leading fraction digits.
pub open spec fn unsigned_value_milli(s: Seq<u8>) -> int {
    let d = choose|d: int|
        0 < d <= s.len() && all_digits(#[trigger] s.subrange(0, d)) && (d == s.len() || (s[d]
            == 46 && d + 1 < s.len() && all_digits(s.subrange(d + 1, s.len() as int))));
    digits_value(s.subrange(0, d)) * 1000 + if d == s.len() {
        0
    } else {
        frac_milli(s.subrange(d + 1, s.len() as int))
    }
}

/// A whole number: an optional minus sign before the body.
pub open spec fn wf_number(s: Seq<u8>) -> bool {
    if s.len() > 0 && s[0] == 45 {
        wf_unsigned(s.subrange(1, s.len() as int))
    } else {
        wf_unsigned(s)
    }
}

pub open spec fn number_value_milli(s: Seq<u8>) -> int {
    if s.len() > 0 && s[0] == 45 {
        -unsigned_value_milli(s.subrange(1, s.len() as int))
    } else {
        unsigned_value_milli(s)
    }
}

/// A parsed value extends any of its digit prefixes.
proof fn lemma_digits_value_prefix(s: Seq<u8>, k: int)
    requires
        0 <= k <= s.len(),
        all_digits(s),
        forall|i: int| 0 <= i < s.len() ==> 0 <= digit_val(#[trigger] s[i]),
    ensures
        digits_value(s) >= digits_value(s.subrange(0, k)),
        digits_value(s) >= 0,
    decreases s.len(),
{
    if s.len() == 0 {
        assert(s.subrange(0, k) =~= s);
    } else if k == s.len() {
        assert(s.subrange(0, k) =~= s);
        lemma_digits_value_prefix(s.drop_last(), s.len() - 1);
        assert(s.drop_last().subrange(0, s.len() - 1) =~= s.drop_last());
        assert(digits_value(s.drop_last()) * 10 >= digits_value(s.drop_last())) by (nonlinear_arith)
            requires digits_value(s.drop_last()) >= 0
        ;
    } else {
        lemma_digits_value_prefix(s.drop_last(), k);
        assert(s.drop_last().subrange(0, k) =~= s.subrange(0, k));
        assert(digits_value(s.drop_last()) * 10 >= digits_value(s.drop_last())) by (nonlinear_arith)
            requires digits_value(s.drop_last()) >= 0
        ;
    }
}

/// Parses the digit run `s[from..to]` as an integer, refusing values whose
/// thousandfold would leave the coordinate range.
fn parse_digits(s: &[u8], from: usize, to: usize) -> (r: Option<i64>)
    requires
        0 <= from <= to <= s@.len(),
    ensures
        r matches Some(v) ==> all_digits(s@.subrange(from as int, to as int)) && v
            == digits_value(s@.subrange(from as int, to as int)) && 0 <= v <= COORD_LIMIT,
        r is None ==> !all_digits(s@.subrange(from as int, to as int)) || digits_value(
            s@.subrange(from as int, to as int),
        ) > COORD_LIMIT,
        to == from ==> r == Some(0i64),
{
    let ghost whole = s@.subrange(from as int, to as int);
    proof {
        assert forall|i: int| 0 <= i < whole.len() && is_digit(whole[i]) implies 0 <= digit_val(
            #[trigger] whole[i],
        ) by {}
    }
    let mut acc: i64 = 0;
    let mut i: usize = from;
    while i < to
        invariant
            0 <= from <= i <= to <= s@.len(),
            whole == s@.subrange(from as int, to as int),
            all_digits(s@.subrange(from as int, i as int)),
            acc == digits_value(s@.subrange(from as int, i as int)),
            0 <= acc <= COORD_LIMIT,
        decreases to - i,
    {
        let b = s[i];
        if !(b >= 48 && b <= 57) {
            proof {
                assert(whole[i - from] == b);
            }
            return None;
        }
        proof {
            assert(s@.subrange(from as int, i + 1).drop_last() =~= s@.subrange(
                from as int,
                i as int,
            ));
            assert(s@.subrange(from as int, i + 1).last() == b);
        }
        let next: i64 = acc * 10 + (b - 48) as i64;
        if next > COORD_LIMIT {
            proof {
                if all_digits(whole) {
                    lemma_digits_value_prefix(whole, i + 1 - from);
                    assert(whole.subrange(0, i + 1 - from) =~= s@.subrange(from as int, i + 1));
                }
            }
            return None;
        }
        acc = next;
        i = i + 1;
    }
    proof {
        assert(s@.subrange(from as int, i as int) =~= whole);
    }
    Some(acc)
}

/// The dot position of a well-formed number body is the end of its leading
/// digit run; any witness of `wf_unsigned` agrees with it.
proof fn lemma_wf_dot_position(body: Seq<u8>, d: int)
    requires
        wf_unsigned(body),
        0 <= d <= body.len(),
        forall|i: int| 0 <= i < d ==> body[i] != 46,
        d == body.len() || body[d] == 46,
    ensures
        ({
            let dd = choose|dd: int|
                0 < dd <= body.len() && all_digits(#[trigger] body.subrange(0, dd)) && (dd
                    == body.len() || (body[dd] == 46 && dd + 1 < body.len() && all_digits(
                    body.subrange(dd + 1, body.len() as int),
                )));
            dd == d
        }),
{
    let dd = choose|dd: int|
        0 < dd <= body.len() && all_digits(#[trigger] body.subrange(0, dd)) && (dd == body.len()
            || (body[dd] == 46 && dd + 1 < body.len() && all_digits(
            body.subrange(dd + 1, body.len() as int),
        )));
    if dd < d {
        assert(body[dd] == 46);
    }
    if dd > d {
        assert(d < body.len());
        assert(body[d] == 46);
        assert(all_digits(body.subrange(0, dd)));
        assert(body.subrange(0, dd)[d] == body[d]);
        assert(is_digit(body[d]));
    }
}

/// Whether a number is both well formed and inside the coordinate range.
pub open spec fn number_ok(tok: Seq<u8>) -> bool {
    wf_number(tok) && -COORD_LIMIT <= number_value_milli(tok) <= COORD_LIMIT
}

/// Parses one number (`s[from..to]`) into a fixed-point value: `Some`
/// exactly on well-formed numbers inside the coordinate range.
fn parse_number(s: &[u8], from: usize, to: usize) -> (r: Option<i64>)
    requires
        0 <= from <= to <= s@.len(),
    ensures
        r matches Some(v) ==> number_ok(s@.subrange(from as int, to as int)) && v
            == number_value_milli(s@.subrange(from as int, to as int)),
        r is None ==> !number_ok(s@.subrange(from as int, to as int)),
{
    let ghost tok = s@.subrange(from as int, to as int);
    if from >= to {
        return None;
    }
    let (neg, start) = if s[from] == 45 {
        (true, from + 1)
    } else {
        (false, from)
    };
    let ghost body = s@.subrange(start as int, to as int);
    proof {
        if neg {
            assert(tok[0] == 45);
            assert(tok.subrange(1, tok.len() as int) =~= body);
        } else {
            assert(tok =~= body);
        }
        // either way, tok is well formed exactly when body is, with the
        // same magnitude
        if tok.len() > 0 && tok[0] == 45 && !neg {
            assert(false);
        }
        assert(wf_number(tok) ==> wf_unsigned(body));
    }
    // find the dot, if any
    let mut dot: usize = start;
    while dot < to && s[dot] != 46
        invariant
            0 <= start <= dot <= to <= s@.len(),
            forall|i: int| start <= i < dot ==> s@[i] != 46,
        decreases to - dot,
    {
        dot = dot + 1;
    }
    let ghost d = dot - start;
    proof {
        assert forall|i: int| 0 <= i < d implies body[i] != 46 by {
            assert(body[i] == s@[start + i]);
        }
        if dot < to {
            assert(body[d] == s@[dot as int]);
        }
        if wf_unsigned(body) {
            lemma_wf_dot_position(body, d);
        }
    }
    if dot == start {
        // empty integer part: the token starts with a dot or is empty
        proof {
            if wf_unsigned(body) {
                let dd = choose|dd: int|
                    0 < dd <= body.len() && all_digits(#[trigger] body.subrange(0, dd)) && (dd
                        == body.len() || (body[dd] == 46 && dd + 1 < body.len() && all_digits(
                        body.subrange(dd + 1, body.len() as int),
                    )));
                assert(dd == d);
            }
        }
        return None;
    }
    let ghost digits_seq = s@.subrange(start as int, dot as int);
    proof {
        assert(body.subrange(0, d) =~= digits_seq);
        if dot < to {
            assert(body.subrange(d + 1, body.len() as int) =~= s@.subrange(dot + 1, to as int));
        }
        assert forall|i: int| 0 <= i < digits_seq.len() && is_digit(digits_seq[i])
            implies 0 <= digit_val(#[trigger] digits_seq[i]) by {}
    }
    let int_part = match parse_digits(s, start, dot) {
        Some(v) => v,
        None => {
            proof {
                if wf_unsigned(body) {
                    // the digit run is well formed, so the value is too
                    // large; the magnitude only grows from there
                    assert(all_digits(digits_seq));
                    assert(digits_value(digits_seq) > COORD_LIMIT);
                    assert(digits_value(digits_seq) * 1000 >= digits_value(digits_seq))
                        by (nonlinear_arith)
                        requires digits_value(digits_seq) >= 0
                    ;
                    if d < body.len() {
                        let fs = body.subrange(d + 1, body.len() as int);
                        assert(frac_milli(fs) >= 0);
                    }
                }
            }
            return None;
        },
    };
    let mut frac: i64 = 0;
    if dot < to {
        let f0 = dot + 1;
        if f0 >= to {
            // a trailing dot with no fraction digits
            return None;
        }
        let ghost frac_wf: bool = wf_unsigned(body) ==> all_digits(
            body.subrange(d + 1, body.len() as int),
        );
        proof {
            if wf_unsigned(body) {
                assert(all_digits(body.subrange(d + 1, body.len() as int)));
            }
        }
        let mut j: usize = f0;
        while j < to
            invariant
                0 <= from <= start <= dot < f0 == dot + 1 <= j <= to <= s@.len(),
                d == dot - start,
                tok == s@.subrange(from as int, to as int),
                body == s@.subrange(start as int, to as int),
                wf_number(tok) ==> wf_unsigned(body),
                wf_unsigned(body) ==> all_digits(body.subrange(d + 1, body.len() as int)),
                all_digits(s@.subrange(f0 as int, j as int)),
                body.subrange(d + 1, body.len() as int) =~= s@.subrange(f0 as int, to as int),
            decreases to - j,
        {
            let b = s[j];
            if !(b >= 48 && b <= 57) {
                proof {
                    if wf_unsigned(body) {
                        assert(body.subrange(d + 1, body.len() as int)[j - f0] == s@[j as int]);
                    }
                }
                return None;
            }
            proof {
                assert(s@.subrange(f0 as int, j + 1).drop_last() =~= s@.subrange(
                    f0 as int,
                    j as int,
                ));
            }
            j = j + 1;
        }
        let ghost fs = s@.subrange(f0 as int, to as int);
        proof {
            assert(s@.subrange(f0 as int, j as int) =~= fs);
            assert(all_digits(fs));
            assert(is_digit(fs[0]));
            if fs.len() >= 2 {
                assert(is_digit(fs[1]));
            }
            if fs.len() >= 3 {
                assert(is_digit(fs[2]));
            }
            assert(fs[0] == s@[f0 as int]);
        }
        let d1 = (s[f0] - 48) as i64;
        let d2 = if to - f0 >= 2 {
            proof {
                assert(fs[1] == s@[f0 + 1]);
            }
            (s[f0 + 1] - 48) as i64
        } else {
            0
        };
        let d3 = if to - f0 >= 3 {
            proof {
                assert(fs[2] == s@[f0 + 2]);
            }
            (s[f0 + 2] - 48) as i64
        } else {
            0
        };
        proof {
            assert(d1 * 100 + d2 * 10 + d3 == frac_milli(fs));
        }
        frac = d1 * 100 + d2 * 10 + d3;
    }
    proof {
        // the whole body matches the grammar with the dot at `d`
        if dot == to {
            assert(all_digits(body.subrange(0, d)));
            assert(d == body.len());
            assert(wf_unsigned(body));
        } else {
            assert(wf_unsigned(body));
        }
        lemma_wf_dot_position(body, d);
        assert(unsigned_value_milli(body) == digits_value(digits_seq) * 1000 + frac);
    }
    proof {
        crate::math::lemma_mul_bounds2(int_part as int, 1000, COORD_LIMIT as int, 1000);
    }
    let magnitude: i64 = int_part * 1000 + frac;
    if magnitude > COORD_LIMIT {
        return None;
    }
    let value = if neg {
        -magnitude
    } else {
        magnitude
    };
    Some(value)
}

/// Parses one "x,y" token into a coordinate, using the first comma as the
/// separator.
pub open spec fn spec_parse_pair(tok: Seq<u8>) -> Option<Coord> {
    let c = first_comma(tok, 0);
    if c >= tok.len() {
        Option::None
    } else {
        let xs = tok.subrange(0, c);
        let ys = tok.subrange(c + 1, tok.len() as int);
        if wf_number(xs) && wf_number(ys) && -COORD_LIMIT <= number_value_milli(xs) <= COORD_LIMIT
            && -COORD_LIMIT <= number_value_milli(ys) <= COORD_LIMIT {
            Option::Some(Coord { x: number_value_milli(xs) as i64, y: number_value_milli(ys) as i64 })
        } else {
            Option::None
        }
    }
}

/// Index of the first comma at or after `i`, or the length if none.
pub open spec fn first_comma(s: Seq<u8>, i: int) -> int
    decreases s.len() - i,
{
    if i < 0 || i >= s.len() {
        s.len() as int
    } else if s[i] == 44 {
        i
    } else {
        first_comma(s, i + 1)
    }
}

proof fn lemma_first_comma_is(s: Seq<u8>, i: int, c: int)
    requires
        0 <= i <= c <= s.len(),
        forall|j: int| i <= j < c ==> s[j] != 44,
        c == s.len() || s[c] == 44,
    ensures
        first_comma(s, i) == c,
    decreases c - i,
{
    if i < c {
        lemma_first_comma_is(s, i + 1, c);
    }
}

/// Parses the token `s[from..to]` as an "x,y" pair.
fn parse_pair(s: &[u8], from: usize, to: usize) -> (r: Option<Coord>)
    requires
        0 <= from <= to <= s@.len(),
    ensures
        r == spec_parse_pair(s@.subrange(from as int, to as int)),
        r matches Some(c) ==> coord_ok(c),
{
    let ghost tok = s@.subrange(from as int, to as int);
    let mut c: usize = from;
    while c < to && s[c] != 44
        invariant
            0 <= from <= c <= to <= s@.len(),
            forall|j: int| from <= j < c ==> s@[j] != 44,
        decreases to - c,
    {
        c = c + 1;
    }
    proof {
        assert forall|j: int| 0 <= j < c - from implies tok[j] != 44 by {
            assert(tok[j] == s@[from + j]);
        }
        if c < to {
            assert(tok[c - from] == s@[c as int]);
        }
        lemma_first_comma_is(tok, 0, c - from);
    }
    if c >= to {
        return None;
    }
    let x = parse_number(s, from, c);
    let y = parse_number(s, c + 1, to);
    proof {
        assert(tok.subrange(0, c - from) =~= s@.subrange(from as int, c as int));
        assert(tok.subrange(c - from + 1, tok.len() as int) =~= s@.subrange(c + 1, to as int));
    }
    match (x, y) {
        (Some(xv), Some(yv)) => Some(Coord { x: xv, y: yv }),
        _ => None,
    }
}

/// The coordinates parsed from `s[i..]`, where the current token began at
/// `tok_start`: tokens are separated by spaces, and a token that is not a
/// well-formed in-range pair is skipped.
pub open spec fn spec_parse_coords(s: Seq<u8>, i: int, tok_start: int) -> Seq<Coord>
    decreases s.len() - i,
{
    if i < 0 || tok_start > i {
        Seq::empty()
    } else if i >= s.len() {
        match spec_parse_pair(s.subrange(tok_start, s.len() as int)) {
            Option::Some(c) => Seq::empty().push(c),
            Option::None => Seq::empty(),
        }
    } else if s[i] == 32 {
        let rest = spec_parse_coords(s, i + 1, i + 1);
        match spec_parse_pair(s.subrange(tok_start, i)) {
            Option::Some(c) => Seq::empty().push(c) + rest,
            Option::None => rest,
        }
    } else {
        spec_parse_coords(s, i + 1, tok_start)
    }
}

/// Parses a whole coordinate string, skipping malformed tokens.
pub fn parse_coordinates(coord_string: &str) -> (out: Vec<Coord>)
    ensures
        out@ == spec_parse_coords(coord_string.spec_bytes(), 0, 0),
        forall|k: int| 0 <= k < out@.len() ==> coord_ok(#[trigger] out@[k]),
{
    let s: &[u8] = coord_string.as_bytes();
    let n = s.len();
    let mut out: Vec<Coord> = Vec::new();
    let mut tok_start: usize = 0;
    let mut i: usize = 0;
    while i < n
        invariant
            n == s@.len(),
            s@ == coord_string.spec_bytes(),
            0 <= tok_start <= i <= n,
            spec_parse_coords(s@, 0, 0) == out@ + spec_parse_coords(s@, i as int, tok_start as int),
            forall|k: int| 0 <= k < out@.len() ==> coord_ok(#[trigger] out@[k]),
        decreases n - i,
    {
        if s[i] == 32 {
            match parse_pair(s, tok_start, i) {
                Some(c) => {
                    out.push(c);
                    proof {
                        assert(spec_parse_coords(s@, i as int, tok_start as int)
                            =~= Seq::empty().push(c) + spec_parse_coords(s@, i + 1, i + 1));
                        assert(out@ + spec_parse_coords(s@, i + 1, i + 1) =~= out@.drop_last()
                            + spec_parse_coords(s@, i as int, tok_start as int));
                    }
                },
                None => {},
            }
            tok_start = i + 1;
        }
        i = i + 1;
    }
    match parse_pair(s, tok_start, n) {
        Some(c) => {
            out.push(c);
            proof {
                assert(spec_parse_coords(s@, n as int, tok_start as int) =~= Seq::empty().push(c));
                assert(out@ =~= out@.drop_last() + spec_parse_coords(s@, n as int, tok_start as int));
            }
        },
        None => {
            proof {
                assert(spec_parse_coords(s@, n as int, tok_start as int) =~= Seq::<Coord>::empty());
                assert(out@ =~= out@ + spec_parse_coords(s@, n as int, tok_start as int));
            }
        },
    }
    out
}

} // verus!
