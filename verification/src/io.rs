//! Turning text into numbers: decimal parsing of signed and unsigned
//! integers, and the conversion of a list of input lines into a list of
//! 64-bit values.

use vstd::prelude::*;
use vstd::string::StrSliceExecFns;
use vstd::string::StringExecFns;

verus! {

/// What can go wrong while reading a list of integers: a line that is
/// no integer, a line that cannot be read, or a file that cannot.
#[derive(Debug)]
pub enum IntsError {
    Convert(String),
    ReadLine,
    IO(String),
}

/// A decimal digit.
pub open spec fn is_digit(c: char) -> bool {
    '0' <= c && c <= '9'
}

/// The value of a decimal digit.
pub open spec fn digit_val(c: char) -> int {
    c as u32 - 48
}

/// Every character of the sequence is a decimal digit.
pub open spec fn all_digits(t: Seq<char>) -> bool {
    forall|i: int| 0 <= i < t.len() ==> is_digit(#[trigger] t[i])
}

/// The number a sequence of decimal digits denotes, most significant
/// digit first.
pub open spec fn digits_val(t: Seq<char>) -> int
    decreases t.len(),
{
    if t.len() == 0 {
        0
    } else {
        digits_val(t.drop_last()) * 10 + digit_val(t.last())
    }
}

/// The digits of an unsigned numeral: everything after an optional
/// leading plus sign.
pub open spec fn uint_body(t: Seq<char>) -> Seq<char> {
    if t.len() > 0 && t[0] == '+' {
        t.drop_first()
    } else {
        t
    }
}

/// The digits of a signed numeral: everything after an optional leading
/// plus or minus sign.
pub open spec fn int_body(t: Seq<char>) -> Seq<char> {
    if t.len() > 0 && (t[0] == '+' || t[0] == '-') {
        t.drop_first()
    } else {
        t
    }
}

/// A well-formed unsigned decimal numeral: an optional plus sign, then
/// at least one digit and nothing else.
pub open spec fn valid_uint_str(t: Seq<char>) -> bool {
    uint_body(t).len() > 0 && all_digits(uint_body(t))
}

/// A well-formed signed decimal numeral: an optional sign, then at
/// least one digit and nothing else.
pub open spec fn valid_int_str(t: Seq<char>) -> bool {
    int_body(t).len() > 0 && all_digits(int_body(t))
}

/// The value of an unsigned numeral.
pub open spec fn uint_str_val(t: Seq<char>) -> int {
    digits_val(uint_body(t))
}

/// The value of a signed numeral.
pub open spec fn int_str_val(t: Seq<char>) -> int {
    if t.len() > 0 && t[0] == '-' {
        -digits_val(int_body(t))
    } else {
        digits_val(int_body(t))
    }
}

/// A sequence of digits denotes a non-negative number.
pub proof fn lemma_digits_val_nonneg(t: Seq<char>)
    requires
        all_digits(t),
    ensures
        digits_val(t) >= 0,
    decreases t.len(),
{
    if t.len() > 0 {
        assert(all_digits(t.drop_last()));
        lemma_digits_val_nonneg(t.drop_last());
    }
}

/// Dropping digits from the end of a numeral can only shrink its value.
pub proof fn lemma_digits_val_prefix_le(t: Seq<char>, n: int)
    requires
        all_digits(t),
        0 <= n <= t.len(),
    ensures
        digits_val(t.subrange(0, n)) <= digits_val(t),
    decreases t.len() - n,
{
    if n == t.len() {
        assert(t.subrange(0, n) =~= t);
    } else {
        lemma_digits_val_prefix_le(t, n + 1);
        let p = t.subrange(0, n + 1);
        assert(all_digits(p));
        assert(p.drop_last() =~= t.subrange(0, n));
        assert(p.last() == t[n]);
        lemma_digits_val_nonneg(t.subrange(0, n));
        assert(digits_val(p) == digits_val(t.subrange(0, n)) * 10 + digit_val(t[n]));
        assert(digits_val(t.subrange(0, n)) <= digits_val(p));
    }
}

/// Parse the characters of `s` from `from` (inclusive) to `to`
/// (exclusive) as a run of decimal digits whose value is at most
/// `limit`; anything else, including an empty run or a value past the
/// limit, is rejected.
fn parse_digits(s: &str, from: usize, to: usize, limit: u64) -> (r: Option<u64>)
    requires
        from <= to <= s@.len(),
    ensures
        ({
            let seg = s@.subrange(from as int, to as int);
            match r {
                Some(v) => seg.len() > 0 && all_digits(seg) && v == digits_val(seg) && v <= limit,
                None => !(seg.len() > 0 && all_digits(seg) && digits_val(seg) <= limit),
            }
        }),
{
    let ghost seg = s@.subrange(from as int, to as int);
    if from == to {
        return None;
    }
    let mut acc: u64 = 0;
    let mut i: usize = from;
    while i < to
        invariant
            from <= i <= to <= s@.len(),
            seg == s@.subrange(from as int, to as int),
            from < to,
            all_digits(s@.subrange(from as int, i as int)),
            acc == digits_val(s@.subrange(from as int, i as int)),
            acc <= limit,
        decreases to - i,
    {
        let ghost prefix = s@.subrange(from as int, i as int);
        let c = s.get_char(i);
        let u = c as u32;
        proof {
            assert(seg[i - from] == c);
        }
        if u < 48 || u > 57 {
            proof {
                assert(!is_digit(seg[i - from]));
            }
            return None;
        }
        let d = (u - 48) as u64;
        proof {
            assert(s@.subrange(from as int, i as int + 1).drop_last() =~= prefix);
            assert(s@.subrange(from as int, i as int + 1).last() == c);
            assert(digits_val(s@.subrange(from as int, i as int + 1)) == acc * 10 + d);
        }
        if d > limit || acc > (limit - d) / 10 {
            proof {
                if seg.len() > 0 && all_digits(seg) && digits_val(seg) <= limit {
                    lemma_digits_val_prefix_le(seg, i - from + 1);
                    assert(seg.subrange(0, i - from + 1) =~= s@.subrange(
                        from as int,
                        i as int + 1,
                    ));
                    assert(acc * 10 + d <= limit);
                    assert(acc <= (limit - d) / 10);
                }
            }
            return None;
        }
        proof {
            assert(acc * 10 + d <= limit) by {
                assert(acc <= (limit - d) / 10);
            };
        }
        acc = acc * 10 + d;
        i = i + 1;
    }
    proof {
        assert(s@.subrange(from as int, i as int) =~= seg);
    }
    Some(acc)
}

/// Parse the characters of `s` from `from` (inclusive) to `to`
/// (exclusive) as a signed 64-bit decimal numeral: an optional plus or
/// minus sign, then digits, and a value that fits in an `i64`.
pub fn parse_i64_range(s: &str, from: usize, to: usize) -> (r: Option<i64>)
    requires
        from <= to <= s@.len(),
    ensures
        ({
            let seg = s@.subrange(from as int, to as int);
            match r {
                Some(v) => valid_int_str(seg) && i64::MIN <= int_str_val(seg) <= i64::MAX && v
                    == int_str_val(seg),
                None => !(valid_int_str(seg) && i64::MIN <= int_str_val(seg) <= i64::MAX),
            }
        }),
{
    let ghost seg = s@.subrange(from as int, to as int);
    if from == to {
        return None;
    }
    let c0 = s.get_char(from);
    proof {
        assert(seg[0] == c0);
    }
    let negative = c0 == '-';
    let start = if c0 == '-' || c0 == '+' {
        from + 1
    } else {
        from
    };
    proof {
        if start > from {
            assert(int_body(seg) =~= s@.subrange(start as int, to as int));
        } else {
            assert(int_body(seg) =~= s@.subrange(start as int, to as int));
        }
    }
    let limit: u64 = if negative {
        9223372036854775808u64
    } else {
        9223372036854775807u64
    };
    match parse_digits(s, start, to, limit) {
        None => {
            proof {
                if valid_int_str(seg) && i64::MIN <= int_str_val(seg) <= i64::MAX {
                    lemma_digits_val_nonneg(int_body(seg));
                }
            }
            None
        },
        Some(v) => {
            if negative {
                if v == 9223372036854775808u64 {
                    Some(i64::MIN)
                } else {
                    Some(-(v as i64))
                }
            } else {
                Some(v as i64)
            }
        },
    }
}

/// Parse a whole string as a signed 64-bit decimal numeral.
pub fn parse_i64_str(s: &str) -> (r: Option<i64>)
    ensures
        match r {
            Some(v) => valid_int_str(s@) && i64::MIN <= int_str_val(s@) <= i64::MAX && v
                == int_str_val(s@),
            None => !(valid_int_str(s@) && i64::MIN <= int_str_val(s@) <= i64::MAX),
        },
{
    let n = s.unicode_len();
    let r = parse_i64_range(s, 0, n);
    proof {
        assert(s@.subrange(0, n as int) =~= s@);
    }
    r
}

/// Parse a whole string as an unsigned decimal numeral that fits in a
/// `usize`: an optional plus sign, then digits.
pub fn parse_usize_str(s: &str) -> (r: Option<usize>)
    ensures
        match r {
            Some(v) => valid_uint_str(s@) && uint_str_val(s@) <= usize::MAX && v == uint_str_val(
                s@,
            ),
            None => !(valid_uint_str(s@) && uint_str_val(s@) <= usize::MAX),
        },
{
    let n = s.unicode_len();
    if n == 0 {
        return None;
    }
    let c0 = s.get_char(0);
    let start: usize = if c0 == '+' {
        1
    } else {
        0
    };
    proof {
        assert(uint_body(s@) =~= s@.subrange(start as int, n as int));
    }
    match parse_digits(s, start, n, usize::MAX as u64) {
        None => {
            proof {
                if valid_uint_str(s@) && uint_str_val(s@) <= usize::MAX {
                    lemma_digits_val_nonneg(uint_body(s@));
                }
            }
            None
        },
        Some(v) => Some(v as usize),
    }
}

/// A Unicode white-space character: the set that trimming removes.
pub open spec fn is_space(c: char) -> bool {
    let u = c as u32;
    (9 <= u && u <= 13) || u == 32 || u == 0x85 || u == 0xA0 || u == 0x1680 || (0x2000 <= u && u
        <= 0x200A) || u == 0x2028 || u == 0x2029 || u == 0x202F || u == 0x205F || u == 0x3000
}

fn is_space_char(c: char) -> (r: bool)
    ensures
        r == is_space(c),
{
    let u = c as u32;
    (9 <= u && u <= 13) || u == 32 || u == 0x85 || u == 0xA0 || u == 0x1680 || (0x2000 <= u && u
        <= 0x200A) || u == 0x2028 || u == 0x2029 || u == 0x202F || u == 0x205F || u == 0x3000
}

/// The sequence without its leading and trailing white space.
pub open spec fn trim_spec(t: Seq<char>) -> Seq<char>
    decreases t.len(),
{
    if t.len() > 0 && is_space(t[0]) {
        trim_spec(t.drop_first())
    } else if t.len() > 0 && is_space(t.last()) {
        trim_spec(t.drop_last())
    } else {
        t
    }
}

/// The position of the first comma, or the length when there is none.
pub open spec fn first_comma(t: Seq<char>) -> int
    decreases t.len(),
{
    if t.len() == 0 {
        0
    } else if t[0] == ',' {
        0
    } else {
        1 + first_comma(t.drop_first())
    }
}

/// `first_comma` names the first comma: everything before it is some
/// other character, and it lies within the sequence unless there is no
/// comma at all.
pub proof fn lemma_first_comma(t: Seq<char>)
    ensures
        0 <= first_comma(t) <= t.len(),
        first_comma(t) < t.len() ==> t[first_comma(t)] == ',',
        forall|j: int| 0 <= j < first_comma(t) ==> #[trigger] t[j] != ',',
    decreases t.len(),
{
    if t.len() > 0 && t[0] != ',' {
        lemma_first_comma(t.drop_first());
        assert forall|j: int| 0 <= j < first_comma(t) implies #[trigger] t[j] != ',' by {
            if j > 0 {
                assert(t.drop_first()[j - 1] == t[j]);
            }
        }
    }
}

/// A position with no comma before it, and a comma at it unless it is
/// the end, is exactly `first_comma`.
proof fn lemma_first_comma_at(t: Seq<char>, i: int)
    requires
        0 <= i <= t.len(),
        forall|j: int| 0 <= j < i ==> #[trigger] t[j] != ',',
        i < t.len() ==> t[i] == ',',
    ensures
        first_comma(t) == i,
    decreases t.len(),
{
    if t.len() > 0 && t[0] != ',' {
        lemma_first_comma_at(t.drop_first(), i - 1);
    }
}

/// The pieces of the sequence between its commas, in order; a sequence
/// without commas is a single piece, and every comma separates two
/// pieces, so there is always one piece more than there are commas.
pub open spec fn split_commas(t: Seq<char>) -> Seq<Seq<char>>
    decreases t.len(),
    via split_commas_decreases
{
    let i = first_comma(t);
    if i >= t.len() {
        seq![t]
    } else {
        seq![t.subrange(0, i)] + split_commas(t.subrange(i + 1, t.len() as int))
    }
}

#[via_fn]
proof fn split_commas_decreases(t: Seq<char>) {
    lemma_first_comma(t);
}

/// Find the first comma at or after `from` and before `to`, as a
/// position relative to `from`; `to` comes back when there is none.
pub(crate) fn find_comma(s: &str, from: usize, to: usize) -> (p: usize)
    requires
        from <= to <= s@.len(),
    ensures
        from <= p <= to,
        p - from == first_comma(s@.subrange(from as int, to as int)),
        p < to ==> s@[p as int] == ',',
{
    let ghost seg = s@.subrange(from as int, to as int);
    let mut i: usize = from;
    while i < to
        invariant
            from <= i <= to <= s@.len(),
            seg == s@.subrange(from as int, to as int),
            forall|j: int| 0 <= j < i - from ==> #[trigger] seg[j] != ',',
        ensures
            from <= i <= to,
            forall|j: int| 0 <= j < i - from ==> #[trigger] seg[j] != ',',
            i < to ==> seg[i - from] == ',',
        decreases to - i,
    {
        let c = s.get_char(i);
        proof {
            assert(seg[i - from] == c);
        }
        if c == ',' {
            break ;
        }
        i = i + 1;
    }
    proof {
        lemma_first_comma_at(seg, i - from);
    }
    i
}

/// Narrow `[from, to)` to the white-space-trimmed kernel of the piece
/// of `s` it delimits.
pub(crate) fn trim_range(s: &str, from: usize, to: usize) -> (r: (usize, usize))
    requires
        from <= to <= s@.len(),
    ensures
        from <= r.0 <= r.1 <= to,
        s@.subrange(r.0 as int, r.1 as int) == trim_spec(s@.subrange(from as int, to as int)),
{
    let mut lo = from;
    let mut hi = to;
    while lo < hi
        invariant
            from <= lo <= hi <= to <= s@.len(),
            hi == to,
            trim_spec(s@.subrange(from as int, to as int)) == trim_spec(
                s@.subrange(lo as int, hi as int),
            ),
        ensures
            from <= lo <= hi <= to <= s@.len(),
            hi == to,
            trim_spec(s@.subrange(from as int, to as int)) == trim_spec(
                s@.subrange(lo as int, hi as int),
            ),
            lo < hi ==> !is_space(s@[lo as int]),
        decreases hi - lo,
    {
        let c = s.get_char(lo);
        proof {
            assert(s@.subrange(lo as int, hi as int)[0] == c);
        }
        if !is_space_char(c) {
            break ;
        }
        proof {
            assert(s@.subrange(lo as int, hi as int).drop_first() =~= s@.subrange(
                lo as int + 1,
                hi as int,
            ));
        }
        lo = lo + 1;
    }
    while lo < hi
        invariant
            from <= lo <= hi <= to <= s@.len(),
            trim_spec(s@.subrange(from as int, to as int)) == trim_spec(
                s@.subrange(lo as int, hi as int),
            ),
            lo < hi ==> !is_space(s@[lo as int]),
        ensures
            from <= lo <= hi <= to <= s@.len(),
            trim_spec(s@.subrange(from as int, to as int)) == trim_spec(
                s@.subrange(lo as int, hi as int),
            ),
            lo < hi ==> !is_space(s@[lo as int]),
            lo < hi ==> !is_space(s@[hi - 1]),
        decreases hi - lo,
    {
        let c = s.get_char(hi - 1);
        proof {
            assert(s@.subrange(lo as int, hi as int).last() == c);
        }
        if !is_space_char(c) {
            break ;
        }
        proof {
            assert(s@.subrange(lo as int, hi as int).drop_last() =~= s@.subrange(
                lo as int,
                hi as int - 1,
            ));
        }
        hi = hi - 1;
    }
    proof {
        assert(trim_spec(s@.subrange(lo as int, hi as int)) == s@.subrange(lo as int, hi as int));
    }
    (lo, hi)
}

/// The failure message for a line that does not parse as an integer.
pub open spec fn convert_msg(l: Seq<char>) -> Seq<char> {
    "could not convert "@ + l + " to int"@
}

/// A line that denotes a 64-bit integer.
pub open spec fn line_ok(l: Seq<char>) -> bool {
    valid_int_str(l) && i64::MIN <= int_str_val(l) <= i64::MAX
}

/// The position of the first line that does not denote a 64-bit
/// integer, or the number of lines when every line does.
pub open spec fn first_bad_line(lines: Seq<String>) -> int
    decreases lines.len(),
{
    if lines.len() == 0 {
        0
    } else if !line_ok(lines[0]@) {
        0
    } else {
        1 + first_bad_line(lines.drop_first())
    }
}

/// `first_bad_line` names the first line that does not parse: every
/// line before it parses, and it lies within the lines unless all of
/// them parse.
pub proof fn lemma_first_bad_line(lines: Seq<String>)
    ensures
        0 <= first_bad_line(lines) <= lines.len(),
        first_bad_line(lines) < lines.len() ==> !line_ok(lines[first_bad_line(lines)]@),
        forall|j: int| 0 <= j < first_bad_line(lines) ==> line_ok(#[trigger] lines[j]@),
    decreases lines.len(),
{
    if lines.len() > 0 && line_ok(lines[0]@) {
        lemma_first_bad_line(lines.drop_first());
        assert forall|j: int| 0 <= j < first_bad_line(lines) implies line_ok(
            #[trigger] lines[j]@,
        ) by {
            if j > 0 {
                assert(lines.drop_first()[j - 1] == lines[j]);
            }
        }
    }
}

/// A position whose earlier lines all parse, and whose own line does
/// not unless it is the end, is exactly `first_bad_line`.
proof fn lemma_first_bad_line_at(lines: Seq<String>, i: int)
    requires
        0 <= i <= lines.len(),
        forall|j: int| 0 <= j < i ==> line_ok(#[trigger] lines[j]@),
        i < lines.len() ==> !line_ok(lines[i]@),
    ensures
        first_bad_line(lines) == i,
    decreases lines.len(),
{
    if lines.len() > 0 && line_ok(lines[0]@) {
        lemma_first_bad_line_at(lines.drop_first(), i - 1);
    }
}

/// Convert input lines, one integer per line, into their values; the
/// first line that is not a 64-bit integer is reported in a `Convert`
/// error.
pub fn ints_from_lines(lines: &Vec<String>) -> (r: Result<Vec<i64>, IntsError>)
    ensures
        r is Ok <==> first_bad_line(lines@) == lines@.len(),
        r matches Ok(out) ==> out@.len() == lines@.len() && (forall|i: int|
            0 <= i < lines@.len() ==> #[trigger] out@[i] == int_str_val(lines@[i]@)),
        r matches Err(e) ==> first_bad_line(lines@) < lines@.len() && (e
            matches IntsError::Convert(m) && m@ == convert_msg(lines@[first_bad_line(lines@)]@)),
{
    let mut out: Vec<i64> = Vec::new();
    let mut i: usize = 0;
    while i < lines.len()
        invariant
            0 <= i <= lines@.len(),
            out@.len() == i,
            forall|j: int| 0 <= j < i ==> line_ok(#[trigger] lines@[j]@),
            forall|j: int| 0 <= j < i ==> #[trigger] out@[j] == int_str_val(lines@[j]@),
        decreases lines@.len() - i,
    {
        let line = &lines[i];
        match parse_i64_str(line.as_str()) {
            Some(v) => {
                out.push(v);
            },
            None => {
                proof {
                    lemma_first_bad_line_at(lines@, i as int);
                }
                let mut m = "could not convert ".to_owned();
                m.append(line.as_str());
                m.append(" to int");
                return Err(IntsError::Convert(m));
            },
        }
        i = i + 1;
    }
    proof {
        lemma_first_bad_line_at(lines@, lines@.len() as int);
    }
    Ok(out)
}

} // verus!
