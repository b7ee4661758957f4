//! Crossed wire paths: direction-and-length segments parsed from text,
//! the grid points each path covers, and the crossing nearest the origin.

use vstd::prelude::*;
use vstd::math::abs;
use vstd::string::StrSliceExecFns;

use crate::io::{
    lemma_first_comma, split_commas, uint_str_val, valid_uint_str, parse_usize_str, find_comma,
};
use crate::riddle::{Riddle, RiddleError, Solution};

verus! {

/// One leg of a wire path: a direction and how many grid steps it runs.
#[derive(Debug, Eq, PartialEq, Copy, Clone)]
pub enum Segment {
    R(usize),
    L(usize),
    U(usize),
    D(usize),
}

impl Segment {
    /// How many grid steps the segment runs.
    pub open spec fn spec_len(&self) -> int {
        match self {
            Segment::U(n) => *n as int,
            Segment::D(n) => *n as int,
            Segment::L(n) => *n as int,
            Segment::R(n) => *n as int,
        }
    }

    pub fn len(&self) -> (r: usize)
        ensures
            r as int == self.spec_len(),
    {
        match self {
            Segment::U(n) => *n,
            Segment::D(n) => *n,
            Segment::L(n) => *n,
            Segment::R(n) => *n,
        }
    }
}

/// Why a piece of text is not a segment; each variant carries the
/// offending text.
#[derive(Debug, PartialEq, Eq)]
pub enum SegmentParseError {
    TooShort(String),
    UnknownDirectoion(String),
    LengthParseError(String),
    LengthZero(String),
}

/// How reading a segment from text ends.
pub enum SegmentParse {
    Parsed(Segment),
    TooShort,
    BadLength,
    ZeroLength,
    UnknownDirection,
}

/// Read a segment from text: a direction letter, then a positive
/// length. The checks happen in this order: the text must have at
/// least two characters, the length must be a number that fits, it
/// must not be zero, and the letter must be one of `U`, `D`, `L`, `R`.
pub open spec fn spec_parse_segment(t: Seq<char>) -> SegmentParse {
    if t.len() < 2 {
        SegmentParse::TooShort
    } else {
        let len_part = t.subrange(1, t.len() as int);
        if !(valid_uint_str(len_part) && uint_str_val(len_part) <= usize::MAX) {
            SegmentParse::BadLength
        } else if uint_str_val(len_part) == 0 {
            SegmentParse::ZeroLength
        } else {
            let n = uint_str_val(len_part) as usize;
            if t[0] == 'U' {
                SegmentParse::Parsed(Segment::U(n))
            } else if t[0] == 'D' {
                SegmentParse::Parsed(Segment::D(n))
            } else if t[0] == 'L' {
                SegmentParse::Parsed(Segment::L(n))
            } else if t[0] == 'R' {
                SegmentParse::Parsed(Segment::R(n))
            } else {
                SegmentParse::UnknownDirection
            }
        }
    }
}

impl Segment {
    /// Read a segment from text, exactly as `spec_parse_segment`
    /// describes; each failure carries the offending text.
    pub fn from_str(s: &str) -> (r: Result<Segment, SegmentParseError>)
        ensures
            match spec_parse_segment(s@) {
                SegmentParse::Parsed(seg) => r == Ok::<Segment, SegmentParseError>(seg),
                SegmentParse::TooShort => r matches Err(e) && (e
                    matches SegmentParseError::TooShort(m) && m@ == s@),
                SegmentParse::BadLength => r matches Err(e) && (e
                    matches SegmentParseError::LengthParseError(m) && m@ == s@),
                SegmentParse::ZeroLength => r matches Err(e) && (e
                    matches SegmentParseError::LengthZero(m) && m@ == s@),
                SegmentParse::UnknownDirection => r matches Err(e) && (e
                    matches SegmentParseError::UnknownDirectoion(m) && m@ == s@),
            },
    {
        let n = s.unicode_len();
        if n < 2 {
            return Err(SegmentParseError::TooShort(s.to_owned()));
        }
        let rest = s.substring_char(1, n);
        let length = match parse_usize_str(rest) {
            Some(v) => v,
            None => {
                return Err(SegmentParseError::LengthParseError(s.to_owned()));
            },
        };
        if length == 0 {
            return Err(SegmentParseError::LengthZero(s.to_owned()));
        }
        let direction = s.get_char(0);
        if direction == 'U' {
            Ok(Segment::U(length))
        } else if direction == 'D' {
            Ok(Segment::D(length))
        } else if direction == 'L' {
            Ok(Segment::L(length))
        } else if direction == 'R' {
            Ok(Segment::R(length))
        } else {
            Err(SegmentParseError::UnknownDirectoion(s.to_owned()))
        }
    }
}

impl core::str::FromStr for Segment {
    type Err = SegmentParseError;

    fn from_str(s: &str) -> Result<Segment, SegmentParseError> {
        Segment::from_str(s)
    }
}

/// The position of the first comma-separated piece that is not a
/// segment, or the number of pieces when all are.
pub open spec fn first_bad_segment(toks: Seq<Seq<char>>) -> int
    decreases toks.len(),
{
    if toks.len() == 0 {
        0
    } else if !(spec_parse_segment(toks[0]) is Parsed) {
        0
    } else {
        1 + first_bad_segment(toks.drop_first())
    }
}

/// `first_bad_segment` names the first piece that does not parse.
pub proof fn lemma_first_bad_segment(toks: Seq<Seq<char>>)
    ensures
        0 <= first_bad_segment(toks) <= toks.len(),
        first_bad_segment(toks) < toks.len() ==> !(spec_parse_segment(
            toks[first_bad_segment(toks)],
        ) is Parsed),
        forall|j: int|
            0 <= j < first_bad_segment(toks) ==> spec_parse_segment(#[trigger] toks[j]) is Parsed,
    decreases toks.len(),
{
    if toks.len() > 0 && spec_parse_segment(toks[0]) is Parsed {
        lemma_first_bad_segment(toks.drop_first());
        assert forall|j: int| 0 <= j < first_bad_segment(toks) implies spec_parse_segment(
            #[trigger] toks[j],
        ) is Parsed by {
            if j > 0 {
                assert(toks.drop_first()[j - 1] == toks[j]);
            }
        }
    }
}

/// A position whose earlier pieces all parse, and whose own piece does
/// not unless it is the end, is exactly `first_bad_segment`.
proof fn lemma_first_bad_segment_at(toks: Seq<Seq<char>>, i: int)
    requires
        0 <= i <= toks.len(),
        forall|j: int| 0 <= j < i ==> spec_parse_segment(#[trigger] toks[j]) is Parsed,
        i < toks.len() ==> !(spec_parse_segment(toks[i]) is Parsed),
    ensures
        first_bad_segment(toks) == i,
    decreases toks.len(),
{
    if toks.len() > 0 && spec_parse_segment(toks[0]) is Parsed {
        lemma_first_bad_segment_at(toks.drop_first(), i - 1);
    }
}

/// The segments the comma-separated pieces of the text denote.
pub open spec fn path_of(t: Seq<char>) -> Seq<Segment> {
    split_commas(t).map_values(|p: Seq<char>| spec_parse_segment(p)->Parsed_0)
}

/// Every comma-separated piece of the text is a segment.
pub open spec fn path_ok(t: Seq<char>) -> bool {
    first_bad_segment(split_commas(t)) == split_commas(t).len()
}

/// Read a whole wire path from text: segments separated by commas. The
/// first piece that is not a segment is reported as that piece's
/// parse failure.
pub fn from_comma_separated_str(input: &str) -> (r: Result<Vec<Segment>, SegmentParseError>)
    ensures
        r is Ok <==> path_ok(input@),
        r matches Ok(v) ==> v@ == path_of(input@),
        r matches Err(e) ==> ({
            let toks = split_commas(input@);
            let bad = toks[first_bad_segment(toks)];
            &&& first_bad_segment(toks) < toks.len()
            &&& match spec_parse_segment(bad) {
                SegmentParse::Parsed(_) => false,
                SegmentParse::TooShort => e matches SegmentParseError::TooShort(m) && m@ == bad,
                SegmentParse::BadLength => e matches SegmentParseError::LengthParseError(m) && m@
                    == bad,
                SegmentParse::ZeroLength => e matches SegmentParseError::LengthZero(m) && m@
                    == bad,
                SegmentParse::UnknownDirection => e matches SegmentParseError::UnknownDirectoion(
                    m,
                ) && m@ == bad,
            }
        }),
{
    let n = input.unicode_len();
    let ghost t = input@;
    let ghost toks = split_commas(t);
    let mut out: Vec<Segment> = Vec::new();
    let mut start: usize = 0;
    let mut done = false;
    proof {
        assert(t.subrange(0, n as int) =~= t);
        assert(toks.subrange(0, toks.len() as int) =~= toks);
    }
    while !done
        invariant
            start <= n == t.len(),
            t == input@,
            toks == split_commas(t),
            out@.len() <= toks.len(),
            !done ==> split_commas(t.subrange(start as int, n as int)) == toks.subrange(
                out@.len() as int,
                toks.len() as int,
            ),
            done ==> out@.len() == toks.len(),
            forall|j: int|
                0 <= j < out@.len() ==> spec_parse_segment(#[trigger] toks[j]) is Parsed
                    && out@[j] == spec_parse_segment(toks[j])->Parsed_0,
        decreases n - start + (if done {
            0int
        } else {
            1int
        }),
    {
        let ghost k = out@.len() as int;
        let ghost suffix = t.subrange(start as int, n as int);
        let p = find_comma(input, start, n);
        let ghost tok = t.subrange(start as int, p as int);
        proof {
            lemma_first_comma(suffix);
            if p < n {
                assert(suffix.subrange(0, p - start) =~= tok);
                assert(suffix.subrange(p - start + 1, suffix.len() as int) =~= t.subrange(
                    p as int + 1,
                    n as int,
                ));
                let tail = split_commas(t.subrange(p as int + 1, n as int));
                assert(split_commas(suffix) == seq![tok] + tail);
                assert(toks.subrange(k, toks.len() as int) == seq![tok] + tail);
                assert(toks.len() - k == 1 + tail.len());
                assert(toks.subrange(k, toks.len() as int)[0] == toks[k]);
                assert((seq![tok] + tail)[0] == tok);
                assert(toks[k] == tok);
                assert forall|j: int| 0 <= j < tail.len() implies #[trigger] tail[j] == toks[k + 1
                    + j] by {
                    assert((seq![tok] + tail)[j + 1] == tail[j]);
                    assert(toks.subrange(k, toks.len() as int)[j + 1] == toks[k + 1 + j]);
                }
                assert(tail =~= toks.subrange(k + 1, toks.len() as int));
            } else {
                assert(p - start == suffix.len());
                assert(suffix =~= tok);
                assert(split_commas(suffix) == seq![tok]);
                assert(toks.subrange(k, toks.len() as int) == seq![tok]);
                assert(seq![tok].len() == 1);
                assert(toks.subrange(k, toks.len() as int).len() == toks.len() - k);
                assert(toks.subrange(k, toks.len() as int)[0] == toks[k]);
                assert(toks[k] == tok);
                assert(toks.len() == k + 1);
            }
        }
        let piece = input.substring_char(start, p);
        let segment = match Segment::from_str(piece) {
            Ok(seg) => seg,
            Err(e) => {
                proof {
                    lemma_first_bad_segment_at(toks, k);
                }
                return Err(e);
            },
        };
        out.push(segment);
        if p < n {
            start = p + 1;
        } else {
            done = true;
        }
    }
    proof {
        lemma_first_bad_segment_at(toks, toks.len() as int);
        assert(out@ =~= path_of(t));
    }
    Ok(out)
}

/// A grid point a wire passes through.
#[derive(PartialEq, Eq, Debug, Hash, Clone, Copy)]
pub struct Point {
    pub x: i64,
    pub y: i64,
}

/// The Manhattan distance of a point from the origin.
pub open spec fn spec_norm(p: Point) -> int {
    (abs(p.x as int) + abs(p.y as int)) as int
}

/// How far one grid step of the segment moves along the x axis.
pub open spec fn seg_dx(s: Segment) -> int {
    match s {
        Segment::U(_) => 0,
        Segment::D(_) => 0,
        Segment::L(_) => -1,
        Segment::R(_) => 1,
    }
}

/// How far one grid step of the segment moves along the y axis.
pub open spec fn seg_dy(s: Segment) -> int {
    match s {
        Segment::U(_) => 1,
        Segment::D(_) => -1,
        Segment::L(_) => 0,
        Segment::R(_) => 0,
    }
}

/// The point `i` grid steps along the segment from `p`.
pub open spec fn seg_point(p: Point, s: Segment, i: int) -> Point {
    Point { x: (p.x + i * seg_dx(s)) as i64, y: (p.y + i * seg_dy(s)) as i64 }
}

/// The far end of the segment walked from `p`.
pub open spec fn seg_end(p: Point, s: Segment) -> Point {
    seg_point(p, s, s.spec_len())
}

/// The whole segment walked from `p` stays on the 64-bit grid.
pub open spec fn seg_fits(p: Point, s: Segment) -> bool {
    &&& i64::MIN <= p.x + s.spec_len() * seg_dx(s) <= i64::MAX
    &&& i64::MIN <= p.y + s.spec_len() * seg_dy(s) <= i64::MAX
}

/// The points the segment passes through when walked from `p`: one for
/// each step, not counting `p` itself.
pub open spec fn seg_points_set(p: Point, s: Segment) -> Set<Point> {
    Set::new(|q: Point| exists|i: int| 1 <= i <= s.spec_len() && q == seg_point(p, s, i))
}

/// Every prefix of a walk that ends on the grid stays on the grid.
proof fn lemma_coord_in_range(base: int, d: int, i: int, n: int)
    requires
        -1 <= d <= 1,
        0 <= i <= n,
        i64::MIN <= base <= i64::MAX,
        i64::MIN <= base + n * d <= i64::MAX,
    ensures
        i64::MIN <= base + i * d <= i64::MAX,
{
    assert((d >= 0 ==> 0 <= n * d && i * d <= n * d && 0 <= i * d) && (d <= 0 ==> n * d <= i * d
        <= 0)) by (nonlinear_arith)
        requires
            0 <= i <= n,
            -1 <= d <= 1,
    ;
}

/// One more step multiplies out as one more increment.
proof fn lemma_mul_step(i: int, d: int)
    ensures
        (i + 1) * d == i * d + d,
{
    assert((i + 1) * d == i * d + d) by (nonlinear_arith);
}

impl Point {
    /// The magnitude of a coordinate.
    fn abs_u64(v: i64) -> (r: u64)
        ensures
            r == abs(v as int),
    {
        if v >= 0 {
            v as u64
        } else {
            ((-(v + 1)) as u64) + 1
        }
    }

    /// The Manhattan distance of the point from the origin, as wide as
    /// a norm of grid coordinates can get.
    fn norm_u128(&self) -> (r: u128)
        ensures
            r == spec_norm(*self),
    {
        (Point::abs_u64(self.x) as u128) + (Point::abs_u64(self.y) as u128)
    }

    /// The Manhattan distance of the point from the origin.
    pub fn manhattan_norm(&self) -> (r: usize)
        requires
            spec_norm(*self) <= usize::MAX,
        ensures
            r == spec_norm(*self),
    {
        (Point::abs_u64(self.x) + Point::abs_u64(self.y)) as usize
    }

    /// The points the segment passes through when walked from this
    /// point, in walking order: step `i` of the result is
    /// `seg_point` at `i + 1`.
    pub fn points_in_segment(&self, segment: Segment) -> (r: Vec<Point>)
        requires
            seg_fits(*self, segment),
        ensures
            r@.len() == segment.spec_len(),
            forall|i: int| 0 <= i < r@.len() ==> r@[i] == seg_point(*self, segment, i + 1),
    {
        let (x_increment, y_increment): (i64, i64) = match segment {
            Segment::U(_) => (0, 1),
            Segment::D(_) => (0, -1),
            Segment::L(_) => (-1, 0),
            Segment::R(_) => (1, 0),
        };
        let num_steps = segment.len();
        let mut out: Vec<Point> = Vec::new();
        let mut cur: Point = *self;
        let mut i: usize = 0;
        while i < num_steps
            invariant
                0 <= i <= num_steps,
                num_steps as int == segment.spec_len(),
                x_increment as int == seg_dx(segment),
                y_increment as int == seg_dy(segment),
                seg_fits(*self, segment),
                out@.len() == i,
                cur == seg_point(*self, segment, i as int),
                cur.x as int == self.x + (i as int) * seg_dx(segment),
                cur.y as int == self.y + (i as int) * seg_dy(segment),
                forall|j: int| 0 <= j < i ==> out@[j] == seg_point(*self, segment, j + 1),
            decreases num_steps - i,
        {
            proof {
                lemma_mul_step(i as int, seg_dx(segment));
                lemma_mul_step(i as int, seg_dy(segment));
                lemma_coord_in_range(
                    self.x as int,
                    seg_dx(segment),
                    i as int + 1,
                    segment.spec_len(),
                );
                lemma_coord_in_range(
                    self.y as int,
                    seg_dy(segment),
                    i as int + 1,
                    segment.spec_len(),
                );
            }
            cur = Point { x: cur.x + x_increment, y: cur.y + y_increment };
            out.push(cur);
            i = i + 1;
        }
        out
    }
}

/// A set of grid points, held without duplicates.
pub struct PointSet {
    points: Vec<Point>,
}

impl View for PointSet {
    type V = Set<Point>;

    closed spec fn view(&self) -> Set<Point> {
        self.points@.to_set()
    }
}

impl PointSet {
    /// The points are held each once.
    pub closed spec fn inv(&self) -> bool {
        self.points@.no_duplicates()
    }

    pub fn new() -> (r: PointSet)
        ensures
            r@ == Set::<Point>::empty(),
            r.inv(),
    {
        let r = PointSet { points: Vec::new() };
        proof {
            assert(r@ =~= Set::<Point>::empty());
        }
        r
    }

    pub fn contains(&self, p: &Point) -> (r: bool)
        ensures
            r == self@.contains(*p),
    {
        let mut i: usize = 0;
        while i < self.points.len()
            invariant
                0 <= i <= self.points@.len(),
                forall|j: int| 0 <= j < i ==> #[trigger] self.points@[j] != *p,
            decreases self.points@.len() - i,
        {
            if self.points[i].x == p.x && self.points[i].y == p.y {
                return true;
            }
            i = i + 1;
        }
        false
    }

    pub fn insert(&mut self, p: Point)
        requires
            old(self).inv(),
        ensures
            final(self)@ == old(self)@.insert(p),
            final(self).inv(),
    {
        if !self.contains(&p) {
            self.points.push(p);
            proof {
                assert(self@ =~= old(self)@.insert(p)) by {
                    assert(self.points@ == old(self).points@.push(p));
                    assert forall|q: Point| self.points@.to_set().contains(q) implies old(
                        self,
                    )@.insert(p).contains(q) by {
                        let j = choose|j: int|
                            0 <= j < self.points@.len() && self.points@[j] == q;
                        if j < old(self).points@.len() {
                            assert(old(self).points@[j] == q);
                        }
                    }
                    assert forall|q: Point| old(self)@.insert(p).contains(q) implies self
                        .points@.to_set().contains(q) by {
                        if q == p {
                            assert(self.points@[self.points@.len() - 1] == q);
                        } else {
                            let j = choose|j: int|
                                0 <= j < old(self).points@.len() && old(self).points@[j] == q;
                            assert(self.points@[j] == q);
                        }
                    }
                }
                assert(self.inv()) by {
                    assert forall|i: int, j: int|
                        0 <= i < j < self.points@.len() implies self.points@[i] != self
                        .points@[j] by {
                        if j == self.points@.len() - 1 {
                            assert(old(self).points@[i] == self.points@[i]);
                        }
                    }
                }
            }
        } else {
            proof {
                assert(self@ =~= old(self)@.insert(p));
            }
        }
    }

    /// How many points the set holds.
    pub fn len(&self) -> (r: usize)
        requires
            self.inv(),
        ensures
            r == self@.len(),
    {
        proof {
            self.points@.unique_seq_to_set();
        }
        self.points.len()
    }

    /// The points this set and the other both hold.
    pub fn intersect(&self, other: &PointSet) -> (r: PointSet)
        requires
            self.inv(),
        ensures
            r@ == self@.intersect(other@),
            r.inv(),
    {
        let mut r = PointSet::new();
        let mut i: usize = 0;
        proof {
            assert(r@ =~= self.points@.subrange(0, 0).to_set().intersect(other@));
        }
        while i < self.points.len()
            invariant
                0 <= i <= self.points@.len(),
                r.inv(),
                r@ == self.points@.subrange(0, i as int).to_set().intersect(other@),
            decreases self.points@.len() - i,
        {
            let ghost prefix = self.points@.subrange(0, i as int);
            let p = self.points[i];
            let ghost r0 = r@;
            if other.contains(&p) {
                r.insert(p);
            }
            proof {
                assert(self.points@.subrange(0, i as int + 1) =~= prefix.push(p));
                let next = self.points@.subrange(0, i as int + 1);
                assert(next[next.len() - 1] == p);
                assert forall|q: Point|
                    r@.contains(q) <==> #[trigger] next.to_set().intersect(other@).contains(
                        q,
                    ) by {
                    if r@.contains(q) {
                        if r0.contains(q) {
                            assert(prefix.to_set().contains(q) && other@.contains(q));
                            let m = choose|m: int| 0 <= m < prefix.len() && prefix[m] == q;
                            assert(next[m] == q);
                        } else {
                            assert(q == p);
                        }
                    }
                    if next.to_set().contains(q) && other@.contains(q) {
                        let m = choose|m: int| 0 <= m < next.len() && next[m] == q;
                        if m < prefix.len() {
                            assert(prefix[m] == q);
                            assert(prefix.to_set().contains(q));
                            assert(r0.contains(q));
                        } else {
                            assert(q == p);
                        }
                    }
                }
                assert(r@ =~= next.to_set().intersect(other@));
            }
            i = i + 1;
        }
        proof {
            assert(self.points@.subrange(0, self.points@.len() as int) =~= self.points@);
            assert(r@ =~= self@.intersect(other@));
        }
        r
    }

    /// The smallest Manhattan norm among the points, or nothing when
    /// the set is empty.
    pub fn min_norm(&self) -> (r: Option<u128>)
        ensures
            r is None <==> self@ == Set::<Point>::empty(),
            r matches Some(m) ==> (exists|p: Point| self@.contains(p) && spec_norm(p) == m) && (
            forall|q: Point| self@.contains(q) ==> spec_norm(q) >= m),
    {
        if self.points.len() == 0 {
            proof {
                assert(self@ =~= Set::<Point>::empty());
            }
            return None;
        }
        proof {
            assert(self@.contains(self.points@[0]));
            assert(self@ != Set::<Point>::empty());
        }
        let mut best: u128 = self.points[0].norm_u128();
        let mut i: usize = 1;
        while i < self.points.len()
            invariant
                1 <= i <= self.points@.len(),
                exists|j: int|
                    0 <= j < i && spec_norm(#[trigger] self.points@[j]) == best,
                forall|j: int| 0 <= j < i ==> spec_norm(#[trigger] self.points@[j]) >= best,
            decreases self.points@.len() - i,
        {
            let n = self.points[i].norm_u128();
            if n < best {
                best = n;
            }
            i = i + 1;
        }
        proof {
            let j = choose|j: int|
                0 <= j < self.points@.len() && spec_norm(#[trigger] self.points@[j]) == best;
            assert(self@.contains(self.points@[j]));
            assert forall|q: Point| self@.contains(q) implies spec_norm(q) >= best by {
                let k = choose|k: int|
                    0 <= k < self.points@.len() && self.points@[k] == q;
                assert(spec_norm(self.points@[k]) >= best);
            }
        }
        Some(best)
    }
}

/// The whole path walked from `p` stays on the 64-bit grid.
pub open spec fn path_fits(p: Point, path: Seq<Segment>) -> bool
    decreases path.len(),
{
    path.len() == 0 || (seg_fits(p, path[0]) && path_fits(seg_end(p, path[0]), path.drop_first()))
}

/// Every point some segment of the path passes through, each segment
/// walked from where the previous one ended.
pub open spec fn path_points(p: Point, path: Seq<Segment>) -> Set<Point>
    decreases path.len(),
{
    if path.len() == 0 {
        Set::empty()
    } else {
        seg_points_set(p, path[0]) + path_points(seg_end(p, path[0]), path.drop_first())
    }
}

impl Point {
    /// Every point the path passes through when walked from this
    /// point, exactly as `path_points` describes.
    pub fn points_in_path(&self, path: &Vec<Segment>) -> (r: PointSet)
        requires
            path_fits(*self, path@),
        ensures
            r@ == path_points(*self, path@),
            r.inv(),
    {
        let ghost whole = path@;
        let mut result = PointSet::new();
        let mut start: Point = *self;
        let mut k: usize = 0;
        proof {
            assert(whole.subrange(0, whole.len() as int) =~= whole);
            assert(whole.subrange(k as int, whole.len() as int) =~= whole);
        }
        while k < path.len()
            invariant
                0 <= k <= whole.len(),
                whole == path@,
                result.inv(),
                path_fits(start, whole.subrange(k as int, whole.len() as int)),
                result@ + path_points(start, whole.subrange(k as int, whole.len() as int))
                    == path_points(*self, whole),
            decreases whole.len() - k,
        {
            let ghost suffix = whole.subrange(k as int, whole.len() as int);
            let ghost start0 = start;
            let segment = path[k];
            proof {
                assert(suffix[0] == segment);
                assert(suffix.drop_first() =~= whole.subrange(k as int + 1, whole.len() as int));
            }
            let this_segment = start.points_in_segment(segment);
            let ghost before = result@;
            let mut j: usize = 0;
            while j < this_segment.len()
                invariant
                    0 <= j <= this_segment@.len(),
                    result.inv(),
                    result@ == before + this_segment@.subrange(0, j as int).to_set(),
                decreases this_segment@.len() - j,
            {
                let ghost prefix = this_segment@.subrange(0, j as int);
                result.insert(this_segment[j]);
                proof {
                    assert(this_segment@.subrange(0, j as int + 1) =~= prefix.push(
                        this_segment@[j as int],
                    ));
                    assert(result@ =~= before + this_segment@.subrange(0, j as int + 1)
                        .to_set()) by {
                        let next = this_segment@.subrange(0, j as int + 1);
                        assert forall|q: Point| next.to_set().contains(q) implies prefix.to_set()
                            .contains(q) || q == this_segment@[j as int] by {
                            let m = choose|m: int| 0 <= m < next.len() && next[m] == q;
                            if m < prefix.len() {
                                assert(prefix[m] == q);
                            }
                        }
                        assert forall|q: Point|
                            prefix.to_set().contains(q) implies next.to_set().contains(q) by {
                            let m = choose|m: int| 0 <= m < prefix.len() && prefix[m] == q;
                            assert(next[m] == q);
                        }
                        assert(next[next.len() - 1] == this_segment@[j as int]);
                    }
                }
                j = j + 1;
            }
            proof {
                assert(this_segment@.subrange(0, this_segment@.len() as int) =~= this_segment@);
                assert(this_segment@.to_set() =~= seg_points_set(start, segment)) by {
                    assert forall|q: Point|
                        this_segment@.to_set().contains(q) implies seg_points_set(
                        start,
                        segment,
                    ).contains(q) by {
                        let m = choose|m: int|
                            0 <= m < this_segment@.len() && this_segment@[m] == q;
                        assert(q == seg_point(start, segment, m + 1));
                    }
                    assert forall|q: Point|
                        seg_points_set(start, segment).contains(q) implies this_segment@.to_set()
                        .contains(q) by {
                        let m = choose|m: int|
                            1 <= m <= segment.spec_len() && q == seg_point(start, segment, m);
                        assert(this_segment@[m - 1] == q);
                    }
                }
                assert(result@ + path_points(seg_end(start, segment), suffix.drop_first())
                    == path_points(*self, whole)) by {
                    assert(path_points(start, suffix) == seg_points_set(start, segment)
                        + path_points(seg_end(start, segment), suffix.drop_first()));
                    assert(result@ + path_points(seg_end(start, segment), suffix.drop_first())
                        =~= before + path_points(start, suffix));
                }
            }
            if this_segment.len() > 0 {
                start = this_segment[this_segment.len() - 1];
                proof {
                    assert(start == seg_end(start0, segment)) by {
                        assert(this_segment@[this_segment@.len() - 1] == seg_point(
                            start0,
                            segment,
                            segment.spec_len(),
                        ));
                    }
                }
            } else {
                proof {
                    assert(segment.spec_len() == 0);
                    assert((0int) * seg_dx(segment) == 0 && (0int) * seg_dy(segment) == 0)
                        by (nonlinear_arith);
                    assert(seg_end(start0, segment) == start0);
                }
            }
            k = k + 1;
        }
        proof {
            assert(whole.subrange(whole.len() as int, whole.len() as int).len() == 0);
        }
        result
    }
}

/// Where every wire starts.
pub open spec fn origin() -> Point {
    Point { x: 0, y: 0 }
}

/// The points where the two paths cross: every point that both paths,
/// walked from the origin, pass through.
pub fn points_in_both_paths(path1: &Vec<Segment>, path2: &Vec<Segment>) -> (r: PointSet)
    requires
        path_fits(origin(), path1@),
        path_fits(origin(), path2@),
    ensures
        r@ == path_points(origin(), path1@).intersect(path_points(origin(), path2@)),
        r.inv(),
{
    let origin_point = Point { x: 0, y: 0 };
    let points1 = origin_point.points_in_path(path1);
    let points2 = origin_point.points_in_path(path2);
    points1.intersect(&points2)
}

/// Decide whether the segment, walked from `p`, stays on the grid.
fn check_seg_fits(p: &Point, s: Segment) -> (r: bool)
    ensures
        r == seg_fits(*p, s),
{
    let n = s.len();
    proof {
        assert((n as int) * 1 == n as int && (n as int) * (-1) == -(n as int) && (n as int) * 0
            == 0) by (nonlinear_arith);
    }
    match s {
        Segment::R(_) => (p.x as i128) + (n as i128) <= (i64::MAX as i128),
        Segment::L(_) => (p.x as i128) - (n as i128) >= (i64::MIN as i128),
        Segment::U(_) => (p.y as i128) + (n as i128) <= (i64::MAX as i128),
        Segment::D(_) => (p.y as i128) - (n as i128) >= (i64::MIN as i128),
    }
}

/// The far end of the segment walked from `p`.
fn seg_end_exec(p: &Point, s: Segment) -> (r: Point)
    requires
        seg_fits(*p, s),
    ensures
        r == seg_end(*p, s),
{
    let n = s.len();
    proof {
        assert((n as int) * 1 == n as int && (n as int) * (-1) == -(n as int) && (n as int) * 0
            == 0) by (nonlinear_arith);
    }
    match s {
        Segment::R(_) => Point { x: ((p.x as i128) + (n as i128)) as i64, y: p.y },
        Segment::L(_) => Point { x: ((p.x as i128) - (n as i128)) as i64, y: p.y },
        Segment::U(_) => Point { x: p.x, y: ((p.y as i128) + (n as i128)) as i64 },
        Segment::D(_) => Point { x: p.x, y: ((p.y as i128) - (n as i128)) as i64 },
    }
}

/// Decide whether the whole path, walked from `start`, stays on the
/// grid.
pub fn check_path_fits(start: &Point, path: &Vec<Segment>) -> (r: bool)
    ensures
        r == path_fits(*start, path@),
{
    let ghost whole = path@;
    let mut cur: Point = *start;
    let mut k: usize = 0;
    proof {
        assert(whole.subrange(0, whole.len() as int) =~= whole);
    }
    while k < path.len()
        invariant
            0 <= k <= whole.len(),
            whole == path@,
            path_fits(*start, whole) == path_fits(
                cur,
                whole.subrange(k as int, whole.len() as int),
            ),
        decreases whole.len() - k,
    {
        let ghost suffix = whole.subrange(k as int, whole.len() as int);
        let segment = path[k];
        proof {
            assert(suffix[0] == segment);
            assert(suffix.drop_first() =~= whole.subrange(k as int + 1, whole.len() as int));
        }
        if !check_seg_fits(&cur, segment) {
            return false;
        }
        cur = seg_end_exec(&cur, segment);
        k = k + 1;
    }
    proof {
        assert(whole.subrange(whole.len() as int, whole.len() as int).len() == 0);
    }
    true
}

/// What solving the crossed-wires riddle yields: the input must be two
/// comma-separated paths, one per line; both are walked from the
/// origin, and the answer is the smallest Manhattan norm among the
/// points they share.
pub open spec fn advent3_post(lines: Seq<String>, r: Result<Solution, RiddleError>) -> bool {
    if lines.len() != 2 {
        r matches Err(e) && (e matches RiddleError::Generic(m) && m@
            == "expected two input lines"@)
    } else if !path_ok(lines[0]@) || !path_ok(lines[1]@) {
        r matches Err(e) && (e matches RiddleError::Generic(m) && m@ == "could not parse path"@)
    } else if !(path_fits(origin(), path_of(lines[0]@)) && path_fits(
        origin(),
        path_of(lines[1]@),
    )) {
        r matches Err(e) && (e matches RiddleError::Generic(m) && m@ == "path leaves the grid"@)
    } else {
        let crossings = path_points(origin(), path_of(lines[0]@)).intersect(
            path_points(origin(), path_of(lines[1]@)),
        );
        match r {
            Ok(s) => s matches Solution::Number(v) && (exists|p: Point|
                crossings.contains(p) && spec_norm(p) == v) && (forall|q: Point|
                crossings.contains(q) ==> spec_norm(q) >= v),
            Err(e) => e matches RiddleError::Generic(m) && ((m@ == "could not determine min"@
                && crossings == Set::<Point>::empty()) || (m@ == "distance does not fit"@
                && crossings != Set::<Point>::empty() && (forall|q: Point|
                crossings.contains(q) ==> spec_norm(q) > i64::MAX))),
        }
    }
}

/// The crossed-wires riddle: the nearest crossing of two wire paths.
pub struct Advent3Riddle1 {
    input_file: String,
}

impl Advent3Riddle1 {
    /// The path of this riddle's input file.
    pub closed spec fn path_view(&self) -> Seq<char> {
        self.input_file@
    }

    pub fn new(input_file: &str) -> (r: Advent3Riddle1)
        ensures
            r.path_view() == input_file@,
    {
        Advent3Riddle1 { input_file: input_file.to_owned() }
    }

    /// The file this riddle reads its two wire paths from.
    pub fn path(&self) -> (r: &String)
        ensures
            r@ == self.path_view(),
    {
        &self.input_file
    }

    /// Solve the riddle from the lines of its input file: the distance
    /// from the origin to the nearest crossing of the two wires.
    pub fn solve_lines(&self, lines: &Vec<String>) -> (r: Result<Solution, RiddleError>)
        ensures
            advent3_post(lines@, r),
    {
        if lines.len() != 2 {
            return Err(RiddleError::Generic("expected two input lines".to_owned()));
        }
        let path1 = match from_comma_separated_str(lines[0].as_str()) {
            Ok(v) => v,
            Err(_) => {
                return Err(RiddleError::Generic("could not parse path".to_owned()));
            },
        };
        let path2 = match from_comma_separated_str(lines[1].as_str()) {
            Ok(v) => v,
            Err(_) => {
                return Err(RiddleError::Generic("could not parse path".to_owned()));
            },
        };
        let origin_point = Point { x: 0, y: 0 };
        if !check_path_fits(&origin_point, &path1) || !check_path_fits(&origin_point, &path2) {
            return Err(RiddleError::Generic("path leaves the grid".to_owned()));
        }
        let in_both_parts = points_in_both_paths(&path1, &path2);
        match in_both_parts.min_norm() {
            None => Err(RiddleError::Generic("could not determine min".to_owned())),
            Some(m) => {
                if m > i64::MAX as u128 {
                    Err(RiddleError::Generic("distance does not fit".to_owned()))
                } else {
                    Ok(Solution::Number(m as i64))
                }
            },
        }
    }
}

impl Riddle for Advent3Riddle1 {
    fn solve(&self, lines: &Vec<String>) -> Result<Solution, RiddleError> {
        self.solve_lines(lines)
    }
}

} // verus!
