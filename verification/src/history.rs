//! The trace of a history graph as drawing commands.
//!
//! The trace is drawn in the unit square: time runs to the right, values grow
//! upwards. Coordinates are computed in double precision and written with four
//! decimals.
use crate::arith::{
    complement, complement_is_close, complement_of, complement_of_the_bounds,
    complement_turns_order, difference, difference_is_close, difference_keeps_order,
    integers_keep_order, lemma_complement_bound, lemma_difference_below, lemma_difference_bound,
    lemma_difference_is_finite, lemma_difference_is_positive, lemma_integer_is_exact,
    lemma_proportion_bound, lemma_proportion_close, lemma_share_bound, lemma_signed_order,
    natural_is_close, no_part_is_no_proportion, nothing_is_left_of_equal_numbers, proportion,
    proportion_keeps_order, proportion_of, signed_units, subtract, ten_thousandths,
    ten_thousandths_are_close, ten_thousandths_keep_order, to_ten_thousandths, units, INFINITE,
};
use crate::entity::Entity;
use crate::number::{lemma_integer_size, Real64};
use crate::text::{digit, digit_char, digit_reads_as_its_value};
use vstd::prelude::*;
use vstd::string::*;

verus! {

/// A recorded value.
#[derive(Clone, Copy, Debug, PartialEq, Eq, Structural)]
pub struct HistoryPoint {
    /// Seconds since the epoch.
    pub at_second: i64,
    pub value: Real64,
}

/// The recorded values of some span of time, oldest first.
#[derive(Debug)]
pub struct HistoryWindow {
    pub points: Vec<HistoryPoint>,
}

/// A coordinate of the unit square.
#[derive(Clone, Copy, Debug, PartialEq, Eq, Structural)]
pub enum Coord {
    /// In ten-thousandths of the side.
    Share(u16),
    /// The arithmetic has no result.
    Undefined,
}

/// Positive infinity.
pub open spec fn infinity() -> Real64 {
    Real64 { bits: INFINITE }
}

/// Negative infinity.
pub open spec fn negative_infinity() -> Real64 {
    Real64 { bits: 0xfff0_0000_0000_0000 }
}

/// The instant of a point, as a double.
pub open spec fn instant(p: HistoryPoint) -> Real64 {
    Real64::nearest_integer(p.at_second as int)
}

/// The first of the lowest numbers among the values, or infinity where there is no
/// number below it.
pub open spec fn lowest(points: Seq<HistoryPoint>) -> Real64
    decreases points.len(),
{
    if points.len() == 0 {
        infinity()
    } else {
        let before = lowest(points.drop_last());
        let v = points.last().value;
        if !v.nan() && v.order_key() < before.order_key() {
            v
        } else {
            before
        }
    }
}

/// The first of the highest numbers among the values, or negative infinity where
/// there is no number above it.
pub open spec fn highest(points: Seq<HistoryPoint>) -> Real64
    decreases points.len(),
{
    if points.len() == 0 {
        negative_infinity()
    } else {
        let before = highest(points.drop_last());
        let v = points.last().value;
        if !v.nan() && v.order_key() > before.order_key() {
            v
        } else {
            before
        }
    }
}

/// The whole window lies at one instant.
pub open spec fn flat_time(points: Seq<HistoryPoint>) -> bool {
    instant(points.last()).order_key() <= instant(points[0]).order_key()
}

/// The values do not vary.
pub open spec fn flat_value(points: Seq<HistoryPoint>) -> bool {
    lowest(points).order_key() == highest(points).order_key() && lowest(points).finite()
}

/// A share of the side, rounded to four decimals.
pub open spec fn share(x: Option<Real64>) -> Coord {
    match x {
        Some(v) => Coord::Share(ten_thousandths(v) as u16),
        None => Coord::Undefined,
    }
}

/// Where point `i` falls from left to right: the share of the window's duration
/// that has passed.
pub open spec fn plot_x(points: Seq<HistoryPoint>, i: int) -> Coord {
    let first = instant(points[0]);
    if flat_time(points) || instant(points[i]).order_key() <= first.order_key() {
        Coord::Share(0)
    } else {
        share(
            proportion(
                difference(instant(points[i]), first),
                difference(instant(points.last()), first),
            ),
        )
    }
}

/// The range of the values.
pub open spec fn value_range(points: Seq<HistoryPoint>) -> Real64 {
    if highest(points).finite() {
        difference(highest(points), lowest(points))
    } else {
        infinity()
    }
}

/// Where point `i` falls from top to bottom: the share of the window's value range
/// that lies above it.
pub open spec fn plot_y(points: Seq<HistoryPoint>, i: int) -> Coord {
    let v = points[i].value;
    if flat_value(points) {
        Coord::Share(5000)
    } else if !v.finite() || !lowest(points).finite() {
        Coord::Undefined
    } else {
        share(
            match proportion(difference(v, lowest(points)), value_range(points)) {
                Some(p) => Some(complement(p)),
                None => None,
            },
        )
    }
}

/// A coordinate in text, with four decimals.
pub open spec fn coord_text(c: Coord) -> Seq<char> {
    match c {
        Coord::Share(n) => seq![
            digit_char(n as int / 10000),
            '.',
            digit_char((n as int / 1000) % 10),
            digit_char((n as int / 100) % 10),
            digit_char((n as int / 10) % 10),
            digit_char(n as int % 10),
        ],
        Coord::Undefined => "NaN"@,
    }
}

/// The command that draws to point `i`.
pub open spec fn command_text(points: Seq<HistoryPoint>, i: int) -> Seq<char> {
    (if i == 0 {
        "M "@
    } else {
        "L "@
    }) + coord_text(plot_x(points, i)) + " "@ + coord_text(plot_y(points, i))
}

/// The commands for the first `n` points, one blank between two of them.
pub open spec fn path_text(points: Seq<HistoryPoint>, n: int) -> Seq<char>
    decreases n,
{
    if n <= 0 {
        Seq::empty()
    } else if n == 1 {
        command_text(points, 0)
    } else {
        path_text(points, n - 1) + " "@ + command_text(points, n - 1)
    }
}

fn append_coord(out: &mut String, c: Coord)
    requires
        c matches Coord::Share(n) ==> n <= 10000,
    ensures
        final(out)@ == old(out)@ + coord_text(c),
{
    match c {
        Coord::Share(n) => {
            proof {
                reveal_strlit(".");
                assert("."@ =~= seq!['.']);
            }
            out.append(digit(n / 10000));
            out.append(".");
            out.append(digit((n / 1000) % 10));
            out.append(digit((n / 100) % 10));
            out.append(digit((n / 10) % 10));
            out.append(digit(n % 10));
            assert(out@ =~= old(out)@ + coord_text(c));
        },
        Coord::Undefined => {
            out.append("NaN");
        },
    }
}

/// Every number among the values lies between the lowest and the highest one.
pub proof fn values_lie_between_the_bounds(points: Seq<HistoryPoint>, i: int)
    requires
        0 <= i < points.len(),
        !points[i].value.nan(),
    ensures
        lowest(points).order_key() <= points[i].value.order_key(),
        points[i].value.order_key() <= highest(points).order_key(),
    decreases points.len(),
{
    if i < points.len() - 1 {
        values_lie_between_the_bounds(points.drop_last(), i);
    }
}

/// A bound is the value of a point, unless it is infinite.
pub proof fn bounds_are_recorded(points: Seq<HistoryPoint>)
    ensures
        !lowest(points).nan(),
        !highest(points).nan(),
        lowest(points) == infinity() || exists|i: int|
            0 <= i < points.len() && (#[trigger] points[i]).value == lowest(points),
        highest(points) == negative_infinity() || exists|i: int|
            0 <= i < points.len() && (#[trigger] points[i]).value == highest(points),
    decreases points.len(),
{
    if points.len() > 0 {
        let rest = points.drop_last();
        bounds_are_recorded(rest);
        assert(points[points.len() - 1] == points.last());
        if lowest(points) == lowest(rest) && lowest(points) != infinity() {
            let i = choose|i: int|
                0 <= i < rest.len() && (#[trigger] rest[i]).value == lowest(rest);
            assert(points[i].value == lowest(points));
        }
        if highest(points) == highest(rest) && highest(points) != negative_infinity() {
            let i = choose|i: int|
                0 <= i < rest.len() && (#[trigger] rest[i]).value == highest(rest);
            assert(points[i].value == highest(points));
        }
    }
}

/// The bounds of a trace.
#[derive(Clone, Copy, Debug, PartialEq, Eq, Structural)]
struct TraceExtent {
    first: Real64,
    last: Real64,
    lowest: Real64,
    highest: Real64,
}

impl TraceExtent {
    spec fn bounds(self, points: Seq<HistoryPoint>) -> bool {
        &&& points.len() > 0
        &&& self.first == instant(points[0])
        &&& self.last == instant(points.last())
        &&& self.first.finite()
        &&& self.last.finite()
        &&& self.lowest == lowest(points)
        &&& self.highest == highest(points)
    }

    fn plot_x(&self, points: &Vec<HistoryPoint>, i: usize) -> (r: Coord)
        requires
            self.bounds(points@),
            0 <= i < points@.len(),
        ensures
            r == plot_x(points@, i as int),
            r matches Coord::Share(n) ==> n <= 10000,
    {
        let at: Real64 = Real64::from_integer(points[i].at_second);
        if self.last.key() <= self.first.key() || at.key() <= self.first.key() {
            return Coord::Share(0);
        }
        match proportion_of(subtract(at, self.first), subtract(self.last, self.first)) {
            Some(v) => Coord::Share(to_ten_thousandths(v)),
            None => Coord::Undefined,
        }
    }

    fn plot_y(&self, points: &Vec<HistoryPoint>, i: usize) -> (r: Coord)
        requires
            self.bounds(points@),
            0 <= i < points@.len(),
        ensures
            r == plot_y(points@, i as int),
            r matches Coord::Share(n) ==> n <= 10000,
    {
        if self.lowest.key() == self.highest.key() && self.lowest.is_finite() {
            return Coord::Share(5000);
        }
        let value: Real64 = points[i].value;
        if !value.is_finite() || !self.lowest.is_finite() {
            return Coord::Undefined;
        }
        proof {
            values_lie_between_the_bounds(points@, i as int);
        }
        let range: Real64 = if self.highest.is_finite() {
            subtract(self.highest, self.lowest)
        } else {
            Real64 { bits: INFINITE }
        };
        match proportion_of(subtract(value, self.lowest), range) {
            Some(v) => Coord::Share(to_ten_thousandths(complement_of(v))),
            None => Coord::Undefined,
        }
    }
}

impl HistoryWindow {
    /// The number of recorded values.
    pub fn len(&self) -> (n: usize)
        ensures
            n == self.points@.len(),
    {
        self.points.len()
    }

    /// The bounds of the trace.
    fn extent(&self) -> (r: TraceExtent)
        requires
            self.points@.len() > 0,
        ensures
            r.bounds(self.points@),
    {
        let n: usize = self.points.len();
        let ghost all = self.points@;
        let mut low: Real64 = Real64 { bits: INFINITE };
        let mut high: Real64 = Real64 { bits: 0xfff0_0000_0000_0000 };
        let mut i: usize = 0;
        while i < n
            invariant
                i <= n,
                n == all.len(),
                all == self.points@,
                low == lowest(all.take(i as int)),
                high == highest(all.take(i as int)),
            decreases n - i,
        {
            let v: Real64 = self.points[i].value;
            proof {
                assert(all.take(i + 1).drop_last() =~= all.take(i as int));
                assert(all.take(i + 1).last() == all[i as int]);
            }
            if !v.is_nan() {
                if v.key() < low.key() {
                    low = v;
                }
                if v.key() > high.key() {
                    high = v;
                }
            }
            i = i + 1;
        }
        assert(all.take(n as int) =~= all);
        TraceExtent {
            first: Real64::from_integer(self.points[0].at_second),
            last: Real64::from_integer(self.points[n - 1].at_second),
            lowest: low,
            highest: high,
        }
    }
}

/// The drawing commands of a trace: a move to the first point, a line to each
/// further one.
pub fn history_path_commands(window: &HistoryWindow) -> (r: String)
    ensures
        r@ == path_text(window.points@, window.points@.len() as int),
{
    let points: &Vec<HistoryPoint> = &window.points;
    let mut out: String = String::new();
    let n: usize = points.len();
    if n == 0 {
        assert(out@ =~= Seq::<char>::empty());
        return out;
    }
    let extent: TraceExtent = window.extent();
    let mut i: usize = 0;
    while i < n
        invariant
            i <= n,
            n == points@.len(),
            points@ == window.points@,
            n > 0,
            extent.bounds(points@),
            out@ == path_text(points@, i as int),
        decreases n - i,
    {
        let ghost before = out@;
        if i > 0 {
            out.append(" ");
            out.append("L ");
        } else {
            out.append("M ");
        }
        append_coord(&mut out, extent.plot_x(points, i));
        out.append(" ");
        append_coord(&mut out, extent.plot_y(points, i));
        proof {
            if i == 0 {
                assert(out@ =~= command_text(points@, 0));
            } else {
                assert(out@ =~= before + " "@ + command_text(points@, i as int));
            }
        }
        i = i + 1;
    }
    out
}

/// What a history graph's tile shows beside its trace.
#[derive(Clone, Copy, Debug, PartialEq, Eq, Structural)]
pub struct HistoryGraphVM {
    pub change_count: i32,
    pub is_available: bool,
}

impl HistoryGraphVM {
    /// Reads whether the entity is within reach.
    pub fn from_entity(entity: &Entity, change_count: i32) -> (r: HistoryGraphVM)
        ensures
            r.change_count == change_count,
            r.is_available == !entity@.out_of_reach(),
            r.is_available <==> entity.state@ != "unavailable"@ && entity.state@ != "unknown"@,
    {
        HistoryGraphVM { change_count, is_available: !entity.is_out_of_reach() }
    }
}

/// Every value of a trace that does not vary is the same number.
pub proof fn flat_trace_has_one_value(points: Seq<HistoryPoint>, i: int)
    requires
        flat_value(points),
        0 <= i < points.len(),
        !points[i].value.nan(),
    ensures
        points[i].value.order_key() == lowest(points).order_key(),
{
    values_lie_between_the_bounds(points, i);
}

/// The trace starts at the left edge, and where time passes it ends at the right.
pub proof fn trace_spans_the_width(points: Seq<HistoryPoint>)
    requires
        points.len() > 0,
    ensures
        plot_x(points, 0) == Coord::Share(0),
        !flat_time(points) ==> plot_x(points, points.len() - 1) == Coord::Share(10000),
{
    complement_of_the_bounds();
    let (first, last) = (instant(points[0]), instant(points.last()));
    lemma_integer_size(points[0].at_second);
    lemma_integer_size(points.last().at_second);
    lemma_difference_is_finite(last, first);
}

/// Where values vary, the highest one is drawn at the top and the lowest one at the
/// bottom, unless their difference is beyond the largest number.
pub proof fn extremes_touch_the_edges(points: Seq<HistoryPoint>, i: int)
    requires
        0 <= i < points.len(),
        lowest(points).finite(),
        highest(points).finite(),
        value_range(points).bits < INFINITE,
        !flat_value(points),
    ensures
        points[i].value == highest(points) ==> plot_y(points, i) == Coord::Share(0),
        points[i].value == lowest(points) ==> plot_y(points, i) == Coord::Share(10000),
{
    complement_of_the_bounds();
    nothing_is_left_of_equal_numbers(lowest(points));
    if points[i].value == highest(points) || points[i].value == lowest(points) {
        values_lie_between_the_bounds(points, i);
        lemma_difference_is_positive(highest(points), lowest(points));
        no_part_is_no_proportion(value_range(points));
    }
}

/// `q` holds the values of `p`, each recorded `shift` seconds later. All instants are
/// exact in double precision.
pub open spec fn shifted(p: Seq<HistoryPoint>, q: Seq<HistoryPoint>, shift: int) -> bool {
    &&& p.len() == q.len()
    &&& forall|i: int|
        #![trigger p[i]]
        #![trigger q[i]]
        0 <= i < p.len() ==> {
            &&& q[i].value == p[i].value
            &&& q[i].at_second == p[i].at_second + shift
            &&& -0x20_0000_0000_0000 <= p[i].at_second <= 0x20_0000_0000_0000
            &&& -0x20_0000_0000_0000 <= q[i].at_second <= 0x20_0000_0000_0000
        }
}

/// Of time, only the offsets from the first point count: a window that is shifted as
/// a whole is drawn in the same way.
pub proof fn shifted_trace_is_drawn_alike(
    p: Seq<HistoryPoint>,
    q: Seq<HistoryPoint>,
    shift: int,
)
    requires
        shifted(p, q, shift),
    ensures
        path_text(p, p.len() as int) == path_text(q, q.len() as int),
{
    if p.len() > 0 {
        lemma_same_bounds(p, q);
        lemma_shifted_prefix(p, q, shift, p.len() as int);
    }
}

proof fn lemma_same_bounds(p: Seq<HistoryPoint>, q: Seq<HistoryPoint>)
    requires
        p.len() == q.len(),
        forall|i: int| 0 <= i < p.len() ==> (#[trigger] p[i]).value == q[i].value,
    ensures
        lowest(p) == lowest(q),
        highest(p) == highest(q),
    decreases p.len(),
{
    if p.len() > 0 {
        assert forall|i: int| 0 <= i < p.len() - 1 implies (#[trigger] p.drop_last()[i]).value
            == q.drop_last()[i].value by {
            assert(p[i].value == q[i].value);
        }
        lemma_same_bounds(p.drop_last(), q.drop_last());
        assert(p[p.len() - 1].value == q[p.len() - 1].value);
    }
}

proof fn lemma_shifted_prefix(
    p: Seq<HistoryPoint>,
    q: Seq<HistoryPoint>,
    shift: int,
    n: int,
)
    requires
        shifted(p, q, shift),
        lowest(p) == lowest(q),
        highest(p) == highest(q),
        0 <= n <= p.len(),
    ensures
        path_text(p, n) == path_text(q, n),
    decreases n,
{
    if n > 0 {
        lemma_shifted_prefix(p, q, shift, n - 1);
        let i = n - 1;
        let last = p.len() - 1;
        assert(q[i].value == p[i].value);
        lemma_same_offset(p[i], p[0], q[i], q[0]);
        lemma_same_offset(p[last], p[0], q[last], q[0]);
        assert(plot_x(p, i) == plot_x(q, i));
        assert(plot_y(p, i) == plot_y(q, i));
    }
}

proof fn lemma_same_offset(
    a: HistoryPoint,
    b: HistoryPoint,
    c: HistoryPoint,
    d: HistoryPoint,
)
    requires
        a.at_second - b.at_second == c.at_second - d.at_second,
        -0x20_0000_0000_0000 <= a.at_second <= 0x20_0000_0000_0000,
        -0x20_0000_0000_0000 <= b.at_second <= 0x20_0000_0000_0000,
        -0x20_0000_0000_0000 <= c.at_second <= 0x20_0000_0000_0000,
        -0x20_0000_0000_0000 <= d.at_second <= 0x20_0000_0000_0000,
    ensures
        difference(instant(a), instant(b)) == difference(instant(c), instant(d)),
        instant(a).order_key() <= instant(b).order_key() <==> instant(c).order_key() <= instant(
            d,
        ).order_key(),
{
    lemma_instant_order(a, b);
    lemma_instant_order(c, d);
    lemma_integer_is_exact(a.at_second as int);
    lemma_integer_is_exact(b.at_second as int);
    lemma_integer_is_exact(c.at_second as int);
    lemma_integer_is_exact(d.at_second as int);
    let u = vstd::arithmetic::power2::pow2(1074) as int;
    let (w, x, y, z) = (
        a.at_second as int,
        b.at_second as int,
        c.at_second as int,
        d.at_second as int,
    );
    assert(w * u - x * u == y * u - z * u) by (nonlinear_arith)
        requires
            w - x == y - z,
    ;
}

/// Instants are ordered as their seconds are.
proof fn lemma_instant_order(a: HistoryPoint, b: HistoryPoint)
    requires
        -0x20_0000_0000_0000 <= a.at_second <= 0x20_0000_0000_0000,
        -0x20_0000_0000_0000 <= b.at_second <= 0x20_0000_0000_0000,
    ensures
        instant(a).order_key() <= instant(b).order_key() <==> a.at_second <= b.at_second,
{
    let (x, y) = (instant(a), instant(b));
    lemma_integer_is_exact(a.at_second as int);
    lemma_integer_is_exact(b.at_second as int);
    vstd::arithmetic::power2::lemma_pow2_pos(1074);
    let u = vstd::arithmetic::power2::pow2(1074) as int;
    let (m, n) = (a.at_second as int, b.at_second as int);
    if x.order_key() <= y.order_key() {
        lemma_signed_order(y, x);
        assert(m <= n) by (nonlinear_arith)
            requires
                m * u <= n * u,
                u > 0,
        ;
    } else {
        lemma_signed_order(x, y);
        assert(n < m) by (nonlinear_arith)
            requires
                n * u < m * u,
                u > 0,
        ;
    }
}

/// A trace of finite values, whose range is finite too, has all its coordinates.
pub proof fn ordinary_trace_has_all_coordinates(points: Seq<HistoryPoint>, i: int)
    requires
        0 <= i < points.len(),
    ensures
        plot_x(points, i) is Share,
        points[i].value.finite() && lowest(points).finite() && value_range(points).bits < INFINITE
            ==> plot_y(points, i) is Share,
{
    lemma_integer_size(points[0].at_second);
    lemma_integer_size(points.last().at_second);
    lemma_difference_is_finite(instant(points.last()), instant(points[0]));
}

/// Every coordinate lies on the unit square.
pub proof fn coordinates_lie_on_the_unit_square(points: Seq<HistoryPoint>, i: int)
    requires
        0 <= i < points.len(),
    ensures
        plot_x(points, i) matches Coord::Share(n) ==> n <= 10000,
        plot_y(points, i) matches Coord::Share(n) ==> n <= 10000,
{
    let first = instant(points[0]);
    let (p, w) = (
        difference(instant(points[i]), first),
        difference(instant(points.last()), first),
    );
    if proportion(p, w) is Some && !flat_time(points) {
        lemma_integer_size(points[0].at_second);
        lemma_integer_size(points.last().at_second);
        lemma_difference_is_finite(instant(points.last()), first);
        lemma_proportion_bound(p, w);
        lemma_share_bound(proportion(p, w).unwrap());
    }
    let (p, w) = (difference(points[i].value, lowest(points)), value_range(points));
    if proportion(p, w) is Some && !flat_value(points) && points[i].value.finite() && lowest(
        points,
    ).finite() {
        values_lie_between_the_bounds(points, i);
        if highest(points).finite() {
            lemma_difference_bound(highest(points), lowest(points));
        }
        lemma_proportion_bound(p, w);
        lemma_complement_bound(proportion(p, w).unwrap());
        lemma_share_bound(complement(proportion(p, w).unwrap()));
    }
}

/// How often `c` occurs in `s`.
pub open spec fn occurrences(s: Seq<char>, c: char) -> nat
    decreases s.len(),
{
    if s.len() == 0 {
        0
    } else {
        occurrences(s.drop_last(), c) + if s.last() == c {
            1nat
        } else {
            0
        }
    }
}

proof fn lemma_occurrences_concat(a: Seq<char>, b: Seq<char>, c: char)
    ensures
        occurrences(a + b, c) == occurrences(a, c) + occurrences(b, c),
    decreases b.len(),
{
    if b.len() == 0 {
        assert(a + b =~= a);
    } else {
        assert((a + b).drop_last() =~= a + b.drop_last());
        lemma_occurrences_concat(a, b.drop_last(), c);
    }
}

proof fn lemma_no_occurrence(s: Seq<char>, c: char)
    requires
        forall|i: int| 0 <= i < s.len() ==> s[i] != c,
    ensures
        occurrences(s, c) == 0,
    decreases s.len(),
{
    if s.len() > 0 {
        lemma_no_occurrence(s.drop_last(), c);
    }
}

proof fn lemma_command_letters(points: Seq<HistoryPoint>, i: int)
    requires
        i >= 0,
    ensures
        occurrences(command_text(points, i), 'M') == if i == 0 {
            1nat
        } else {
            0
        },
        occurrences(command_text(points, i), 'L') == if i == 0 {
            0nat
        } else {
            1
        },
{
    let x = coord_text(plot_x(points, i));
    let y = coord_text(plot_y(points, i));
    let letter = if i == 0 {
        'M'
    } else {
        'L'
    };
    let head = seq![letter, ' '];
    lemma_command_pieces(points, i);
    assert forall|c: char| c == 'M' || c == 'L' implies occurrences(command_text(points, i), c)
        == if c == letter {
        1nat
    } else {
        0
    } by {
        lemma_occurrences_concat(head + x + seq![' '], y, c);
        lemma_occurrences_concat(head + x, seq![' '], c);
        lemma_occurrences_concat(head, x, c);
        lemma_no_occurrence(seq![' '], c);
        lemma_coord_letters(plot_x(points, i), c);
        lemma_coord_letters(plot_y(points, i), c);
        assert(head.drop_last() =~= seq![letter]);
        assert(seq![letter].drop_last() =~= Seq::<char>::empty());
        assert(occurrences(seq![letter].drop_last(), c) == 0);
        assert(occurrences(head.drop_last(), c) == if c == letter {
            1nat
        } else {
            0
        });
    }
}

proof fn lemma_coord_letters(x: Coord, c: char)
    requires
        c == 'M' || c == 'L',
    ensures
        occurrences(coord_text(x), c) == 0,
{
    reveal_strlit("NaN");
    lemma_no_occurrence(coord_text(x), c);
}

/// A trace of `n` points is drawn by one move and `n - 1` lines.
pub proof fn path_has_one_move_and_a_line_per_further_point(points: Seq<HistoryPoint>, n: int)
    requires
        n >= 1,
    ensures
        occurrences(path_text(points, n), 'M') == 1,
        occurrences(path_text(points, n), 'L') == n - 1,
    decreases n,
{
    lemma_command_letters(points, n - 1);
    if n > 1 {
        path_has_one_move_and_a_line_per_further_point(points, n - 1);
        reveal_strlit(" ");
        assert(" "@ =~= seq![' ']);
        assert forall|c: char| c == 'M' || c == 'L' implies occurrences(path_text(points, n), c)
            == occurrences(path_text(points, n - 1), c) + occurrences(
            command_text(points, n - 1),
            c,
        ) by {
            lemma_occurrences_concat(
                path_text(points, n - 1) + " "@,
                command_text(points, n - 1),
                c,
            );
            lemma_occurrences_concat(path_text(points, n - 1), " "@, c);
            lemma_no_occurrence(" "@, c);
        }
    }
}

/// Where values vary, a value is drawn as far below the top as the exact share of the
/// range that lies above it, to half a ten-thousandth and a thousandth part of that
/// half. The number of points does not matter.
pub proof fn height_is_the_share_of_the_range_above(points: Seq<HistoryPoint>, i: int)
    requires
        0 <= i < points.len(),
        points[i].value.finite(),
        lowest(points).finite(),
        highest(points).finite(),
        lowest(points).order_key() < highest(points).order_key(),
        value_range(points).bits < INFINITE,
    ensures
        plot_y(points, i) is Share,
        ({
            let n = plot_y(points, i)->0 as int;
            let top = signed_units(highest(points));
            let range = top - signed_units(lowest(points));
            let above = top - signed_units(points[i].value);
            &&& range > 0
            &&& -1001 * range <= 2000 * (n * range - 10000 * above) <= 1001 * range
        }),
{
    let (v, low, high) = (points[i].value, lowest(points), highest(points));
    values_lie_between_the_bounds(points, i);
    lemma_signed_order(v, low);
    lemma_signed_order(high, v);
    lemma_signed_order(high, low);
    let x = signed_units(v) - signed_units(low);
    let d = signed_units(high) - signed_units(low);
    let (part, whole) = (difference(v, low), difference(high, low));
    difference_keeps_order(high, v, low);
    difference_is_close(v, low);
    difference_is_close(high, low);
    lemma_difference_is_positive(high, low);
    lemma_proportion_close(part, whole, x, d);
    let p = proportion(part, whole).unwrap();
    lemma_proportion_bound(part, whole);
    complement_is_close(p);
    lemma_complement_bound(p);
    ten_thousandths_are_close(complement(p));
    lemma_share_bound(complement(p));
    let k = vstd::arithmetic::power2::pow2(1074) as int;
    vstd::arithmetic::power2::lemma_pow2_pos(1074);
    let (q, c) = (units(p), units(complement(p)));
    lemma_left_over(c, q, x, d, k);
    lemma_share_close(ten_thousandths(complement(p)), c, d - x, d, k);
}

proof fn lemma_left_over(c: int, q: int, x: int, d: int, k: int)
    requires
        d > 0,
        k > 0,
        -k <= 0x20_0000_0000_0000 * (c - (k - q)) <= k,
        -(k * d) <= 0x4_0000_0000_0000 * (q * d - k * x) <= k * d,
    ensures
        -(k * d) <= 0x2_0000_0000_0000 * (c * d - k * (d - x)) <= k * d,
{
    let (e, g, kd) = (c - (k - q), q * d - k * x, k * d);
    let ed = e * d;
    assert(c * d - k * (d - x) == ed - g) by (nonlinear_arith)
        requires
            e == c - (k - q),
            g == q * d - k * x,
            ed == e * d,
    ;
    assert(-kd <= 0x20_0000_0000_0000 * ed <= kd) by (nonlinear_arith)
        requires
            -k <= 0x20_0000_0000_0000 * e <= k,
            ed == e * d,
            kd == k * d,
            d > 0,
    ;
    assert(kd > 0) by (nonlinear_arith)
        requires
            kd == k * d,
            k > 0,
            d > 0,
    ;
}

/// A share `c` of `k` that is close to the exact `z` of `d` has close to as many
/// ten-thousandths.
proof fn lemma_share_close(n: int, c: int, z: int, d: int, k: int)
    requires
        d > 0,
        k > 0,
        -k <= 2 * (n * k - 10000 * c) <= k,
        -(k * d) <= 0x2_0000_0000_0000 * (c * d - k * z) <= k * d,
    ensures
        -1001 * d <= 2000 * (n * d - 10000 * z) <= 1001 * d,
{
    let (g, h, kd) = (n * k - 10000 * c, c * d - k * z, k * d);
    let (gd, goal) = (g * d, n * d - 10000 * z);
    assert(k * goal == gd + 10000 * h) by (nonlinear_arith)
        requires
            g == n * k - 10000 * c,
            h == c * d - k * z,
            gd == g * d,
            goal == n * d - 10000 * z,
    ;
    assert(-kd <= 2 * gd <= kd) by (nonlinear_arith)
        requires
            -k <= 2 * g <= k,
            gd == g * d,
            kd == k * d,
            d > 0,
    ;
    assert(kd > 0) by (nonlinear_arith)
        requires
            kd == k * d,
            k > 0,
            d > 0,
    ;
    let kg = k * goal;
    assert(-1001 * kd <= 2000 * kg <= 1001 * kd);
    assert(-1001 * d <= 2000 * goal <= 1001 * d) by (nonlinear_arith)
        requires
            -1001 * kd <= 2000 * kg <= 1001 * kd,
            kd == k * d,
            kg == k * goal,
            k > 0,
    ;
}

/// A larger value is never drawn lower.
pub proof fn larger_value_is_not_drawn_lower(points: Seq<HistoryPoint>, i: int, j: int)
    requires
        0 <= i < points.len(),
        0 <= j < points.len(),
        points[i].value.finite(),
        points[j].value.finite(),
        signed_units(points[i].value) <= signed_units(points[j].value),
        plot_y(points, i) is Share,
        plot_y(points, j) is Share,
    ensures
        plot_y(points, j)->0 <= plot_y(points, i)->0,
{
    let (a, b, low) = (points[i].value, points[j].value, lowest(points));
    values_lie_between_the_bounds(points, i);
    values_lie_between_the_bounds(points, j);
    if b.order_key() < a.order_key() {
        lemma_signed_order(a, b);
    }
    if !flat_value(points) {
        let (p, q, whole) = (difference(a, low), difference(b, low), value_range(points));
        difference_keeps_order(b, a, low);
        lemma_difference_bound(a, low);
        lemma_difference_bound(b, low);
        if highest(points).finite() {
            lemma_difference_bound(highest(points), low);
            if low.order_key() < highest(points).order_key() {
                lemma_difference_is_positive(highest(points), low);
            }
        }
        lemma_proportion_bound(p, whole);
        lemma_proportion_bound(q, whole);
        if whole.bits < INFINITE {
            proportion_keeps_order(p, q, whole);
        }
        let (x, y) = (proportion(p, whole).unwrap(), proportion(q, whole).unwrap());
        complement_turns_order(x, y);
        lemma_share_bound(complement(x));
        lemma_share_bound(complement(y));
        ten_thousandths_keep_order(complement(y), complement(x));
    }
}

/// Values further apart than a ten-thousandth of the range, and a thousandth part of
/// that, are drawn at different heights.
pub proof fn values_apart_are_drawn_apart(points: Seq<HistoryPoint>, i: int, j: int)
    requires
        0 <= i < points.len(),
        0 <= j < points.len(),
        points[i].value.finite(),
        points[j].value.finite(),
        lowest(points).finite(),
        highest(points).finite(),
        value_range(points).bits < INFINITE,
        10000000 * (signed_units(points[j].value) - signed_units(points[i].value)) > 1001 * (
        signed_units(highest(points)) - signed_units(lowest(points))),
    ensures
        plot_y(points, i) is Share,
        plot_y(points, j) is Share,
        plot_y(points, j)->0 < plot_y(points, i)->0,
{
    let (low, high) = (lowest(points), highest(points));
    values_lie_between_the_bounds(points, i);
    values_lie_between_the_bounds(points, j);
    lemma_signed_order(points[i].value, low);
    lemma_signed_order(high, points[j].value);
    if low.order_key() == high.order_key() {
        lemma_signed_order(points[j].value, points[i].value);
        lemma_signed_order(high, low);
        lemma_signed_order(low, high);
    }
    height_is_the_share_of_the_range_above(points, i);
    height_is_the_share_of_the_range_above(points, j);
    let range = signed_units(high) - signed_units(low);
    let (m, n) = (plot_y(points, i)->0 as int, plot_y(points, j)->0 as int);
    let (a, b) = (
        signed_units(high) - signed_units(points[i].value),
        signed_units(high) - signed_units(points[j].value),
    );
    assert(n < m) by (nonlinear_arith)
        requires
            range > 0,
            -1001 * range <= 2000 * (m * range - 10000 * a),
            2000 * (n * range - 10000 * b) <= 1001 * range,
            10000000 * (a - b) > 1001 * range,
    ;
}

/// Where every number among the values is the same finite one, the trace runs along
/// the middle.
pub proof fn flat_trace_runs_along_the_middle(points: Seq<HistoryPoint>, i: int, k: int)
    requires
        0 <= i < points.len(),
        0 <= k < points.len(),
        points[k].value.finite(),
        forall|j: int|
            0 <= j < points.len() && !(#[trigger] points[j]).value.nan()
                ==> points[j].value.order_key() == points[k].value.order_key(),
    ensures
        plot_y(points, i) == Coord::Share(5000),
{
    bounds_are_recorded(points);
    values_lie_between_the_bounds(points, k);
    let (low, high) = (lowest(points), highest(points));
    if low != infinity() {
        let j = choose|j: int| 0 <= j < points.len() && (#[trigger] points[j]).value == low;
        assert(points[j].value.order_key() == points[k].value.order_key());
    }
    if high != negative_infinity() {
        let j = choose|j: int| 0 <= j < points.len() && (#[trigger] points[j]).value == high;
        assert(points[j].value.order_key() == points[k].value.order_key());
    }
    lemma_finite_key(points[k].value, low);
    lemma_finite_key(points[k].value, high);
}

/// Whether a number is finite shows in its place among the numbers.
proof fn lemma_finite_key(x: Real64, y: Real64)
    requires
        x.finite(),
        !y.nan(),
    ensures
        -INFINITE < x.order_key() < INFINITE,
        y.finite() <==> -INFINITE < y.order_key() < INFINITE,
{
}

/// A value that is no finite number has no height in a trace whose values vary.
pub proof fn boundless_value_has_no_height(points: Seq<HistoryPoint>, i: int, a: int, b: int)
    requires
        0 <= i < points.len(),
        0 <= a < points.len(),
        0 <= b < points.len(),
        !points[i].value.finite(),
        !points[a].value.nan(),
        !points[b].value.nan(),
        points[a].value.order_key() < points[b].value.order_key(),
    ensures
        plot_y(points, i) == Coord::Undefined,
{
    values_lie_between_the_bounds(points, a);
    values_lie_between_the_bounds(points, b);
}

/// Where no value is a finite number, none has a height.
pub proof fn boundless_trace_has_no_heights(points: Seq<HistoryPoint>, i: int)
    requires
        0 <= i < points.len(),
        forall|j: int| 0 <= j < points.len() ==> !(#[trigger] points[j]).value.finite(),
    ensures
        plot_y(points, i) == Coord::Undefined,
{
    bounds_are_recorded(points);
    if lowest(points) != infinity() {
        let j = choose|j: int|
            0 <= j < points.len() && (#[trigger] points[j]).value == lowest(points);
        assert(!points[j].value.finite());
    }
}

/// Where a value lies infinitely low, none has a height.
pub proof fn bottomless_trace_has_no_heights(points: Seq<HistoryPoint>, i: int, b: int)
    requires
        0 <= i < points.len(),
        0 <= b < points.len(),
        points[b].value == negative_infinity(),
    ensures
        plot_y(points, i) == Coord::Undefined,
{
    values_lie_between_the_bounds(points, b);
    bounds_are_recorded(points);
    lemma_finite_key(Real64 { bits: 0 }, lowest(points));
}

/// Where the range of the values is beyond the largest number, a value within reach of
/// the lowest one is drawn at the bottom, and any other has no height.
pub proof fn boundless_range_presses_values_to_the_bottom(points: Seq<HistoryPoint>, i: int)
    requires
        0 <= i < points.len(),
        points[i].value.finite(),
        lowest(points).finite(),
        lowest(points).order_key() != highest(points).order_key(),
        value_range(points).bits == INFINITE,
    ensures
        difference(points[i].value, lowest(points)).bits < INFINITE ==> plot_y(points, i)
            == Coord::Share(10000),
        difference(points[i].value, lowest(points)).bits == INFINITE ==> plot_y(points, i)
            == Coord::Undefined,
{
    complement_of_the_bounds();
    let p = Real64 { bits: 0 };
    let part = difference(points[i].value, lowest(points));
    if part.bits < INFINITE {
        assert(proportion(part, infinity()) == Some(p));
        assert(plot_y(points, i) == share(Some(complement(p))));
    }
}

/// The range of the values is the exact one to one part in 2^53, and finite below
/// 2^1023; it is infinite where a value is infinitely high.
pub proof fn range_is_the_difference_of_the_bounds(points: Seq<HistoryPoint>)
    requires
        lowest(points).finite(),
    ensures
        !highest(points).finite() ==> value_range(points).bits == INFINITE,
        highest(points).finite() && lowest(points).order_key() <= highest(points).order_key() ==> {
            let range = signed_units(highest(points)) - signed_units(lowest(points));
            &&& range < vstd::arithmetic::power2::pow2(2097) ==> value_range(points).bits < INFINITE
            &&& value_range(points).bits < INFINITE ==> -range <= 0x20_0000_0000_0000 * (units(
                value_range(points),
            ) - range) <= range
        },
{
    let (low, high) = (lowest(points), highest(points));
    if high.finite() && low.order_key() <= high.order_key() {
        lemma_difference_below(high, low);
        if value_range(points).bits < INFINITE {
            difference_is_close(high, low);
        }
    }
}

/// Where time passes, a point within the window is drawn as far to the right as the
/// exact share of the duration that has passed at it, to half a ten-thousandth and a
/// thousandth part of that half. The number of points does not matter.
pub proof fn width_is_the_share_of_the_time_passed(points: Seq<HistoryPoint>, i: int)
    requires
        0 <= i < points.len(),
        -0x20_0000_0000_0000 <= points[0].at_second <= points[i].at_second,
        points[i].at_second <= points.last().at_second <= 0x20_0000_0000_0000,
        points[0].at_second < points.last().at_second,
    ensures
        plot_x(points, i) is Share,
        ({
            let n = plot_x(points, i)->0 as int;
            let duration = points.last().at_second - points[0].at_second;
            let passed = points[i].at_second - points[0].at_second;
            -1001 * duration <= 2000 * (n * duration - 10000 * passed) <= 1001 * duration
        }),
{
    let (p, first, last) = (points[i], points[0], points.last());
    lemma_instant_order(first, p);
    lemma_instant_order(p, last);
    lemma_instant_order(last, first);
    width_is_the_share_between_the_instants(points, i);
    lemma_integer_is_exact(p.at_second as int);
    lemma_integer_is_exact(first.at_second as int);
    lemma_integer_is_exact(last.at_second as int);
    let k = vstd::arithmetic::power2::pow2(1074) as int;
    vstd::arithmetic::power2::lemma_pow2_pos(1074);
    let n = plot_x(points, i)->0 as int;
    let duration = last.at_second - first.at_second;
    let passed = p.at_second - first.at_second;
    let (t, f, l) = (p.at_second as int, first.at_second as int, last.at_second as int);
    let (x, d) = (t * k - f * k, l * k - f * k);
    assert(x == passed * k && d == duration * k) by (nonlinear_arith)
        requires
            x == t * k - f * k,
            d == l * k - f * k,
            passed == t - f,
            duration == l - f,
    ;
    assert(-1001 * duration <= 2000 * (n * duration - 10000 * passed) <= 1001 * duration)
        by (nonlinear_arith)
        requires
            -1001 * d <= 2000 * (n * d - 10000 * x) <= 1001 * d,
            x == passed * k,
            d == duration * k,
            k > 0,
    ;
}

/// A later point is never drawn further to the left.
pub proof fn later_point_is_not_drawn_before(points: Seq<HistoryPoint>, i: int, j: int)
    requires
        0 <= i < points.len(),
        0 <= j < points.len(),
        points[i].at_second <= points[j].at_second,
    ensures
        plot_x(points, i) is Share,
        plot_x(points, j) is Share,
        plot_x(points, i)->0 <= plot_x(points, j)->0,
{
    ordinary_trace_has_all_coordinates(points, i);
    ordinary_trace_has_all_coordinates(points, j);
    coordinates_lie_on_the_unit_square(points, i);
    coordinates_lie_on_the_unit_square(points, j);
    let (a, b, first, last) = (
        instant(points[i]),
        instant(points[j]),
        instant(points[0]),
        instant(points.last()),
    );
    integers_keep_order(points[i].at_second as int, points[j].at_second as int);
    if !flat_time(points) && first.order_key() < a.order_key() {
        lemma_integer_size(points[i].at_second);
        lemma_integer_size(points[j].at_second);
        lemma_integer_size(points[0].at_second);
        lemma_integer_size(points.last().at_second);
        lemma_difference_is_finite(last, first);
        lemma_difference_is_positive(last, first);
        difference_keeps_order(b, a, first);
        let (p, q, whole) = (
            difference(a, first),
            difference(b, first),
            difference(last, first),
        );
        proportion_keeps_order(p, q, whole);
        let (x, y) = (proportion(p, whole).unwrap(), proportion(q, whole).unwrap());
        lemma_share_bound(x);
        lemma_share_bound(y);
        ten_thousandths_keep_order(x, y);
    }
}

/// Where no time passes, every point is drawn at the left edge.
pub proof fn instant_window_stands_at_the_left_edge(points: Seq<HistoryPoint>, i: int)
    requires
        0 <= i < points.len(),
        points.last().at_second <= points[0].at_second,
    ensures
        plot_x(points, i) == Coord::Share(0),
{
    integers_keep_order(points.last().at_second as int, points[0].at_second as int);
}

/// A point before the first one is drawn at the left edge, and one behind the last at
/// the right edge where time passes.
pub proof fn points_outside_the_window_are_drawn_at_its_edges(
    points: Seq<HistoryPoint>,
    i: int,
)
    requires
        0 <= i < points.len(),
    ensures
        points[i].at_second <= points[0].at_second ==> plot_x(points, i) == Coord::Share(0),
        points[i].at_second >= points.last().at_second && instant(points[0]).order_key() < instant(
            points.last(),
        ).order_key() ==> plot_x(points, i) == Coord::Share(10000),
{
    let (p, first, last) = (points[i], points[0], points.last());
    if p.at_second <= first.at_second {
        integers_keep_order(p.at_second as int, first.at_second as int);
    }
    if p.at_second >= last.at_second {
        integers_keep_order(last.at_second as int, p.at_second as int);
        if instant(first).order_key() < instant(last).order_key() {
            trace_spans_the_width(points);
            later_point_is_not_drawn_before(points, points.len() - 1, i);
            coordinates_lie_on_the_unit_square(points, i);
        }
    }
}

/// What counts of an instant is the double that is nearest to its second: a point is
/// drawn at the exact share of the way between those of the first and the last point,
/// to half a ten-thousandth and a thousandth part of that half.
pub proof fn width_is_the_share_between_the_instants(points: Seq<HistoryPoint>, i: int)
    requires
        0 <= i < points.len(),
        instant(points[0]).order_key() <= instant(points[i]).order_key(),
        instant(points[i]).order_key() <= instant(points.last()).order_key(),
        instant(points[0]).order_key() < instant(points.last()).order_key(),
    ensures
        plot_x(points, i) is Share,
        ({
            let n = plot_x(points, i)->0 as int;
            let first = signed_units(instant(points[0]));
            let duration = signed_units(instant(points.last())) - first;
            let passed = signed_units(instant(points[i])) - first;
            &&& duration > 0
            &&& -1001 * duration <= 2000 * (n * duration - 10000 * passed) <= 1001 * duration
        }),
{
    let (p, first, last) = (instant(points[i]), instant(points[0]), instant(points.last()));
    lemma_integer_size(points[i].at_second);
    lemma_integer_size(points[0].at_second);
    lemma_integer_size(points.last().at_second);
    lemma_signed_order(p, first);
    lemma_signed_order(last, p);
    lemma_signed_order(last, first);
    let d = signed_units(last) - signed_units(first);
    let x = signed_units(p) - signed_units(first);
    if first.order_key() < p.order_key() {
        lemma_difference_is_finite(p, first);
        lemma_difference_is_finite(last, first);
        lemma_difference_is_positive(last, first);
        difference_is_close(p, first);
        difference_is_close(last, first);
        let (part, whole) = (difference(p, first), difference(last, first));
        lemma_proportion_close(part, whole, x, d);
        lemma_proportion_bound(part, whole);
        let q = proportion(part, whole).unwrap();
        ten_thousandths_are_close(q);
        lemma_share_bound(q);
        let k = vstd::arithmetic::power2::pow2(1074) as int;
        vstd::arithmetic::power2::lemma_pow2_pos(1074);
        let (gap, kd) = (units(q) * d - k * x, k * d);
        assert(kd > 0) by (nonlinear_arith)
            requires
                kd == k * d,
                k > 0,
                d > 0,
        ;
        assert(-kd <= 0x2_0000_0000_0000 * gap <= kd);
        lemma_share_close(ten_thousandths(q), units(q), x, d, k);
    } else {
        lemma_signed_order(first, p);
        assert(plot_x(points, i) == Coord::Share(0));
        assert(0 * d == 0);
    }
}

/// A coordinate reads as its share: one digit, a point and four digits.
pub proof fn coordinate_reads_as_its_share(n: u16)
    requires
        n <= 10000,
    ensures
        ({
            let t = coord_text(Coord::Share(n));
            &&& t.len() == 6
            &&& t[1] == '.'
            &&& '0' <= t[0] <= '1'
            &&& '0' <= t[2] <= '9'
            &&& '0' <= t[3] <= '9'
            &&& '0' <= t[4] <= '9'
            &&& '0' <= t[5] <= '9'
            &&& 10000 * (t[0] as int - '0' as int) + 1000 * (t[2] as int - '0' as int) + 100 * (
            t[3] as int - '0' as int) + 10 * (t[4] as int - '0' as int) + (t[5] as int
                - '0' as int) == n
        }),
{
    let (a, b, c, d, e) = (
        n as int / 10000,
        (n as int / 1000) % 10,
        (n as int / 100) % 10,
        (n as int / 10) % 10,
        n as int % 10,
    );
    digit_reads_as_its_value(a);
    digit_reads_as_its_value(b);
    digit_reads_as_its_value(c);
    digit_reads_as_its_value(d);
    digit_reads_as_its_value(e);
    lemma_six(digit_char(a), '.', digit_char(b), digit_char(c), digit_char(d), digit_char(e));
    lemma_four_decimals(n as int);
}

proof fn lemma_four_decimals(n: int)
    requires
        0 <= n <= 10000,
    ensures
        10000 * (n / 10000) + 1000 * ((n / 1000) % 10) + 100 * ((n / 100) % 10) + 10 * ((n / 10)
            % 10) + n % 10 == n,
{
    let (p, q, r) = (n / 10, n / 100, n / 1000);
    assert(p / 10 == q);
    assert(q / 10 == r);
    assert(r / 10 == n / 10000);
}

proof fn lemma_six(a: char, p: char, b: char, c: char, d: char, e: char)
    ensures
        ({
            let t = seq![a, p, b, c, d, e];
            &&& t.len() == 6
            &&& t[0] == a
            &&& t[1] == p
            &&& t[2] == b
            &&& t[3] == c
            &&& t[4] == d
            &&& t[5] == e
        }),
{
}

/// The characters before the command for point `i`.
pub open spec fn command_start(points: Seq<HistoryPoint>, i: int) -> int
    decreases i,
{
    if i <= 0 {
        0
    } else {
        command_start(points, i - 1) + coord_text(plot_x(points, i - 1)).len() + coord_text(
            plot_y(points, i - 1),
        ).len() + 4
    }
}

/// Each command stands at its place in the path: the letter, the two coordinates of
/// its point behind a blank each, and a blank behind it unless it is the last one.
pub proof fn path_holds_each_command_in_turn(points: Seq<HistoryPoint>, n: int, i: int)
    requires
        0 <= i < n,
    ensures
        ({
            let t = path_text(points, n);
            let (x, y) = (coord_text(plot_x(points, i)), coord_text(plot_y(points, i)));
            let at = command_start(points, i);
            &&& t.len() == command_start(points, n) - 1
            &&& 0 <= at
            &&& at + 3 + x.len() + y.len() <= t.len()
            &&& t[at] == if i == 0 {
                'M'
            } else {
                'L'
            }
            &&& t[at + 1] == ' '
            &&& t.subrange(at + 2, at + 2 + x.len() as int) == x
            &&& t[at + 2 + x.len()] == ' '
            &&& t.subrange(at + 3 + x.len(), at + 3 + x.len() + y.len()) == y
            &&& i + 1 < n ==> at + 3 + x.len() + y.len() < t.len() && t[at + 3 + x.len() + y.len()]
                == ' '
        }),
    decreases n,
{
    let xs = Seq::new(n as nat, |k: int| coord_text(plot_x(points, k)));
    let ys = Seq::new(n as nat, |k: int| coord_text(plot_y(points, k)));
    lemma_path_is_joined(points, xs, ys, n);
    lemma_path_is_joined(points, xs, ys, i);
    lemma_joined_pieces(xs, ys, n, i);
}

/// Commands for coordinates in text, one blank between two of them.
spec fn joined(xs: Seq<Seq<char>>, ys: Seq<Seq<char>>, n: int) -> Seq<char>
    decreases n,
{
    if n <= 0 {
        Seq::empty()
    } else {
        (if n == 1 {
            Seq::empty()
        } else {
            joined(xs, ys, n - 1) + seq![' ']
        }) + (seq![
            if n == 1 {
                'M'
            } else {
                'L'
            },
            ' ',
        ] + xs[n - 1] + seq![' '] + ys[n - 1])
    }
}

spec fn joined_start(xs: Seq<Seq<char>>, ys: Seq<Seq<char>>, i: int) -> int
    decreases i,
{
    if i <= 0 {
        0
    } else {
        joined_start(xs, ys, i - 1) + xs[i - 1].len() + ys[i - 1].len() + 4
    }
}

proof fn lemma_path_is_joined(
    points: Seq<HistoryPoint>,
    xs: Seq<Seq<char>>,
    ys: Seq<Seq<char>>,
    n: int,
)
    requires
        0 <= n <= xs.len(),
        xs.len() == ys.len(),
        forall|k: int| 0 <= k < xs.len() ==> #[trigger] xs[k] == coord_text(plot_x(points, k)),
        forall|k: int| 0 <= k < ys.len() ==> #[trigger] ys[k] == coord_text(plot_y(points, k)),
    ensures
        path_text(points, n) == joined(xs, ys, n),
        command_start(points, n) == joined_start(xs, ys, n),
    decreases n,
{
    if n > 0 {
        lemma_path_is_joined(points, xs, ys, n - 1);
        lemma_command_pieces(points, n - 1);
        lemma_blank();
        assert(xs[n - 1] == coord_text(plot_x(points, n - 1)));
        assert(ys[n - 1] == coord_text(plot_y(points, n - 1)));
        if n == 1 {
            let c = command_text(points, 0);
            assert(Seq::<char>::empty() + c =~= c);
        }
    }
}

proof fn lemma_joined_pieces(xs: Seq<Seq<char>>, ys: Seq<Seq<char>>, n: int, i: int)
    requires
        0 <= i < n <= xs.len(),
        xs.len() == ys.len(),
    ensures
        ({
            let t = joined(xs, ys, n);
            let (x, y) = (xs[i], ys[i]);
            let at = joined_start(xs, ys, i);
            &&& t.len() == joined_start(xs, ys, n) - 1
            &&& 0 <= at
            &&& at + 3 + x.len() + y.len() <= t.len()
            &&& t[at] == if i == 0 {
                'M'
            } else {
                'L'
            }
            &&& t[at + 1] == ' '
            &&& t.subrange(at + 2, at + 2 + x.len() as int) == x
            &&& t[at + 2 + x.len()] == ' '
            &&& t.subrange(at + 3 + x.len(), at + 3 + x.len() + y.len()) == y
            &&& i + 1 < n ==> at + 3 + x.len() + y.len() < t.len() && t[at + 3 + x.len() + y.len()]
                == ' '
        }),
    decreases n,
{
    let s = joined(xs, ys, n - 1);
    let before = if n == 1 {
        Seq::empty()
    } else {
        s + seq![' ']
    };
    let letter = if n == 1 {
        'M'
    } else {
        'L'
    };
    if n > 1 {
        lemma_joined_pieces(
            xs,
            ys,
            n - 1,
            if i < n - 1 {
                i
            } else {
                0
            },
        );
    }
    lemma_pieces(before, letter, xs[n - 1], ys[n - 1]);
    if i < n - 1 {
        lemma_earlier_pieces(
            s,
            joined(xs, ys, n),
            joined_start(xs, ys, i),
            xs[i].len() as int,
            ys[i].len() as int,
        );
    }
}

proof fn lemma_blank()
    ensures
        " "@ == seq![' '],
{
    reveal_strlit(" ");
    assert(" "@ =~= seq![' ']);
}

proof fn lemma_command_pieces(points: Seq<HistoryPoint>, i: int)
    ensures
        command_text(points, i) == seq![
            if i == 0 {
                'M'
            } else {
                'L'
            },
            ' ',
        ] + coord_text(plot_x(points, i)) + seq![' '] + coord_text(plot_y(points, i)),
{
    reveal_strlit("M ");
    reveal_strlit("L ");
    lemma_blank();
    assert("M "@ =~= seq!['M', ' ']);
    assert("L "@ =~= seq!['L', ' ']);
}

proof fn lemma_pieces(before: Seq<char>, letter: char, x: Seq<char>, y: Seq<char>)
    ensures
        ({
            let t = before + (seq![letter, ' '] + x + seq![' '] + y);
            let at = before.len() as int;
            &&& t.len() == at + 3 + x.len() + y.len()
            &&& t.take(at) == before
            &&& t[at] == letter
            &&& t[at + 1] == ' '
            &&& t.subrange(at + 2, at + 2 + x.len() as int) == x
            &&& t[at + 2 + x.len()] == ' '
            &&& t.subrange(at + 3 + x.len(), at + 3 + x.len() + y.len()) == y
        }),
{
    let t = before + (seq![letter, ' '] + x + seq![' '] + y);
    let at = before.len() as int;
    assert(t.take(at) =~= before);
    assert(t.subrange(at + 2, at + 2 + x.len() as int) =~= x);
    assert(t.subrange(at + 3 + x.len(), at + 3 + x.len() + y.len()) =~= y);
}

/// A text that goes on behind `s` and a blank holds the pieces of `s`.
proof fn lemma_earlier_pieces(s: Seq<char>, t: Seq<char>, at: int, a: int, b: int)
    requires
        0 <= at,
        0 <= a,
        0 <= b,
        at + 3 + a + b <= s.len(),
        s.len() + 1 <= t.len(),
        t.take((s.len() + 1) as int) == s + seq![' '],
    ensures
        t[at] == s[at],
        t[at + 1] == s[at + 1],
        t[at + 2 + a] == s[at + 2 + a],
        t.subrange(at + 2, at + 2 + a) == s.subrange(at + 2, at + 2 + a),
        t.subrange(at + 3 + a, at + 3 + a + b) == s.subrange(at + 3 + a, at + 3 + a + b),
        at + 3 + a + b < s.len() ==> t[at + 3 + a + b] == s[at + 3 + a + b],
        t[s.len() as int] == ' ',
{
    let u = t.take((s.len() + 1) as int);
    assert forall|k: int| 0 <= k < s.len() implies t[k] == s[k] by {
        assert(u[k] == t[k]);
    }
    assert(u[s.len() as int] == t[s.len() as int]);
    assert(t.subrange(at + 2, at + 2 + a) =~= s.subrange(at + 2, at + 2 + a));
    assert(t.subrange(at + 3 + a, at + 3 + a + b) =~= s.subrange(at + 3 + a, at + 3 + a + b));
}

/// Without points nothing is drawn.
pub proof fn empty_window_draws_nothing(points: Seq<HistoryPoint>)
    requires
        points.len() == 0,
    ensures
        path_text(points, points.len() as int).len() == 0,
{
}

/// The instant of a point is its second, to one part in 2^53.
pub proof fn instant_is_the_second(p: HistoryPoint)
    ensures
        instant(p).finite(),
        ({
            let second = p.at_second * vstd::arithmetic::power2::pow2(1074);
            let off = signed_units(instant(p)) - second;
            let size = if second < 0 {
                -second
            } else {
                second
            };
            -size <= 0x20_0000_0000_0000 * off <= size
        }),
{
    let n = p.at_second as int;
    let size = if n < 0 {
        -n
    } else {
        n
    };
    let k = vstd::arithmetic::power2::pow2(1074) as int;
    vstd::arithmetic::power2::lemma_pow2_pos(1074);
    lemma_integer_size(p.at_second);
    natural_is_close(size);
    assert(n >= 0 ==> n * k >= 0) by (nonlinear_arith)
        requires
            k > 0,
    ;
    assert(n < 0 ==> n * k < 0) by (nonlinear_arith)
        requires
            k > 0,
    ;
    if n < 0 {
        let (x, y) = (Real64::nearest_natural(size), instant(p));
        crate::number::lemma_natural_size(size);
        assert(y.bits == x.bits + 0x8000_0000_0000_0000);
        assert(y.exponent_field() == x.exponent_field());
        assert(y.fraction() == x.fraction());
        assert(size * k == -(n * k)) by (nonlinear_arith)
            requires
                size == -n,
        ;
    } else if n > 0 {
        crate::number::lemma_natural_size(size);
    }
}

/// A coordinate that the arithmetic does not give is written as a word.
pub proof fn missing_coordinate_is_a_word()
    ensures
        coord_text(Coord::Undefined) == "NaN"@,
{
}

} // verus!
