//! The range planner: dynamic halving of a resource into byte ranges.
//!
//! The plan starts as one range over the whole resource. The largest range
//! is split into two halves, again and again, until there are as many ranges
//! as connections or until a split would leave a piece smaller than
//! `MIN_PIECE_SIZE`.

use vstd::prelude::*;
use crate::types::{Piece, SegmentState, StreamType};

verus! {

/// No split produces a range smaller than this many bytes.
pub const MIN_PIECE_SIZE: i64 = 256 * 1024;

/// How many ranges are fetched at once unless the caller says otherwise.
pub const MAX_CONNECTIONS: usize = 8;

/// A byte interval of the resource: `length` bytes from `offset` on.
#[derive(Debug, Clone, Copy, PartialEq, Eq, Structural)]
pub struct Span {
    pub offset: i64,
    pub length: i64,
}

impl Span {
    /// The position after the last byte of the interval.
    pub open spec fn end(self) -> int {
        self.offset + self.length
    }

    /// Two intervals that share no byte.
    pub open spec fn apart(self, other: Span) -> bool {
        self.end() <= other.offset || other.end() <= self.offset
    }
}

/// The sum of a sequence of integers.
pub open spec fn sum(s: Seq<int>) -> int
    decreases s.len(),
{
    if s.len() == 0 {
        0
    } else {
        sum(s.drop_last()) + s.last()
    }
}

/// The lengths of the intervals, in their order.
pub open spec fn lengths(spans: Seq<Span>) -> Seq<int> {
    spans.map_values(|s: Span| s.length as int)
}

/// Into how many ranges halving splits `size` bytes when nothing limits the
/// number of ranges: a range is halved as long as it has at least twice the
/// minimum size.
pub open spec fn leaves(size: int) -> int
    decreases size,
{
    if size < 2 * MIN_PIECE_SIZE {
        1
    } else {
        leaves(size / 2) + leaves(size - size / 2)
    }
}

/// How many ranges the plan for `size` bytes and `limit` connections has:
/// as many as halving gives, but no more than `limit`, and at least one.
pub open spec fn planned_count(size: int, limit: int) -> int {
    if limit <= 1 {
        1
    } else if leaves(size) <= limit {
        leaves(size)
    } else {
        limit
    }
}

impl Span {
    /// The first half of the interval: half of its length, rounded down.
    pub open spec fn first_half(self) -> Span {
        Span { offset: self.offset, length: (self.length / 2) as i64 }
    }

    /// The second half of the interval: what the first half leaves.
    pub open spec fn second_half(self) -> Span {
        Span {
            offset: (self.offset + self.length / 2) as i64,
            length: (self.length - self.length / 2) as i64,
        }
    }
}

/// The interval that is reached from the whole resource by halving again
/// and again, taking the second half where `path` says so and the first
/// half where it does not.
pub open spec fn cell(size: int, path: Seq<bool>) -> Span
    decreases path.len(),
{
    if path.len() == 0 {
        Span { offset: 0, length: size as i64 }
    } else if path.last() {
        cell(size, path.drop_last()).second_half()
    } else {
        cell(size, path.drop_last()).first_half()
    }
}

/// Whether every interval that is halved on the way along `path` has at
/// least twice the minimum piece size.
pub open spec fn may_split(size: int, path: Seq<bool>) -> bool
    decreases path.len(),
{
    if path.len() == 0 {
        true
    } else {
        may_split(size, path.drop_last()) && cell(size, path.drop_last()).length >= 2
            * MIN_PIECE_SIZE
    }
}

/// Whether no interval is longer than `bound`.
pub open spec fn none_longer(spans: Seq<Span>, bound: int) -> bool {
    forall|j: int| 0 <= j < spans.len() ==> (#[trigger] spans[j]).length <= bound
}

/// The length of the interval whose halving gave the interval at the end
/// of `path`; for the whole resource, its own length.
pub open spec fn parent_length(size: int, path: Seq<bool>) -> int {
    if path.len() == 0 {
        size
    } else {
        cell(size, path.drop_last()).length as int
    }
}

/// Whether `span` arises from the whole resource by halving, each time of
/// an interval of at least twice the minimum piece size, and the last time
/// of an interval that is at least as long as every interval of `spans`:
/// only a largest interval is halved.
pub open spec fn is_cell(size: int, span: Span, spans: Seq<Span>) -> bool {
    exists|path: Seq<bool>|
        may_split(size, path) && span == #[trigger] cell(size, path) && none_longer(
            spans,
            parent_length(size, path),
        )
}

/// What makes `spans` a plan for a resource of `size` bytes fetched over at
/// most `limit` connections: there are as many ranges as planned, each
/// arises from the whole by halving a largest range, together they cover
/// the resource
/// without overlap, none is split that is smaller than twice the minimum,
/// and the largest is at most one byte more than twice the smallest.
pub open spec fn is_plan(spans: Seq<Span>, size: int, limit: int) -> bool {
    &&& spans.len() == planned_count(size, limit)
    &&& forall|i: int| 0 <= i < spans.len() ==> is_cell(size, #[trigger] spans[i], spans)
    &&& sum(lengths(spans)) == size
    &&& forall|i: int|
        0 <= i < spans.len() ==> 0 <= (#[trigger] spans[i]).offset && 0 <= spans[i].length
            && spans[i].end() <= size
    &&& size > 0 ==> forall|i: int| 0 <= i < spans.len() ==> (#[trigger] spans[i]).length > 0
    &&& forall|i: int, j: int|
        0 <= i < spans.len() && 0 <= j < spans.len() && i != j ==> (#[trigger] spans[i]).apart(
            #[trigger] spans[j],
        )
    &&& forall|i: int, j: int|
        0 <= i < spans.len() && 0 <= j < spans.len() ==> (#[trigger] spans[i]).length <= 2 * (
        #[trigger] spans[j]).length + 1
    &&& size >= MIN_PIECE_SIZE ==> forall|i: int|
        0 <= i < spans.len() ==> (#[trigger] spans[i]).length >= MIN_PIECE_SIZE
    &&& spans.len() < limit ==> forall|i: int|
        0 <= i < spans.len() ==> (#[trigger] spans[i]).length < 2 * MIN_PIECE_SIZE
}

/// Appending a number adds it to the sum.
pub proof fn lemma_sum_push(s: Seq<int>, x: int)
    ensures
        sum(s.push(x)) == sum(s) + x,
{
    assert(s.push(x).drop_last() =~= s);
}

/// Replacing a number changes the sum by the difference.
pub proof fn lemma_sum_update(s: Seq<int>, i: int, x: int)
    requires
        0 <= i < s.len(),
    ensures
        sum(s.update(i, x)) == sum(s) - s[i] + x,
    decreases s.len(),
{
    if i == s.len() - 1 {
        assert(s.update(i, x).drop_last() =~= s.drop_last());
    } else {
        lemma_sum_update(s.drop_last(), i, x);
        assert(s.update(i, x).drop_last() =~= s.drop_last().update(i, x));
    }
}

/// A sum of `n` integers that are each at least `low` is at least `n * low`,
/// and it is exactly that only if each of them is `low`.
pub proof fn lemma_sum_bounds(s: Seq<int>, low: int)
    requires
        forall|i: int| 0 <= i < s.len() ==> #[trigger] s[i] >= low,
    ensures
        sum(s) >= s.len() * low,
        sum(s) == s.len() * low ==> forall|i: int| 0 <= i < s.len() ==> #[trigger] s[i] == low,
    decreases s.len(),
{
    if s.len() > 0 {
        let rest = s.drop_last();
        lemma_sum_bounds(rest, low);
        assert(s[s.len() - 1] >= low);
        assert(s.len() * low == rest.len() * low + low) by (nonlinear_arith)
            requires
                s.len() == rest.len() + 1,
        ;
        if sum(s) == s.len() * low {
            assert forall|i: int| 0 <= i < s.len() implies #[trigger] s[i] == low by {
                if i < s.len() - 1 {
                    assert(rest[i] == s[i]);
                }
            }
        }
    } else {
        assert(s.len() * low == 0) by (nonlinear_arith)
            requires
                s.len() == 0,
        ;
    }
}

/// Halving gives at least one range.
pub proof fn lemma_leaves_positive(size: int)
    ensures
        leaves(size) >= 1,
    decreases size,
{
    if size >= 2 * MIN_PIECE_SIZE {
        lemma_leaves_positive(size / 2);
        lemma_leaves_positive(size - size / 2);
    }
}

spec fn leaf_counts(spans: Seq<Span>) -> Seq<int> {
    spans.map_values(|s: Span| leaves(s.length as int))
}

fn largest(spans: &Vec<Span>) -> (at: usize)
    requires
        spans.len() > 0,
    ensures
        at < spans.len(),
        forall|i: int| 0 <= i < spans.len() ==> (#[trigger] spans[i]).length <= spans[at as int].length,
{
    let mut at: usize = 0;
    let mut i: usize = 1;
    while i < spans.len()
        invariant
            at < i <= spans.len(),
            forall|k: int| 0 <= k < i ==> (#[trigger] spans[k]).length <= spans[at as int].length,
        decreases spans.len() - i,
    {
        if spans[i].length >= spans[at].length {
            at = i;
        }
        i = i + 1;
    }
    at
}

/// Plans the ranges for a resource of `size` bytes and at most `limit`
/// connections. A size that no `i64` holds is planned as a single range of
/// unknown length.
pub fn plan_spans(size: u64, limit: usize) -> (spans: Vec<Span>)
    ensures
        size <= i64::MAX ==> is_plan(spans@, size as int, limit as int),
        size > i64::MAX ==> spans@ == seq![Span { offset: 0, length: -1i64 }],
{
    if size > i64::MAX as u64 {
        let mut whole: Vec<Span> = Vec::new();
        whole.push(Span { offset: 0, length: -1 });
        assert(whole@ =~= seq![Span { offset: 0, length: -1i64 }]);
        return whole;
    }
    let mut spans: Vec<Span> = Vec::new();
    spans.push(Span { offset: 0, length: size as i64 });
    let mut splitting = true;
    let ghost mut paths: Seq<Seq<bool>> = seq![Seq::<bool>::empty()];
    proof {
        assert(spans[0] == cell(size as int, paths[0]));
        assert(lengths(spans@) =~= seq![size as int]);
        assert(leaf_counts(spans@) =~= seq![leaves(size as int)]);
        lemma_sum_push(Seq::<int>::empty(), size as int);
        lemma_sum_push(Seq::<int>::empty(), leaves(size as int));
        assert(Seq::<int>::empty().push(size as int) =~= seq![size as int]);
        assert(Seq::<int>::empty().push(leaves(size as int)) =~= seq![leaves(size as int)]);
    }
    while splitting && spans.len() < limit
        invariant
            size <= i64::MAX,
            1 <= spans.len(),
            spans.len() <= limit || spans.len() == 1,
            paths.len() == spans.len(),
            forall|i: int| 0 <= i < spans.len() ==> may_split(size as int, #[trigger] paths[i]),
            forall|i: int|
                0 <= i < spans.len() ==> none_longer(
                    spans@,
                    parent_length(size as int, #[trigger] paths[i]),
                ),
            forall|i: int|
                0 <= i < spans.len() ==> (#[trigger] spans[i]) == cell(size as int, paths[i]),
            sum(lengths(spans@)) == size,
            sum(leaf_counts(spans@)) == leaves(size as int),
            forall|i: int|
                0 <= i < spans.len() ==> 0 <= (#[trigger] spans[i]).offset && 0
                    <= spans[i].length && spans[i].end() <= size,
            size > 0 ==> forall|i: int| 0 <= i < spans.len() ==> (#[trigger] spans[i]).length > 0,
            forall|i: int, j: int|
                0 <= i < spans.len() && 0 <= j < spans.len() && i != j ==> (
                #[trigger] spans[i]).apart(#[trigger] spans[j]),
            forall|i: int, j: int|
                0 <= i < spans.len() && 0 <= j < spans.len() ==> (#[trigger] spans[i]).length
                    <= 2 * (#[trigger] spans[j]).length + 1,
            size >= MIN_PIECE_SIZE ==> forall|i: int|
                0 <= i < spans.len() ==> (#[trigger] spans[i]).length >= MIN_PIECE_SIZE,
            !splitting ==> forall|i: int|
                0 <= i < spans.len() ==> (#[trigger] spans[i]).length < 2 * MIN_PIECE_SIZE,
        decreases (if splitting { 1int } else { 0int }), limit - spans.len(),
    {
        let at = largest(&spans);
        let span = spans[at];
        if span.length < 2 * MIN_PIECE_SIZE {
            splitting = false;
        } else {
            let half = span.length / 2;
            let first = Span { offset: span.offset, length: half };
            let second = Span { offset: span.offset + half, length: span.length - half };
            let ghost before = spans@;
            spans.set(at, first);
            spans.push(second);
            proof {
                let mid = before.update(at as int, first);
                assert(spans@ =~= mid.push(second));
                let way = paths[at as int];
                assert(way.push(false).drop_last() =~= way);
                assert(way.push(true).drop_last() =~= way);
                assert(first == cell(size as int, way.push(false)));
                assert(second == cell(size as int, way.push(true)));
                let earlier = paths;
                paths = paths.update(at as int, way.push(false)).push(way.push(true));
                assert(may_split(size as int, way));
                assert(cell(size as int, way) == span);
                assert forall|i: int| 0 <= i < spans.len() implies may_split(
                    size as int,
                    #[trigger] paths[i],
                ) by {
                    if i < before.len() && i != at {
                        assert(paths[i] == earlier[i]);
                    }
                }
                assert forall|i: int| 0 <= i < spans.len() implies none_longer(
                    spans@,
                    parent_length(size as int, #[trigger] paths[i]),
                ) by {
                    let bound = parent_length(size as int, paths[i]);
                    if i < before.len() && i != at {
                        assert(paths[i] == earlier[i]);
                        assert(none_longer(before, bound));
                    } else {
                        assert(bound == span.length);
                    }
                    assert(before[at as int].length <= bound);
                    assert forall|j: int| 0 <= j < spans.len() implies (#[trigger] spans[j]).length
                        <= bound by {
                        if j < before.len() && j != at {
                            assert(spans[j] == before[j]);
                            assert(before[j].length <= bound);
                        }
                    }
                }
                assert forall|i: int| 0 <= i < spans.len() implies (#[trigger] spans[i])
                    == cell(size as int, paths[i]) by {
                    if i < before.len() && i != at {
                        assert(spans[i] == before[i]);
                        assert(paths[i] == earlier[i]);
                    }
                }
                assert(lengths(spans@) =~= lengths(before).update(at as int, half as int).push(
                    second.length as int,
                ));
                lemma_sum_update(lengths(before), at as int, half as int);
                lemma_sum_push(lengths(before).update(at as int, half as int), second.length as int);
                assert(leaf_counts(spans@) =~= leaf_counts(before).update(
                    at as int,
                    leaves(half as int),
                ).push(leaves(second.length as int)));
                lemma_sum_update(leaf_counts(before), at as int, leaves(half as int));
                lemma_sum_push(
                    leaf_counts(before).update(at as int, leaves(half as int)),
                    leaves(second.length as int),
                );
                assert(leaves(span.length as int) == leaves(half as int) + leaves(
                    second.length as int,
                ));
                assert forall|i: int, j: int|
                    0 <= i < spans.len() && 0 <= j < spans.len() && i != j implies (
                #[trigger] spans[i]).apart(#[trigger] spans[j]) by {
                    let n = before.len() as int;
                    if i < n && i != at {
                        assert(spans[i] == before[i]);
                        assert(before[i].apart(before[at as int]));
                    }
                    if j < n && j != at {
                        assert(spans[j] == before[j]);
                        assert(before[j].apart(before[at as int]));
                    }
                    if i < n && j < n && i != at && j != at {
                        assert(before[i].apart(before[j]));
                    }
                }
                assert forall|i: int, j: int|
                    0 <= i < spans.len() && 0 <= j < spans.len() implies (
                #[trigger] spans[i]).length <= 2 * (#[trigger] spans[j]).length + 1 by {
                    let n = before.len() as int;
                    let a = if i < n {
                        before[i]
                    } else {
                        before[at as int]
                    };
                    let b = if j < n {
                        before[j]
                    } else {
                        before[at as int]
                    };
                    assert(a.length <= span.length);
                    assert(b.length <= span.length);
                    assert(a.length <= 2 * b.length + 1);
                    assert(spans[i].length <= a.length);
                    if j < n && j != at {
                        assert(spans[j] == before[j]);
                    }
                }
            }
        }
    }
    proof {
        assert forall|i: int| 0 <= i < spans.len() implies is_cell(
            size as int,
            #[trigger] spans[i],
            spans@,
        ) by {
            assert(may_split(size as int, paths[i]));
            assert(spans[i] == cell(size as int, paths[i]));
            assert(none_longer(spans@, parent_length(size as int, paths[i])));
        }
        assert forall|i: int| 0 <= i < spans.len() implies #[trigger] leaf_counts(spans@)[i]
            >= 1 by {
            lemma_leaves_positive(spans[i].length as int);
        }
        lemma_sum_bounds(leaf_counts(spans@), 1);
        if !splitting {
            assert forall|i: int| 0 <= i < spans.len() implies #[trigger] leaf_counts(
                spans@,
            )[i] == 1 by {
                assert(spans[i].length < 2 * MIN_PIECE_SIZE);
            }
            lemma_sum_all(leaf_counts(spans@), 1);
        }
    }
    spans
}

/// A sum of `n` integers that are each `value` is `n * value`.
pub proof fn lemma_sum_all(s: Seq<int>, value: int)
    requires
        forall|i: int| 0 <= i < s.len() ==> #[trigger] s[i] == value,
    ensures
        sum(s) == s.len() * value,
    decreases s.len(),
{
    if s.len() > 0 {
        let rest = s.drop_last();
        lemma_sum_all(rest, value);
        assert(s[s.len() - 1] == value);
        assert(s.len() * value == rest.len() * value + value) by (nonlinear_arith)
            requires
                s.len() == rest.len() + 1,
        ;
    } else {
        assert(s.len() * value == 0) by (nonlinear_arith)
            requires
                s.len() == 0,
        ;
    }
}

/// A resource smaller than twice the minimum piece size is never split: its
/// plan is the one range over the whole of it, whatever the limit.
pub proof fn law_small_resource_is_one_range(spans: Seq<Span>, size: int, limit: int)
    requires
        is_plan(spans, size, limit),
        0 <= size < 2 * MIN_PIECE_SIZE,
    ensures
        spans =~= seq![Span { offset: 0, length: size as i64 }],
{
    assert(spans.len() == 1);
    assert(lengths(spans).drop_last() =~= Seq::<int>::empty());
    assert(sum(lengths(spans).drop_last()) == 0);
    assert(lengths(spans).last() == spans[0].length);
    assert(sum(lengths(spans)) == spans[0].length);
}

/// Halving splits a resource of `2^k` minimum pieces into `2^k` ranges.
pub proof fn lemma_leaves_of_power(k: nat)
    ensures
        leaves(vstd::arithmetic::power2::pow2(k) * MIN_PIECE_SIZE) == vstd::arithmetic::power2::pow2(
            k,
        ),
    decreases k,
{
    vstd::arithmetic::power2::lemma2_to64();
    if k > 0 {
        let smaller = vstd::arithmetic::power2::pow2((k - 1) as nat) as int;
        vstd::arithmetic::power2::lemma_pow2_unfold(k);
        vstd::arithmetic::power2::lemma_pow2_pos((k - 1) as nat);
        lemma_leaves_of_power((k - 1) as nat);
        let size = vstd::arithmetic::power2::pow2(k) * MIN_PIECE_SIZE;
        assert(size == 2 * (smaller * MIN_PIECE_SIZE)) by (nonlinear_arith)
            requires
                size == vstd::arithmetic::power2::pow2(k) * MIN_PIECE_SIZE,
                vstd::arithmetic::power2::pow2(k) == 2 * smaller,
        ;
        assert(smaller * MIN_PIECE_SIZE >= MIN_PIECE_SIZE) by (nonlinear_arith)
            requires
                smaller >= 1,
        ;
        assert(size / 2 == smaller * MIN_PIECE_SIZE);
    }
}

/// The count of ranges in closed form. A resource of at least `2^j`
/// minimum pieces and at most `2^j` pieces of one byte less than twice the
/// minimum is split by halving into exactly `2^j` ranges: so many as the
/// largest power of two of minimum pieces that it holds. A size between
/// two such bands, such as one byte less than four minimum pieces, gives a
/// count between the two powers.
pub proof fn law_count_in_closed_form(size: int, j: nat)
    requires
        vstd::arithmetic::power2::pow2(j) * MIN_PIECE_SIZE <= size,
        size <= vstd::arithmetic::power2::pow2(j) * (2 * MIN_PIECE_SIZE - 1),
    ensures
        leaves(size) == vstd::arithmetic::power2::pow2(j),
    decreases j,
{
    vstd::arithmetic::power2::lemma2_to64();
    if j > 0 {
        let half = vstd::arithmetic::power2::pow2((j - 1) as nat) as int;
        vstd::arithmetic::power2::lemma_pow2_unfold(j);
        vstd::arithmetic::power2::lemma_pow2_pos((j - 1) as nat);
        assert(vstd::arithmetic::power2::pow2(j) == 2 * half);
        let low = half * MIN_PIECE_SIZE;
        let high = half * (2 * MIN_PIECE_SIZE - 1);
        assert(2 * low <= size && size <= 2 * high) by (nonlinear_arith)
            requires
                (2 * half) * MIN_PIECE_SIZE <= size,
                size <= (2 * half) * (2 * MIN_PIECE_SIZE - 1),
                low == half * MIN_PIECE_SIZE,
                high == half * (2 * MIN_PIECE_SIZE - 1),
        {
        }
        assert(low >= MIN_PIECE_SIZE) by (nonlinear_arith)
            requires
                low == half * MIN_PIECE_SIZE,
                half >= 1,
        {
        }
        assert(low <= size / 2 && size - size / 2 <= high);
        law_count_in_closed_form(size / 2, (j - 1) as nat);
        law_count_in_closed_form(size - size / 2, (j - 1) as nat);
        assert(size >= 2 * MIN_PIECE_SIZE);
        assert(leaves(size) == leaves(size / 2) + leaves(size - size / 2));
    } else {
        assert(vstd::arithmetic::power2::pow2(0) == 1);
        assert(MIN_PIECE_SIZE <= size) by (nonlinear_arith)
            requires
                vstd::arithmetic::power2::pow2(j) * MIN_PIECE_SIZE <= size,
                vstd::arithmetic::power2::pow2(j) == 1,
        {
        }
        assert(size <= 2 * MIN_PIECE_SIZE - 1) by (nonlinear_arith)
            requires
                size <= vstd::arithmetic::power2::pow2(j) * (2 * MIN_PIECE_SIZE - 1),
                vstd::arithmetic::power2::pow2(j) == 1,
        {
        }
    }
}

/// A resource of exactly `n` minimum pieces, planned for `n` connections,
/// is split into `n` ranges of the minimum size each, provided that `n` is a
/// power of two. (For another `n` halving cannot give equal ranges: three
/// minimum pieces are planned as two ranges of one and a half each.)
pub proof fn law_exact_multiple_splits_evenly(spans: Seq<Span>, k: nat)
    requires
        is_plan(
            spans,
            vstd::arithmetic::power2::pow2(k) * MIN_PIECE_SIZE,
            vstd::arithmetic::power2::pow2(k) as int,
        ),
    ensures
        spans.len() == vstd::arithmetic::power2::pow2(k),
        forall|i: int| 0 <= i < spans.len() ==> (#[trigger] spans[i]).length == MIN_PIECE_SIZE,
{
    let n = vstd::arithmetic::power2::pow2(k) as int;
    let size = n * MIN_PIECE_SIZE;
    lemma_leaves_of_power(k);
    vstd::arithmetic::power2::lemma_pow2_pos(k);
    assert(spans.len() == n);
    assert(size >= MIN_PIECE_SIZE) by (nonlinear_arith)
        requires
            size == n * MIN_PIECE_SIZE,
            n >= 1,
    ;
    assert forall|i: int| 0 <= i < lengths(spans).len() implies #[trigger] lengths(spans)[i]
        >= MIN_PIECE_SIZE by {
        assert(spans[i].length >= MIN_PIECE_SIZE);
    }
    lemma_sum_bounds(lengths(spans), MIN_PIECE_SIZE as int);
    assert forall|i: int| 0 <= i < spans.len() implies (#[trigger] spans[i]).length
        == MIN_PIECE_SIZE by {
        assert(lengths(spans)[i] == MIN_PIECE_SIZE);
    }
}

/// Intervals in the order of their offsets.
pub open spec fn sorted_by_offset(spans: Seq<Span>) -> bool {
    forall|a: int, b: int|
        0 <= a < b < spans.len() ==> (#[trigger] spans[a]).offset <= (#[trigger] spans[b]).offset
}

/// Intervals that follow one another without a gap, the first at zero.
pub open spec fn contiguous_from_zero(spans: Seq<Span>) -> bool {
    &&& spans.len() > 0 ==> spans[0].offset == 0
    &&& forall|a: int|
        0 <= a < spans.len() - 1 ==> (#[trigger] spans[a + 1]).offset == spans[a].end()
}

/// Removing a number takes it off the sum.
pub proof fn lemma_sum_remove(s: Seq<int>, i: int)
    requires
        0 <= i < s.len(),
    ensures
        sum(s.remove(i)) == sum(s) - s[i],
    decreases s.len(),
{
    if i == s.len() - 1 {
        assert(s.remove(i) =~= s.drop_last());
    } else {
        lemma_sum_remove(s.drop_last(), i);
        assert(s.remove(i).drop_last() =~= s.drop_last().remove(i));
        assert(s.remove(i).last() == s.last());
    }
}

/// The sum of the lengths does not depend on the order of the intervals.
pub proof fn lemma_sum_rearranged(a: Seq<Span>, b: Seq<Span>)
    requires
        a.to_multiset() == b.to_multiset(),
    ensures
        sum(lengths(a)) == sum(lengths(b)),
    decreases a.len(),
{
    broadcast use vstd::seq_lib::group_to_multiset_ensures;

    a.to_multiset_ensures();
    b.to_multiset_ensures();
    if a.len() == 0 {
        assert(b.len() == 0);
        assert(lengths(a) =~= lengths(b));
    } else {
        let x = a.last();
        assert(a.contains(x));
        assert(b.to_multiset().count(x) > 0);
        assert(b.contains(x));
        let j = choose|j: int| 0 <= j < b.len() && b[j] == x;
        let rest_a = a.remove(a.len() - 1);
        let rest_b = b.remove(j);
        assert(rest_a =~= a.drop_last());
        assert(rest_a.to_multiset() =~= rest_b.to_multiset());
        lemma_sum_rearranged(rest_a, rest_b);
        assert(lengths(a).drop_last() =~= lengths(rest_a));
        assert(lengths(b).remove(j) =~= lengths(rest_b));
        lemma_sum_remove(lengths(b), j);
    }
}

proof fn lemma_chain(s: Seq<Span>)
    requires
        s.len() > 0,
        forall|a: int| 0 <= a < s.len() - 1 ==> (#[trigger] s[a + 1]).offset >= s[a].end(),
    ensures
        s.last().end() >= s[0].offset + sum(lengths(s)),
        s.last().end() == s[0].offset + sum(lengths(s)) ==> forall|a: int|
            0 <= a < s.len() - 1 ==> (#[trigger] s[a + 1]).offset == s[a].end(),
    decreases s.len(),
{
    let rest = s.drop_last();
    assert(lengths(s).drop_last() =~= lengths(rest));
    assert(lengths(s).last() == s.last().length);
    if s.len() == 1 {
        assert(sum(lengths(rest)) == 0);
    } else {
        assert forall|a: int| 0 <= a < rest.len() - 1 implies (#[trigger] rest[a + 1]).offset
            >= rest[a].end() by {
            assert(rest[a + 1] == s[a + 1]);
            assert(rest[a] == s[a]);
        }
        lemma_chain(rest);
        let k = s.len() - 2;
        assert(s[k + 1].offset >= s[k].end());
        assert(rest.last() == s[k]);
        assert(rest[0] == s[0]);
        if s.last().end() == s[0].offset + sum(lengths(s)) {
            assert forall|a: int| 0 <= a < s.len() - 1 implies (#[trigger] s[a + 1]).offset
                == s[a].end() by {
                if a < k {
                    assert(rest[a + 1] == s[a + 1]);
                    assert(rest[a] == s[a]);
                }
            }
        }
    }
}

/// The ranges of a plan, put in the order of their offsets, follow one
/// another without gap or overlap from position zero to the end of the
/// resource.
pub proof fn law_sorted_plan_is_contiguous(
    plan: Seq<Span>,
    sorted: Seq<Span>,
    size: int,
    limit: int,
)
    requires
        is_plan(plan, size, limit),
        sorted.to_multiset() == plan.to_multiset(),
        sorted_by_offset(sorted),
    ensures
        sorted.len() == plan.len(),
        sorted.len() > 0,
        contiguous_from_zero(sorted),
        sorted.last().end() == size,
{
    broadcast use vstd::seq_lib::group_to_multiset_ensures;

    plan.to_multiset_ensures();
    sorted.to_multiset_ensures();
    lemma_leaves_positive(size);
    lemma_sum_rearranged(sorted, plan);
    assert forall|a: int| 0 <= a < sorted.len() implies plan.contains(#[trigger] sorted[a]) by {
        assert(sorted.contains(sorted[a]));
        assert(plan.to_multiset().count(sorted[a]) > 0);
    }
    if size > 0 {
        assert(plan.no_duplicates()) by {
            assert forall|i: int, j: int|
                0 <= i < plan.len() && 0 <= j < plan.len() && i != j implies plan[i]
                != plan[j] by {
                assert(plan[i].apart(plan[j]));
                assert(plan[i].length > 0);
            }
        }
        plan.lemma_multiset_has_no_duplicates();
        sorted.lemma_multiset_has_no_duplicates_conv();
        assert forall|a: int| 0 <= a < sorted.len() - 1 implies (#[trigger] sorted[a + 1]).offset
            >= sorted[a].end() by {
            let x = sorted[a];
            let y = sorted[a + 1];
            assert(plan.contains(x));
            assert(plan.contains(y));
            let i = choose|i: int| 0 <= i < plan.len() && plan[i] == x;
            let j = choose|j: int| 0 <= j < plan.len() && plan[j] == y;
            assert(x != y);
            assert(plan[i].apart(plan[j]));
            assert(plan[j].length > 0);
            assert(x.offset <= y.offset);
        }
        lemma_chain(sorted);
        let first = sorted[0];
        let last = sorted.last();
        assert(plan.contains(first));
        assert(plan.contains(last));
        let i = choose|i: int| 0 <= i < plan.len() && plan[i] == first;
        let j = choose|j: int| 0 <= j < plan.len() && plan[j] == last;
        assert(plan[i].offset >= 0);
        assert(plan[j].end() <= size);
    } else {
        assert(sorted.len() == 1);
        let only = sorted[0];
        assert(plan.contains(only));
        let i = choose|i: int| 0 <= i < plan.len() && plan[i] == only;
        assert(0 <= plan[i].offset && plan[i].end() <= size && 0 <= plan[i].length);
    }
}

/// Whether `c` is a decimal digit or one of the letters `a` to `f`.
pub open spec fn is_lower_hex(c: char) -> bool {
    ('0' <= c && c <= '9') || ('a' <= c && c <= 'f')
}

/// The shape of a range id: thirty-two lower-case hexadecimal digits in
/// groups of eight, four, four, four and twelve, with a hyphen between two
/// groups.
pub open spec fn is_range_id(id: Seq<char>) -> bool {
    &&& id.len() == 36
    &&& forall|i: int|
        0 <= i < 36 ==> if i == 8 || i == 13 || i == 18 || i == 23 {
            #[trigger] id[i] == '-'
        } else {
            is_lower_hex(id[i])
        }
}

/// `uuid::Uuid::new_v4` followed by `to_string`: a random identifier as
/// text. Which identifier comes back is left open, so two calls may or may
/// not differ; the contract claims only the hyphenated lower-case form in
/// which the crate writes every identifier. The call fails only where the
/// operating system can supply no random bytes.
#[verifier::external_body]
pub(crate) fn new_range_id() -> (id: String)
    ensures
        is_range_id(id@),
{
    uuid::Uuid::new_v4().to_string()
}

/// The byte interval that a range covers.
pub open spec fn span_of(piece: Piece) -> Span {
    Span { offset: piece.offset, length: piece.length }
}

/// The byte intervals of the ranges, in their order.
pub open spec fn spans_of(pieces: Seq<Piece>) -> Seq<Span> {
    pieces.map_values(|p: Piece| span_of(p))
}

/// A range as the planner makes it: not started, nothing downloaded, with
/// a well-shaped id.
pub open spec fn is_fresh(piece: Piece) -> bool {
    &&& piece.downloaded == 0
    &&& piece.state == SegmentState::NotStarted
    &&& piece.stream_type == StreamType::Primary
    &&& is_range_id(piece.id@)
}

/// Makes a range with a new id over `span`.
pub fn new_piece(span: Span) -> (piece: Piece)
    ensures
        span_of(piece) == span,
        is_fresh(piece),
{
    Piece::new(new_range_id(), span.offset, span.length)
}

/// Splits a resource of `file_size` bytes into the ranges that are fetched
/// over at most `max_connections` connections, each with an id of its own
/// making. A size that no `i64` holds gives a single range of unknown
/// length.
pub fn create_pieces(file_size: u64, max_connections: usize) -> (pieces: Vec<Piece>)
    ensures
        file_size <= i64::MAX ==> is_plan(
            spans_of(pieces@),
            file_size as int,
            max_connections as int,
        ),
        file_size > i64::MAX ==> spans_of(pieces@) == seq![Span { offset: 0, length: -1i64 }],
        forall|i: int| 0 <= i < pieces.len() ==> is_fresh(#[trigger] pieces[i]),
{
    let spans = plan_spans(file_size, max_connections);
    let mut pieces: Vec<Piece> = Vec::new();
    let mut i: usize = 0;
    while i < spans.len()
        invariant
            i <= spans.len(),
            pieces.len() == i,
            spans_of(pieces@) == spans@.take(i as int),
            forall|k: int| 0 <= k < pieces.len() ==> is_fresh(#[trigger] pieces[k]),
        decreases spans.len() - i,
    {
        let piece = new_piece(spans[i]);
        pieces.push(piece);
        i = i + 1;
        assert(spans_of(pieces@) =~= spans@.take(i as int));
    }
    assert(spans@.take(spans.len() as int) =~= spans@);
    pieces
}

} // verus!
