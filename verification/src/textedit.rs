//! Line addressing and the rendering of pending text edits: deletions of character ranges and
//! insertions of text at character offsets, all resolved against one original content.
use vstd::prelude::*;

use crate::edit::{RangeSet, TextRange};
use crate::error::SmartEditError;

verus! {

// ---------------------------------------------------------------------------------------------
// Lines
// ---------------------------------------------------------------------------------------------
/// `b` lists the boundaries of the lines of `c`: line `j` is `c[b[j]..b[j+1]]`, every line but
/// possibly the last ends with its `'\n'`, and no line holds any other `'\n'`.
pub open spec fn valid_line_bounds(c: Seq<char>, b: Seq<usize>) -> bool {
    &&& b.len() >= 1
    &&& b[0] == 0
    &&& b.last() == c.len()
    &&& forall|j: int| 0 <= j < b.len() - 1 ==> #[trigger] b[j] < b[j + 1]
    &&& forall|j: int, i: int|
        0 <= j < b.len() - 1 && b[j] <= i < b[j + 1] - 1 ==> #[trigger] c[i] != '\n' || #[trigger] b[j] > i
    &&& forall|j: int| 0 < j < b.len() - 1 ==> c[#[trigger] b[j] - 1] == '\n'
}

/// Number of lines described by line boundaries.
pub open spec fn line_count(b: Seq<usize>) -> int {
    b.len() - 1
}

pub proof fn lemma_bounds_increasing(b: Seq<usize>, i: int, j: int)
    requires
        forall|k: int| 0 <= k < b.len() - 1 ==> #[trigger] b[k] < b[k + 1],
        0 <= i <= j < b.len(),
    ensures
        b[i] <= b[j],
        i < j ==> b[i] < b[j],
    decreases j - i,
{
    if i < j {
        lemma_bounds_increasing(b, i, j - 1);
        assert(b[j - 1] < b[j]);
    }
}

/// The boundaries of the lines of `c`.
pub fn line_bounds(c: &[char]) -> (b: Vec<usize>)
    ensures
        valid_line_bounds(c@, b@),
        forall|j: int| 0 <= j < b@.len() ==> #[trigger] b@[j] <= c@.len(),
{
    let n = c.len();
    let mut b: Vec<usize> = Vec::new();
    b.push(0);
    let mut i: usize = 0;
    while i < n
        invariant
            n == c@.len(),
            i <= n,
            b@.len() >= 1,
            b@[0] == 0,
            b@.last() <= i,
            n > 0 ==> b@.last() < n,
            forall|j: int| 0 <= j < b@.len() ==> #[trigger] b@[j] <= n,
            forall|j: int| 0 <= j < b@.len() - 1 ==> #[trigger] b@[j] < b@[j + 1],
            forall|j: int, k: int|
                0 <= j < b@.len() - 1 && b@[j] <= k < b@[j + 1] - 1 ==> #[trigger] c@[k] != '\n'
                    || #[trigger] b@[j] > k,
            forall|k: int| b@.last() <= k < i && k < n - 1 ==> c@[k] != '\n',
            forall|j: int| 0 < j < b@.len() ==> c@[#[trigger] b@[j] - 1] == '\n',
        decreases n - i,
    {
        if c[i] == '\n' && i + 1 < n {
            let ghost old_b = b@;
            b.push(i + 1);
            proof {
                assert forall|j: int, k: int|
                    0 <= j < b@.len() - 1 && b@[j] <= k < b@[j + 1] - 1 implies #[trigger] c@[k]
                    != '\n' || #[trigger] b@[j] > k by {
                    if j < old_b.len() - 1 {
                        assert(b@[j] == old_b[j] && b@[j + 1] == old_b[j + 1]);
                    } else {
                        assert(b@[j] == old_b.last());
                    }
                }
                assert forall|j: int| 0 < j < b@.len() implies c@[#[trigger] b@[j] - 1] == '\n' by {
                    if j < old_b.len() {
                        assert(b@[j] == old_b[j]);
                    }
                }
            }
        }
        i = i + 1;
    }
    if n > 0 {
        let ghost old_b = b@;
        b.push(n);
        proof {
            assert forall|j: int, k: int|
                0 <= j < b@.len() - 1 && b@[j] <= k < b@[j + 1] - 1 implies #[trigger] c@[k] != '\n'
                || #[trigger] b@[j] > k by {
                if j < old_b.len() - 1 {
                    assert(b@[j] == old_b[j] && b@[j + 1] == old_b[j + 1]);
                } else {
                    assert(b@[j] == old_b.last());
                }
            }
            assert forall|j: int| 0 < j < b@.len() - 1 implies c@[#[trigger] b@[j] - 1] == '\n' by {
                assert(b@[j] == old_b[j]);
            }
        }
    }
    b
}

// ---------------------------------------------------------------------------------------------
// Line ranges
// ---------------------------------------------------------------------------------------------
/// The failure, if any, of the `k`-th line range of a set against a file of `count` lines.
pub open spec fn line_range_error(path: String, ranges: Seq<TextRange>, count: int, k: int) -> Option<
    SmartEditError,
> {
    let r = ranges[k];
    if r.start > r.end {
        Some(SmartEditError::InvalidRange { start: r.start, end: r.end })
    } else if r.end > count {
        Some(
            SmartEditError::RangeOutOfBounds {
                path,
                start: r.start,
                end: r.end,
                len: count as usize,
            },
        )
    } else if k > 0 && r.start < ranges[k - 1].end {
        Some(
            SmartEditError::RangesNotSortedOrDisjoint {
                path,
                previous_end: ranges[k - 1].end,
                next_start: r.start,
            },
        )
    } else {
        None
    }
}

/// The character range that the line range `r` covers.
pub open spec fn resolved_line_range(b: Seq<usize>, r: TextRange) -> TextRange {
    TextRange { start: b[r.start as int], end: b[r.end as int], span: None }
}

/// Resolves line ranges to character ranges of `c`. The ranges must be well-formed, within the
/// file, and sorted without overlap; the first range that is not yields the error.
pub fn resolve_line_ranges(path: &String, c: &[char], b: &[usize], ranges: &RangeSet) -> (r: Result<
    Vec<TextRange>,
    SmartEditError,
>)
    requires
        valid_line_bounds(c@, b@),
    ensures
        (forall|k: int|
            0 <= k < ranges.ranges@.len() ==> line_range_error(
                *path,
                ranges.ranges@,
                line_count(b@),
                k,
            ).is_none()) <==> r.is_ok(),
        r matches Ok(v) ==> {
            &&& v@.len() == ranges.ranges@.len()
            &&& forall|k: int|
                0 <= k < v@.len() ==> #[trigger] v@[k] == resolved_line_range(b@, ranges.ranges@[k])
        },
        r matches Err(e) ==> (exists|k: int|
            0 <= k < ranges.ranges@.len() && (forall|j: int|
                0 <= j < k ==> line_range_error(*path, ranges.ranges@, line_count(b@), j).is_none())
                && line_range_error(*path, ranges.ranges@, line_count(b@), k) == Some(e)),
{
    let rs = ranges.ranges.as_slice();
    let count = b.len() - 1;
    let mut out: Vec<TextRange> = Vec::new();
    let mut k: usize = 0;
    while k < rs.len()
        invariant
            valid_line_bounds(c@, b@),
            count == line_count(b@),
            rs@ == ranges.ranges@,
            k <= rs@.len(),
            out@.len() == k,
            forall|j: int|
                0 <= j < k ==> line_range_error(*path, rs@, count as int, j).is_none(),
            forall|j: int| 0 <= j < k ==> #[trigger] out@[j] == resolved_line_range(b@, rs@[j]),
        decreases rs.len() - k,
    {
        let r = rs[k];
        if r.start > r.end {
            let e = SmartEditError::InvalidRange { start: r.start, end: r.end };
            assert(line_range_error(*path, rs@, count as int, k as int) == Some(e));
            return Err(e);
        }
        if r.end > count {
            let e = SmartEditError::RangeOutOfBounds {
                path: path.clone(),
                start: r.start,
                end: r.end,
                len: count,
            };
            assert(line_range_error(*path, rs@, count as int, k as int) == Some(e));
            return Err(e);
        }
        if k > 0 && r.start < rs[k - 1].end {
            let e = SmartEditError::RangesNotSortedOrDisjoint {
                path: path.clone(),
                previous_end: rs[k - 1].end,
                next_start: r.start,
            };
            assert(line_range_error(*path, rs@, count as int, k as int) == Some(e));
            return Err(e);
        }
        assert(line_range_error(*path, rs@, count as int, k as int).is_none());
        proof {
            lemma_bounds_increasing(b@, r.start as int, r.end as int);
        }
        out.push(TextRange { start: b[r.start], end: b[r.end], span: None });
        k = k + 1;
    }
    Ok(out)
}

/// The concatenated text of character ranges of `c`.
pub open spec fn ranges_text(c: Seq<char>, rs: Seq<TextRange>) -> Seq<char>
    decreases rs.len(),
{
    if rs.len() == 0 {
        Seq::empty()
    } else {
        ranges_text(c, rs.drop_last()) + c.subrange(
            rs.last().start as int,
            rs.last().end as int,
        )
    }
}

/// The concatenated text of ordered character ranges of `c`.
pub fn extract_ranges(c: &[char], rs: &[TextRange]) -> (t: Vec<char>)
    requires
        forall|k: int|
            0 <= k < rs@.len() ==> #[trigger] rs@[k].start <= rs@[k].end && rs@[k].end <= c@.len(),
    ensures
        t@ == ranges_text(c@, rs@),
{
    let mut t: Vec<char> = Vec::new();
    let mut k: usize = 0;
    while k < rs.len()
        invariant
            k <= rs@.len(),
            forall|j: int|
                0 <= j < rs@.len() ==> #[trigger] rs@[j].start <= rs@[j].end && rs@[j].end
                    <= c@.len(),
            t@ == ranges_text(c@, rs@.subrange(0, k as int)),
        decreases rs.len() - k,
    {
        let r = rs[k];
        crate::text::push_range(&mut t, c, r.start, r.end);
        proof {
            let next = rs@.subrange(0, k + 1);
            assert(next.drop_last() =~= rs@.subrange(0, k as int));
            assert(next.last() == rs@[k as int]);
        }
        k = k + 1;
    }
    assert(rs@.subrange(0, rs@.len() as int) =~= rs@);
    t
}

/// Resolves the line before which text is inserted to a character offset; the line after the
/// last one is allowed and denotes the end of the file.
pub fn resolve_insertion_offset(path: &String, b: &[usize], line: usize) -> (r: Result<
    usize,
    SmartEditError,
>)
    requires
        b@.len() >= 1,
    ensures
        line <= line_count(b@) ==> r == Ok::<usize, SmartEditError>(b@[line as int]),
        line > line_count(b@) ==> r == Err::<usize, SmartEditError>(
            SmartEditError::InvalidInsertionOffset {
                path: *path,
                offset: line,
                len: line_count(b@) as usize,
            },
        ),
{
    let count = b.len() - 1;
    if line > count {
        Err(SmartEditError::InvalidInsertionOffset { path: path.clone(), offset: line, len: count })
    } else {
        Ok(b[line])
    }
}

/// A line without its terminating `"\r\n"` or `"\n"`.
pub open spec fn line_without_terminator(c: Seq<char>, start: int, end: int) -> Seq<char> {
    if end - start >= 2 && c[end - 1] == '\n' && c[end - 2] == '\r' {
        c.subrange(start, end - 2)
    } else if end - start >= 1 && c[end - 1] == '\n' {
        c.subrange(start, end - 1)
    } else {
        c.subrange(start, end)
    }
}

pub fn copy_line_without_terminator(c: &[char], start: usize, end: usize) -> (t: Vec<char>)
    requires
        start <= end <= c@.len(),
    ensures
        t@ == line_without_terminator(c@, start as int, end as int),
{
    if end - start >= 2 && c[end - 1] == '\n' && c[end - 2] == '\r' {
        crate::text::copy_range(c, start, end - 2)
    } else if end - start >= 1 && c[end - 1] == '\n' {
        crate::text::copy_range(c, start, end - 1)
    } else {
        crate::text::copy_range(c, start, end)
    }
}

/// The character ranges of the lines `j` of `c` for which `selected[j]` holds, in order.
pub open spec fn selected_line_ranges(b: Seq<usize>, selected: Seq<bool>) -> Seq<TextRange>
    decreases selected.len(),
{
    if selected.len() == 0 {
        Seq::empty()
    } else {
        let j = selected.len() - 1;
        let before = selected_line_ranges(b, selected.drop_last());
        if selected.last() {
            before.push(TextRange { start: b[j], end: b[j + 1], span: None })
        } else {
            before
        }
    }
}

/// The ranges of the selected lines.
pub fn select_line_ranges(b: &[usize], selected: &[bool]) -> (r: Vec<TextRange>)
    requires
        selected@.len() == b@.len() - 1,
        b@.len() >= 1,
    ensures
        r@ == selected_line_ranges(b@, selected@),
{
    let mut r: Vec<TextRange> = Vec::new();
    let mut j: usize = 0;
    while j < selected.len()
        invariant
            selected@.len() == b@.len() - 1,
            j <= selected@.len(),
            r@ == selected_line_ranges(b@, selected@.subrange(0, j as int)),
        decreases selected.len() - j,
    {
        let ghost prefix = selected@.subrange(0, j + 1);
        assert(prefix.drop_last() =~= selected@.subrange(0, j as int));
        if selected[j] {
            r.push(TextRange { start: b[j], end: b[j + 1], span: None });
        }
        j = j + 1;
    }
    assert(selected@.subrange(0, selected@.len() as int) =~= selected@);
    r
}

// ---------------------------------------------------------------------------------------------
// Literal occurrences
// ---------------------------------------------------------------------------------------------
/// Whether `t` occurs in `c` at position `p`.
pub open spec fn occurs_at(c: Seq<char>, t: Seq<char>, p: int) -> bool {
    0 <= p && p + t.len() <= c.len() && c.subrange(p, p + t.len()) == t
}

/// Start positions of the non-overlapping occurrences of `t` in `c` at or after `from`, found
/// from left to right.
pub open spec fn occurrences_from(c: Seq<char>, t: Seq<char>, from: int) -> Seq<int>
    recommends
        t.len() > 0,
    decreases c.len() - from, 1int,
    when t.len() > 0 && 0 <= from
{
    if from + t.len() > c.len() {
        Seq::empty()
    } else if occurs_at(c, t, from) {
        seq![from] + occurrences_from(c, t, from + t.len())
    } else {
        occurrences_from(c, t, from + 1)
    }
}

/// Every occurrence found lies within the text.
pub proof fn lemma_occurrences_within(c: Seq<char>, t: Seq<char>, from: int)
    requires
        t.len() > 0,
        0 <= from,
    ensures
        forall|k: int|
            0 <= k < occurrences_from(c, t, from).len() ==> from <= #[trigger] occurrences_from(
                c,
                t,
                from,
            )[k] && occurrences_from(c, t, from)[k] + t.len() <= c.len(),
    decreases c.len() - from,
{
    if from + t.len() > c.len() {
    } else if occurs_at(c, t, from) {
        lemma_occurrences_within(c, t, from + t.len());
        let rest = occurrences_from(c, t, from + t.len());
        assert(occurrences_from(c, t, from) == seq![from] + rest);
        assert forall|k: int| 0 <= k < occurrences_from(c, t, from).len() implies from
            <= #[trigger] occurrences_from(c, t, from)[k] && occurrences_from(c, t, from)[k]
            + t.len() <= c.len() by {
            if k > 0 {
                assert(occurrences_from(c, t, from)[k] == rest[k - 1]);
            }
        }
    } else {
        lemma_occurrences_within(c, t, from + 1);
        assert(occurrences_from(c, t, from) == occurrences_from(c, t, from + 1));
    }
}

/// The ranges of the non-overlapping occurrences of a non-empty `t` in `c`, left to right.
pub fn find_literal_occurrences(c: &[char], t: &[char]) -> (r: Vec<TextRange>)
    requires
        t@.len() > 0,
    ensures
        r@.len() == occurrences_from(c@, t@, 0).len(),
        forall|k: int|
            0 <= k < r@.len() ==> #[trigger] r@[k].start == occurrences_from(c@, t@, 0)[k]
                && r@[k].end == r@[k].start + t@.len() && r@[k].span.is_none(),
{
    let n = c.len();
    let m = t.len();
    let mut r: Vec<TextRange> = Vec::new();
    let mut p: usize = 0;
    if m > n {
        proof {
            assert(occurrences_from(c@, t@, 0) == Seq::<int>::empty());
        }
        return r;
    }
    while p <= n - m
        invariant
            n == c@.len(),
            m == t@.len(),
            m > 0,
            m <= n,
            p <= n + 1,
            r@.len() + occurrences_from(c@, t@, p as int).len() == occurrences_from(
                c@,
                t@,
                0,
            ).len(),
            forall|k: int|
                0 <= k < r@.len() ==> #[trigger] r@[k].start == occurrences_from(c@, t@, 0)[k]
                    && r@[k].end == r@[k].start + m && r@[k].span.is_none(),
            forall|k: int|
                0 <= k < occurrences_from(c@, t@, p as int).len() ==> occurrences_from(
                    c@,
                    t@,
                    0,
                )[r@.len() + k] == #[trigger] occurrences_from(c@, t@, p as int)[k],
        decreases n + 1 - p,
    {
        assert(p + m <= n);
        if crate::text::has_prefix_at(c, p, t) {
            proof {
                assert(c@.subrange(p as int, n as int).subrange(0, m as int) =~= c@.subrange(
                    p as int,
                    p + m,
                ));
                assert(occurs_at(c@, t@, p as int));
                let rest = occurrences_from(c@, t@, p + m);
                let here = occurrences_from(c@, t@, p as int);
                let all = occurrences_from(c@, t@, 0);
                assert(here == seq![p as int] + rest);
                assert(here[0] == p);
                assert(all[r@.len() as int + 0] == here[0]);
                assert forall|k: int| 0 <= k < rest.len() implies all[r@.len() + 1 + k]
                    == #[trigger] rest[k] by {
                    assert(here[k + 1] == rest[k]);
                    assert(all[r@.len() + (k + 1)] == here[k + 1]);
                }
            }
            let ghost old_r = r@;
            r.push(TextRange { start: p, end: p + m, span: None });
            proof {
                assert forall|k: int| 0 <= k < r@.len() implies #[trigger] r@[k].start
                    == occurrences_from(c@, t@, 0)[k] && r@[k].end == r@[k].start + m
                    && r@[k].span.is_none() by {
                    if k < old_r.len() {
                        assert(r@[k] == old_r[k]);
                    }
                }
            }
            p = p + m;
        } else {
            proof {
                assert(c@.subrange(p as int, n as int).subrange(0, m as int) =~= c@.subrange(
                    p as int,
                    p + m,
                ));
                assert(!occurs_at(c@, t@, p as int));
                assert(occurrences_from(c@, t@, p as int) == occurrences_from(c@, t@, p + 1));
            }
            p = p + 1;
        }
    }
    r
}

// ---------------------------------------------------------------------------------------------
// Pending edits
// ---------------------------------------------------------------------------------------------
/// Why a range of a file is deleted.
#[derive(Debug, Clone, Copy, PartialEq, Eq, Structural)]
pub enum DeletionKind {
    Delete,
    Move,
    Replace,
}

/// A character range that one modification removes.
#[derive(Debug, Clone, Copy)]
pub struct PendingDeletion {
    pub range: TextRange,
    pub kind: DeletionKind,
    pub modification_index: usize,
}

/// Text that one modification inserts at a character offset.
#[derive(Debug, Clone)]
pub struct PendingInsertion {
    pub offset: usize,
    pub text: Vec<char>,
    pub order: usize,
}

/// Two deletions from different modifications conflict when they overlap and at least one of
/// them does more than delete (moves or replaces the text).
pub open spec fn deletions_conflict(left: PendingDeletion, right: PendingDeletion) -> bool {
    &&& left.modification_index != right.modification_index
    &&& left.range.start < right.range.end
    &&& right.range.start < left.range.end
    &&& (left.kind != DeletionKind::Delete || right.kind != DeletionKind::Delete)
}

/// Pair `(i, j)` precedes pair `(k, l)` in the order `validate_destructive_overlaps` visits.
pub open spec fn pair_before(i: int, j: int, k: int, l: int) -> bool {
    i < k || (i == k && j < l)
}

/// The error for conflicting deletions: the first conflicting pair in the order
/// `(0,1), (0,2), ..., (1,2), ...`.
pub open spec fn first_overlap_error(path: String, deletions: Seq<PendingDeletion>, e: SmartEditError) -> bool {
    exists|i: int, j: int|
        0 <= i < j < deletions.len() && deletions_conflict(deletions[i], deletions[j]) && (forall|
            k: int,
            l: int,
        |
            0 <= k < l < deletions.len() && pair_before(k, l, i, j) ==> !deletions_conflict(
                #[trigger] deletions[k],
                #[trigger] deletions[l],
            )) && e == (SmartEditError::OverlappingDestructiveEdits {
            path,
            first_modification: deletions[i].modification_index,
            second_modification: deletions[j].modification_index,
        })
}

/// The error for the first deletion, in list order, that is inverted or out of bounds.
pub open spec fn first_range_error(path: String, deletions: Seq<PendingDeletion>, len: int, e: SmartEditError) -> bool {
    exists|k: int|
        0 <= k < deletions.len() && (forall|j: int|
            0 <= j < k ==> deletion_error(path, #[trigger] deletions[j].range, len).is_none())
            && deletion_error(path, deletions[k].range, len) == Some(e)
}

/// Rejects the first conflicting pair of deletions, in the order `(0,1), (0,2), ..., (1,2), ...`.
pub fn validate_destructive_overlaps(path: &String, deletions: &[PendingDeletion]) -> (r: Result<
    (),
    SmartEditError,
>)
    ensures
        r.is_ok() <==> (forall|i: int, j: int|
            0 <= i < j < deletions@.len() ==> !deletions_conflict(
                #[trigger] deletions@[i],
                #[trigger] deletions@[j],
            )),
        r matches Err(e) ==> first_overlap_error(*path, deletions@, e),
{
    let n = deletions.len();
    let mut i: usize = 0;
    while i < n
        invariant
            n == deletions@.len(),
            i <= n,
            forall|k: int, l: int|
                0 <= k < l < n && k < i ==> !deletions_conflict(
                    #[trigger] deletions@[k],
                    #[trigger] deletions@[l],
                ),
        decreases n - i,
    {
        let mut j: usize = i + 1;
        while j < n
            invariant
                n == deletions@.len(),
                i < n,
                i + 1 <= j <= n,
                forall|k: int, l: int|
                    0 <= k < l < n && k < i ==> !deletions_conflict(
                        #[trigger] deletions@[k],
                        #[trigger] deletions@[l],
                    ),
                forall|l: int| i < l < j ==> !deletions_conflict(deletions@[i as int], #[trigger] deletions@[l]),
            decreases n - j,
        {
            let left = deletions[i];
            let right = deletions[j];
            if left.modification_index != right.modification_index {
                let overlaps = left.range.start < right.range.end && right.range.start
                    < left.range.end;
                let destructive = left.kind != DeletionKind::Delete || right.kind
                    != DeletionKind::Delete;
                if overlaps && destructive {
                    proof {
                        assert(deletions_conflict(deletions@[i as int], deletions@[j as int]));
                        assert forall|k: int, l: int|
                            0 <= k < l < deletions@.len() && pair_before(
                                k,
                                l,
                                i as int,
                                j as int,
                            ) implies !deletions_conflict(
                            #[trigger] deletions@[k],
                            #[trigger] deletions@[l],
                        ) by {
                            if k == i {
                                assert(i < l < j);
                            }
                        }
                    }
                    return Err(
                        SmartEditError::OverlappingDestructiveEdits {
                            path: path.clone(),
                            first_modification: left.modification_index,
                            second_modification: right.modification_index,
                        },
                    );
                }
            }
            j = j + 1;
        }
        proof {
            assert forall|k: int, l: int|
                0 <= k < l < n && k < i + 1 implies !deletions_conflict(
                #[trigger] deletions@[k],
                #[trigger] deletions@[l],
            ) by {
                if k == i {
                    assert(i < l < j);
                }
            }
        }
        i = i + 1;
    }
    Ok(())
}

/// The failure, if any, of the `k`-th deletion against a content of `len` characters.
pub open spec fn deletion_error(path: String, d: TextRange, len: int) -> Option<SmartEditError> {
    if d.start > d.end {
        Some(SmartEditError::InvalidRange { start: d.start, end: d.end })
    } else if d.end > len {
        Some(
            SmartEditError::RangeOutOfBounds {
                path,
                start: d.start,
                end: d.end,
                len: len as usize,
            },
        )
    } else {
        None
    }
}

/// Whether some deletion covers position `p`.
pub open spec fn is_deleted(deletions: Seq<PendingDeletion>, p: int) -> bool {
    exists|k: int|
        0 <= k < deletions.len() && #[trigger] deletions[k].range.start <= p < deletions[k].range.end
}

/// Checks every deletion against the content and marks the deleted positions.
pub fn deleted_positions(path: &String, len: usize, deletions: &[PendingDeletion]) -> (r: Result<
    Vec<bool>,
    SmartEditError,
>)
    ensures
        r.is_ok() <==> (forall|k: int|
            0 <= k < deletions@.len() ==> deletion_error(
                *path,
                #[trigger] deletions@[k].range,
                len as int,
            ).is_none()),
        r matches Ok(mask) ==> mask@.len() == len && forall|p: int|
            0 <= p < len ==> #[trigger] mask@[p] == is_deleted(deletions@, p),
        r matches Err(e) ==> first_range_error(*path, deletions@, len as int, e),
{
    let n = deletions.len();
    let mut k: usize = 0;
    while k < n
        invariant
            n == deletions@.len(),
            k <= n,
            forall|j: int|
                0 <= j < k ==> deletion_error(*path, #[trigger] deletions@[j].range, len as int).is_none(),
        decreases n - k,
    {
        let d = deletions[k].range;
        if d.start > d.end {
            return Err(SmartEditError::InvalidRange { start: d.start, end: d.end });
        }
        if d.end > len {
            return Err(
                SmartEditError::RangeOutOfBounds {
                    path: path.clone(),
                    start: d.start,
                    end: d.end,
                    len,
                },
            );
        }
        k = k + 1;
    }
    let mut mask: Vec<bool> = Vec::new();
    let mut p: usize = 0;
    while p < len
        invariant
            p <= len,
            mask@.len() == p,
            forall|q: int| 0 <= q < p ==> !(#[trigger] mask@[q]),
        decreases len - p,
    {
        mask.push(false);
        p = p + 1;
    }
    let mut k: usize = 0;
    while k < n
        invariant
            n == deletions@.len(),
            k <= n,
            mask@.len() == len,
            forall|j: int|
                0 <= j < n ==> deletion_error(*path, #[trigger] deletions@[j].range, len as int).is_none(),
            forall|q: int|
                0 <= q < len ==> #[trigger] mask@[q] == exists|j: int|
                    0 <= j < k && #[trigger] deletions@[j].range.start <= q < deletions@[j].range.end,
        decreases n - k,
    {
        let d = deletions[k].range;
        assert(deletion_error(*path, deletions@[k as int].range, len as int).is_none());
        let mut q = d.start;
        while q < d.end
            invariant
                n == deletions@.len(),
                k < n,
                d == deletions@[k as int].range,
                d.start <= q <= d.end <= len,
                mask@.len() == len,
                forall|x: int|
                    0 <= x < len ==> #[trigger] mask@[x] == ((exists|j: int|
                        0 <= j < k && #[trigger] deletions@[j].range.start <= x
                            < deletions@[j].range.end) || (d.start <= x < q)),
            decreases d.end - q,
        {
            mask.set(q, true);
            q = q + 1;
        }
        proof {
            assert forall|x: int| 0 <= x < len implies #[trigger] mask@[x] == exists|j: int|
                0 <= j < k + 1 && #[trigger] deletions@[j].range.start <= x
                    < deletions@[j].range.end by {
                if d.start <= x < d.end {
                    assert(deletions@[k as int].range.start <= x < deletions@[k as int].range.end);
                }
                if exists|j: int|
                    0 <= j < k + 1 && #[trigger] deletions@[j].range.start <= x
                        < deletions@[j].range.end {
                    let j = choose|j: int|
                        0 <= j < k + 1 && #[trigger] deletions@[j].range.start <= x
                            < deletions@[j].range.end;
                    if j < k {
                        assert(deletions@[j].range.start <= x < deletions@[j].range.end);
                    }
                }
            }
        }
        k = k + 1;
    }
    Ok(mask)
}

/// The key that orders insertions: by offset, then by modification order, then by position.
pub open spec fn insertion_before(ins: Seq<PendingInsertion>, a: int, b: int) -> bool {
    ins[a].offset < ins[b].offset || (ins[a].offset == ins[b].offset && (ins[a].order
        < ins[b].order || (ins[a].order == ins[b].order && a < b)))
}

/// `perm` lists every index of `ins` once, ordered by `insertion_before`: a stable sort by
/// offset and then by modification order.
pub open spec fn sorts_insertions(ins: Seq<PendingInsertion>, perm: Seq<usize>) -> bool {
    &&& perm.len() == ins.len()
    &&& forall|k: int| 0 <= k < perm.len() ==> #[trigger] perm[k] < ins.len()
    &&& forall|k: int, l: int|
        0 <= k < l < perm.len() ==> insertion_before(ins, #[trigger] perm[k] as int, #[trigger] perm[l] as int)
}

/// Whether insertion `e` stays before insertion `i` when `e` was listed earlier.
fn goes_before(ins: &[PendingInsertion], e: usize, i: usize) -> (r: bool)
    requires
        e < i < ins@.len(),
    ensures
        r == insertion_before(ins@, e as int, i as int),
{
    ins[e].offset < ins[i].offset || (ins[e].offset == ins[i].offset && ins[e].order
        <= ins[i].order)
}

/// A stable sort of the insertions by offset and then by modification order.
pub fn sort_insertions(ins: &[PendingInsertion]) -> (perm: Vec<usize>)
    ensures
        sorts_insertions(ins@, perm@),
{
    let n = ins.len();
    let mut perm: Vec<usize> = Vec::new();
    let mut i: usize = 0;
    while i < n
        invariant
            n == ins@.len(),
            i <= n,
            perm@.len() == i,
            forall|k: int| 0 <= k < perm@.len() ==> #[trigger] perm@[k] < i,
            forall|k: int, l: int|
                0 <= k < l < perm@.len() ==> insertion_before(
                    ins@,
                    #[trigger] perm@[k] as int,
                    #[trigger] perm@[l] as int,
                ),
        decreases n - i,
    {
        // Find the first position whose element must come after `i`.
        let mut pos: usize = 0;
        while pos < perm.len() && goes_before(ins, perm[pos], i)
            invariant
                n == ins@.len(),
                i < n,
                pos <= perm@.len(),
                perm@.len() == i,
                forall|k: int| 0 <= k < perm@.len() ==> #[trigger] perm@[k] < i,
                forall|k: int| 0 <= k < pos ==> insertion_before(ins@, #[trigger] perm@[k] as int, i as int),
            decreases perm.len() - pos,
        {
            pos = pos + 1;
        }
        proof {
            if pos < perm@.len() {
                assert(insertion_before(ins@, i as int, perm@[pos as int] as int));
                assert forall|k: int| pos <= k < perm@.len() implies insertion_before(
                    ins@,
                    i as int,
                    #[trigger] perm@[k] as int,
                ) by {
                    if k > pos {
                        assert(insertion_before(ins@, perm@[pos as int] as int, perm@[k] as int));
                    }
                }
            }
        }
        let ghost old_perm = perm@;
        perm.insert(pos, i);
        proof {
            assert forall|k: int, l: int|
                0 <= k < l < perm@.len() implies insertion_before(
                ins@,
                #[trigger] perm@[k] as int,
                #[trigger] perm@[l] as int,
            ) by {
                if l < pos {
                    assert(perm@[k] == old_perm[k] && perm@[l] == old_perm[l]);
                } else if l == pos {
                    assert(perm@[k] == old_perm[k]);
                } else if k < pos {
                    assert(perm@[k] == old_perm[k] && perm@[l] == old_perm[l - 1]);
                } else if k == pos {
                    assert(perm@[l] == old_perm[l - 1]);
                } else {
                    assert(perm@[k] == old_perm[k - 1] && perm@[l] == old_perm[l - 1]);
                }
            }
            assert forall|k: int| 0 <= k < perm@.len() implies #[trigger] perm@[k] < i + 1 by {
                if k < pos {
                    assert(perm@[k] == old_perm[k]);
                } else if k > pos {
                    assert(perm@[k] == old_perm[k - 1]);
                }
            }
        }
        i = i + 1;
    }
    perm
}

/// Insertions as `(offset, text)` pairs.
pub open spec fn insertion_pairs(ins: Seq<PendingInsertion>, perm: Seq<usize>) -> Seq<(int, Seq<char>)> {
    Seq::new(perm.len(), |k: int| (ins[perm[k] as int].offset as int, ins[perm[k] as int].text@))
}

/// The edited text: walking the original positions `p` from left to right, every pending
/// insertion whose offset is at most `p` is emitted (in list order) before position `p`, and
/// position `p` is kept unless it is deleted; insertions left at the end follow the text.
pub open spec fn render_edits(c: Seq<char>, deleted: Seq<bool>, ins: Seq<(int, Seq<char>)>, p: int) -> Seq<
    char,
>
    decreases (if p <= c.len() {
        c.len() - p
    } else {
        0
    }), ins.len(),
{
    if ins.len() > 0 && ins[0].0 <= p {
        ins[0].1 + render_edits(c, deleted, ins.drop_first(), p)
    } else if 0 <= p < c.len() {
        (if deleted[p] {
            Seq::empty()
        } else {
            seq![c[p]]
        }) + render_edits(c, deleted, ins, p + 1)
    } else if ins.len() > 0 {
        ins[0].1 + render_edits(c, deleted, ins.drop_first(), p)
    } else {
        Seq::empty()
    }
}

/// Applies a deletion mask and offset-sorted insertions to `c`.
pub fn apply_edits(c: &[char], deleted: &[bool], ins: &[PendingInsertion], perm: &[usize]) -> (out:
    Vec<char>)
    requires
        deleted@.len() == c@.len(),
        forall|k: int| 0 <= k < perm@.len() ==> #[trigger] perm@[k] < ins@.len(),
    ensures
        out@ == render_edits(c@, deleted@, insertion_pairs(ins@, perm@), 0),
{
    let ghost all = insertion_pairs(ins@, perm@);
    assert(all.skip(0) =~= all);
    let n = c.len();
    let m = perm.len();
    let mut out: Vec<char> = Vec::new();
    let mut p: usize = 0;
    let mut k: usize = 0;
    while p < n || k < m
        invariant
            n == c@.len(),
            m == perm@.len(),
            deleted@.len() == n,
            forall|j: int| 0 <= j < perm@.len() ==> #[trigger] perm@[j] < ins@.len(),
            all == insertion_pairs(ins@, perm@),
            p <= n,
            k <= m,
            out@ + render_edits(c@, deleted@, all.skip(k as int), p as int) == render_edits(
                c@,
                deleted@,
                all,
                0,
            ),
        decreases (n - p) + (m - k),
    {
        let ghost rest = all.skip(k as int);
        if k < m && ins[perm[k]].offset <= p {
            let ghost o = out@;
            crate::text::push_all(&mut out, &ins[perm[k]].text);
            proof {
                assert(rest[0] == all[k as int]);
                assert(rest.drop_first() =~= all.skip(k + 1));
                assert(out@ + render_edits(c@, deleted@, all.skip(k + 1), p as int) =~= o + (
                rest[0].1 + render_edits(c@, deleted@, rest.drop_first(), p as int)));
            }
            k = k + 1;
        } else if p < n {
            let ghost o = out@;
            if !deleted[p] {
                out.push(c[p]);
            }
            proof {
                if k < m {
                    assert(rest[0] == all[k as int]);
                }
                assert(render_edits(c@, deleted@, rest, p as int) == (if deleted@[p as int] {
                    Seq::empty()
                } else {
                    seq![c@[p as int]]
                }) + render_edits(c@, deleted@, rest, p + 1));
                if deleted@[p as int] {
                    assert(out@ == o);
                    assert(o + (Seq::<char>::empty() + render_edits(c@, deleted@, rest, p + 1))
                        =~= o + render_edits(c@, deleted@, rest, p + 1));
                } else {
                    assert(out@ == o.push(c@[p as int]));
                    assert(o + (seq![c@[p as int]] + render_edits(c@, deleted@, rest, p + 1))
                        =~= out@ + render_edits(c@, deleted@, rest, p + 1));
                }
            }
            p = p + 1;
        } else {
            let ghost o = out@;
            crate::text::push_all(&mut out, &ins[perm[k]].text);
            proof {
                assert(rest[0] == all[k as int]);
                assert(rest.drop_first() =~= all.skip(k + 1));
                assert(out@ + render_edits(c@, deleted@, all.skip(k + 1), p as int) =~= o + (
                rest[0].1 + render_edits(c@, deleted@, rest.drop_first(), p as int)));
            }
            k = k + 1;
        }
    }
    proof {
        let rest = all.skip(k as int);
        assert(rest.len() == 0);
        assert(render_edits(c@, deleted@, rest, p as int) == Seq::<char>::empty());
        assert(out@ + Seq::<char>::empty() =~= out@);
    }
    out
}


/// Whether insertion `a` falls strictly inside deletion `d`.
pub open spec fn insertion_inside(ins: Seq<PendingInsertion>, dels: Seq<PendingDeletion>, a: int, d: int) -> bool {
    dels[d].range.start < ins[a].offset && ins[a].offset < dels[d].range.end
}

/// The error for an insertion strictly inside a deletion: the insertion is the first in order
/// of offset (so in the order the insertions are placed) that falls inside some deletion, and
/// the deletion the first in list order that holds it; the error gives UTF-8 byte offsets into
/// the content.
pub open spec fn first_inside_error(
    path: String,
    content: Seq<char>,
    ins: Seq<PendingInsertion>,
    dels: Seq<PendingDeletion>,
    e: SmartEditError,
) -> bool {
    exists|a: int, d: int|
        0 <= a < ins.len() && 0 <= d < dels.len() && insertion_inside(ins, dels, a, d) && (forall|
            b: int,
            x: int,
        |
            0 <= b < ins.len() && 0 <= x < dels.len() && #[trigger] insertion_inside(ins, dels, b, x)
                ==> ins[a].offset <= ins[b].offset) && (forall|x: int|
            0 <= x < d ==> !#[trigger] insertion_inside(ins, dels, a, x)) && e == (
        SmartEditError::InsertionPointInsideDeletedRange {
            path,
            offset: crate::matchers::byte_offset(content, ins[a].offset as int) as usize,
            range_start: crate::matchers::byte_offset(content, dels[d].range.start as int) as usize,
            range_end: crate::matchers::byte_offset(content, dels[d].range.end as int) as usize,
        })
}

/// The first deletion, in list order, that holds insertion `a` strictly inside.
fn first_deletion_holding(ins: &[PendingInsertion], dels: &[PendingDeletion], a: usize) -> (r: Option<usize>)
    requires
        a < ins@.len(),
    ensures
        match r {
            Some(d) => d < dels@.len() && insertion_inside(ins@, dels@, a as int, d as int) && forall|
                x: int,
            | 0 <= x < d ==> !#[trigger] insertion_inside(ins@, dels@, a as int, x),
            None => forall|x: int|
                0 <= x < dels@.len() ==> !#[trigger] insertion_inside(ins@, dels@, a as int, x),
        },
{
    let offset = ins[a].offset;
    let mut d: usize = 0;
    while d < dels.len()
        invariant
            a < ins@.len(),
            d <= dels@.len(),
            offset == ins@[a as int].offset,
            forall|x: int| 0 <= x < d ==> !#[trigger] insertion_inside(ins@, dels@, a as int, x),
        decreases dels.len() - d,
    {
        let range = dels[d].range;
        if range.start < offset && offset < range.end {
            return Some(d);
        }
        d = d + 1;
    }
    None
}

/// Rejects an insertion that falls strictly inside a deletion: of those, the one with the
/// smallest offset, named with the first deletion that holds it.
fn check_insertions_outside_deletions(
    path: &String,
    content: &[char],
    ins: &[PendingInsertion],
    dels: &[PendingDeletion],
) -> (r: Result<(), SmartEditError>)
    requires
        forall|d: int| 0 <= d < dels@.len() ==> (#[trigger] dels@[d]).range.end <= content@.len(),
    ensures
        r.is_ok() <==> (forall|a: int, d: int|
            0 <= a < ins@.len() && 0 <= d < dels@.len() ==> !insertion_inside(ins@, dels@, a, d)),
        r matches Err(e) ==> first_inside_error(*path, content@, ins@, dels@, e),
{
    let mut best: Option<usize> = None;
    let mut a: usize = 0;
    while a < ins.len()
        invariant
            a <= ins@.len(),
            match best {
                Some(b) => b < a && (exists|x: int|
                    0 <= x < dels@.len() && #[trigger] insertion_inside(ins@, dels@, b as int, x))
                    && forall|c: int, x: int|
                    0 <= c < a && 0 <= x < dels@.len() && #[trigger] insertion_inside(ins@, dels@, c, x)
                        ==> ins@[b as int].offset <= ins@[c].offset,
                None => forall|c: int, x: int|
                    0 <= c < a && 0 <= x < dels@.len() ==> !#[trigger] insertion_inside(ins@, dels@, c, x),
            },
        decreases ins.len() - a,
    {
        match first_deletion_holding(ins, dels, a) {
            Some(d) => {
                assert(insertion_inside(ins@, dels@, a as int, d as int));
                let better = match best {
                    Some(b) => ins[a].offset < ins[b].offset,
                    None => true,
                };
                if better {
                    best = Some(a);
                }
            },
            None => {},
        }
        proof {
            if let Some(b) = best {
                assert forall|c: int, x: int|
                    0 <= c < a + 1 && 0 <= x < dels@.len() && #[trigger] insertion_inside(
                        ins@,
                        dels@,
                        c,
                        x,
                    ) implies ins@[b as int].offset <= ins@[c].offset by {
                    if c == a {
                        assert(insertion_inside(ins@, dels@, a as int, x));
                    }
                }
            }
        }
        a = a + 1;
    }
    match best {
        Some(b) => {
            match first_deletion_holding(ins, dels, b) {
                Some(d) => {
                    let range = dels[d].range;
                    let offsets = crate::matchers::char_offsets_by_byte(content);
                    proof {
                        crate::matchers::lemma_byte_offset_nonneg(content@, content@.len() as int);
                        assert(content@.subrange(0, content@.len() as int) =~= content@);
                        assert(dels@[d as int].range.end <= content@.len());
                    }
                    let bytes = crate::matchers::byte_offsets_of(content, offsets.len() - 1);
                    Err(
                        SmartEditError::InsertionPointInsideDeletedRange {
                            path: path.clone(),
                            offset: bytes[ins[b].offset],
                            range_start: bytes[range.start],
                            range_end: bytes[range.end],
                        },
                    )
                },
                None => Ok(()),
            }
        },
        None => Ok(()),
    }
}

/// The positions of a content of `len` characters that some deletion covers.
pub open spec fn deletion_mask_spec(deletions: Seq<PendingDeletion>, len: int) -> Seq<bool> {
    Seq::new(len as nat, |p: int| is_deleted(deletions, p))
}

/// Renders the pending deletions and insertions of one file against its original content.
///
/// Fails on the first conflicting pair of destructive deletions, then on the first deletion
/// that is inverted or out of bounds, then on the insertion of smallest offset that falls
/// strictly inside a deletion (reported in UTF-8 byte offsets). Otherwise the result keeps every character that no deletion
/// covers and places the insertions, stably sorted by offset and then by modification order,
/// before the character at their offset (insertions at the end of the content follow it).
#[verifier::rlimit(40)]
pub fn render_text_update(
    path: &String,
    content: &[char],
    deletions: &[PendingDeletion],
    insertions: &[PendingInsertion],
) -> (r: Result<Vec<char>, SmartEditError>)
    ensures
        r is Ok <==> ((forall|i: int, j: int|
            0 <= i < j < deletions@.len() ==> !deletions_conflict(
                #[trigger] deletions@[i],
                #[trigger] deletions@[j],
            )) && (forall|k: int|
            0 <= k < deletions@.len() ==> deletion_error(
                *path,
                #[trigger] deletions@[k].range,
                content@.len() as int,
            ).is_none()) && (forall|a: int, d: int|
            0 <= a < insertions@.len() && 0 <= d < deletions@.len() ==> !insertion_inside(
                insertions@,
                deletions@,
                a,
                d,
            ))),
        r matches Ok(out) ==> (exists|perm: Seq<usize>|
            sorts_insertions(insertions@, perm) && out@ == render_edits(
                content@,
                deletion_mask_spec(deletions@, content@.len() as int),
                insertion_pairs(insertions@, perm),
                0,
            )),
        r matches Err(e) ==> if !(forall|i: int, j: int|
            0 <= i < j < deletions@.len() ==> !deletions_conflict(
                #[trigger] deletions@[i],
                #[trigger] deletions@[j],
            )) {
            first_overlap_error(*path, deletions@, e)
        } else if !(forall|k: int|
            0 <= k < deletions@.len() ==> deletion_error(
                *path,
                #[trigger] deletions@[k].range,
                content@.len() as int,
            ).is_none()) {
            first_range_error(*path, deletions@, content@.len() as int, e)
        } else {
            first_inside_error(*path, content@, insertions@, deletions@, e)
        },
{
    match validate_destructive_overlaps(path, deletions) {
        Ok(()) => {},
        Err(e) => {
            return Err(e);
        },
    }
    let mask = match deleted_positions(path, content.len(), deletions) {
        Ok(mask) => mask,
        Err(e) => {
            return Err(e);
        },
    };
    match check_insertions_outside_deletions(path, content, insertions, deletions) {
        Ok(()) => {},
        Err(e) => {
            return Err(e);
        },
    }
    let perm = sort_insertions(insertions);
    let out = apply_edits(content, &mask, insertions, &perm);
    proof {
        assert(mask@ =~= deletion_mask_spec(deletions@, content@.len() as int));
    }
    Ok(out)
}

// ---------------------------------------------------------------------------------------------
// Laws of rendering
// ---------------------------------------------------------------------------------------------
/// The characters of `c` from `p` on that the mask keeps.
pub open spec fn kept_from(c: Seq<char>, deleted: Seq<bool>, p: int) -> Seq<char>
    decreases c.len() - p,
{
    if 0 <= p < c.len() {
        (if deleted[p] {
            Seq::empty()
        } else {
            seq![c[p]]
        }) + kept_from(c, deleted, p + 1)
    } else {
        Seq::empty()
    }
}

/// Without insertions, rendering keeps exactly the characters that no deletion covers.
pub proof fn lemma_render_deletions_only(c: Seq<char>, deleted: Seq<bool>, p: int)
    requires
        0 <= p,
    ensures
        render_edits(c, deleted, Seq::empty(), p) == kept_from(c, deleted, p),
    decreases c.len() - p,
{
    if p < c.len() {
        lemma_render_deletions_only(c, deleted, p + 1);
    }
}

/// Nothing deleted and nothing inserted: the content is unchanged.
pub proof fn lemma_render_identity(c: Seq<char>, p: int)
    requires
        0 <= p <= c.len(),
    ensures
        render_edits(c, Seq::new(c.len(), |i: int| false), Seq::empty(), p) == c.subrange(
            p,
            c.len() as int,
        ),
    decreases c.len() - p,
{
    let mask = Seq::new(c.len(), |i: int| false);
    if p < c.len() {
        lemma_render_identity(c, p + 1);
        assert(c.subrange(p, c.len() as int) =~= seq![c[p]] + c.subrange(p + 1, c.len() as int));
    } else {
        assert(c.subrange(p, c.len() as int) =~= Seq::<char>::empty());
    }
}

/// One insertion and nothing deleted: the text lands between `c[..o]` and `c[o..]`.
pub proof fn lemma_render_single_insertion(c: Seq<char>, o: int, t: Seq<char>, p: int)
    requires
        0 <= p <= o <= c.len(),
    ensures
        render_edits(c, Seq::new(c.len(), |i: int| false), seq![(o, t)], p) == c.subrange(p, o)
            + t + c.subrange(o, c.len() as int),
    decreases o - p,
{
    let mask = Seq::new(c.len(), |i: int| false);
    let ins = seq![(o, t)];
    if p < o {
        lemma_render_single_insertion(c, o, t, p + 1);
        assert(c.subrange(p, o) =~= seq![c[p]] + c.subrange(p + 1, o));
        assert(render_edits(c, mask, ins, p) == seq![c[p]] + render_edits(c, mask, ins, p + 1));
        assert(render_edits(c, mask, ins, p) =~= c.subrange(p, o) + t + c.subrange(o, c.len() as int));
    } else {
        assert(ins.drop_first() =~= Seq::<(int, Seq<char>)>::empty());
        lemma_render_identity(c, o);
        assert(c.subrange(p, o) =~= Seq::<char>::empty());
        assert(render_edits(c, mask, ins, p) == t + render_edits(c, mask, ins.drop_first(), p));
        assert(render_edits(c, mask, ins, p) =~= c.subrange(p, o) + t + c.subrange(o, c.len() as int));
    }
}

} // verus!
