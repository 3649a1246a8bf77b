//! Facts about column packing: how columns are delimited, and what the rows and
//! the widths they are given add up to.

use vstd::prelude::*;
use crate::geometry::Rect;
use crate::packing::{
    column_count, column_first, column_last, column_len, column_of, column_total, column_width,
    load, opens_column, row_height, row_offset, spans_column, spare_rows,
};

verus! {

/// The children from the first of a column up to `i` all belong to it.
pub proof fn lemma_column_first(ws: Seq<nat>, rows: nat, i: int)
    requires
        0 <= i < ws.len(),
    ensures
        0 <= column_first(ws, rows, i) <= i,
        opens_column(ws, rows, column_first(ws, rows, i)),
        forall|k: int|
            column_first(ws, rows, i) < k <= i ==> !#[trigger] opens_column(ws, rows, k),
    decreases i,
{
    if !opens_column(ws, rows, i) {
        lemma_column_first(ws, rows, i - 1);
    }
}

/// The children from `i` up to the last of its column all belong to it.
pub proof fn lemma_column_last(ws: Seq<nat>, rows: nat, i: int)
    requires
        0 <= i < ws.len(),
    ensures
        i <= column_last(ws, rows, i) < ws.len(),
        forall|k: int| i < k <= column_last(ws, rows, i) ==> !#[trigger] opens_column(ws, rows, k),
        column_last(ws, rows, i) + 1 == ws.len() || opens_column(
            ws,
            rows,
            column_last(ws, rows, i) + 1,
        ),
    decreases ws.len() - i,
{
    if !(i + 1 >= ws.len() || opens_column(ws, rows, i + 1)) {
        lemma_column_last(ws, rows, i + 1);
    }
}

/// The column of a child is one whole column, and the child lies in it.
pub proof fn lemma_column_span(ws: Seq<nat>, rows: nat, i: int)
    requires
        0 <= i < ws.len(),
    ensures
        spans_column(ws, rows, column_first(ws, rows, i), column_last(ws, rows, i)),
        column_first(ws, rows, i) <= i <= column_last(ws, rows, i),
{
    reveal(spans_column);
    lemma_column_first(ws, rows, i);
    lemma_column_last(ws, rows, i);
}

/// Every member of a column finds the same first member.
pub proof fn lemma_member_first(ws: Seq<nat>, rows: nat, first: int, last: int, j: int)
    requires
        spans_column(ws, rows, first, last),
        first <= j <= last,
    ensures
        column_first(ws, rows, j) == first,
        column_of(ws, rows, j) == column_of(ws, rows, first),
    decreases j - first,
{
    reveal(spans_column);
    if j > first {
        assert(!opens_column(ws, rows, j));
        lemma_member_first(ws, rows, first, last, j - 1);
    }
}

/// Every member of a column finds the same last member.
pub proof fn lemma_member_last(ws: Seq<nat>, rows: nat, first: int, last: int, j: int)
    requires
        spans_column(ws, rows, first, last),
        first <= j <= last,
    ensures
        column_last(ws, rows, j) == last,
    decreases last - j,
{
    reveal(spans_column);
    if j < last {
        assert(!opens_column(ws, rows, j + 1));
        lemma_member_last(ws, rows, first, last, j + 1);
    }
}

/// Within a column the gathered weight grows member by member, up to the
/// column's total.
pub proof fn lemma_member_load(ws: Seq<nat>, rows: nat, first: int, last: int, j: int)
    requires
        spans_column(ws, rows, first, last),
        first <= j <= last,
    ensures
        load(ws, rows, j) == if j == first {
            ws[j]
        } else {
            load(ws, rows, j - 1) + ws[j]
        },
        ws[j] <= load(ws, rows, j) <= load(ws, rows, last),
    decreases last - j,
{
    reveal(spans_column);
    if j > first {
        assert(!opens_column(ws, rows, j));
    }
    if j < last {
        assert(!opens_column(ws, rows, j + 1));
        lemma_member_load(ws, rows, first, last, j + 1);
    }
}

/// What a member of a column reads of its column.
pub proof fn lemma_member(ws: Seq<nat>, rows: nat, first: int, last: int, j: int)
    requires
        spans_column(ws, rows, first, last),
        first <= j <= last,
    ensures
        0 <= first <= last < ws.len(),
        opens_column(ws, rows, first),
        j > first ==> !opens_column(ws, rows, j),
        column_first(ws, rows, j) == first,
        column_last(ws, rows, j) == last,
        column_of(ws, rows, j) == column_of(ws, rows, first),
        column_total(ws, rows, j) == load(ws, rows, last),
        column_len(ws, rows, j) == last - first + 1,
        ws[j] <= load(ws, rows, j) <= load(ws, rows, last),
{
    reveal(spans_column);
    lemma_member_first(ws, rows, first, last, j);
    lemma_member_last(ws, rows, first, last, j);
    lemma_member_load(ws, rows, first, last, j);
}

/// A column that weighs more than the rows of the area has one member only.
pub proof fn lemma_heavy_column_is_single(ws: Seq<nat>, rows: nat, first: int, last: int)
    requires
        spans_column(ws, rows, first, last),
        load(ws, rows, last) > rows,
    ensures
        first == last,
{
    reveal(spans_column);
    if first < last {
        assert(!opens_column(ws, rows, last));
    }
}

/// Columns are numbered in the order of the children.
pub proof fn lemma_column_of_monotone(ws: Seq<nat>, rows: nat, i: int, j: int)
    requires
        0 <= i <= j,
    ensures
        column_of(ws, rows, i) <= column_of(ws, rows, j),
        column_of(ws, rows, j) <= column_of(ws, rows, i) + (j - i),
    decreases j - i,
{
    if i < j {
        lemma_column_of_monotone(ws, rows, i, j - 1);
    }
}

/// Every child lies in one of the counted columns.
pub proof fn lemma_column_in_count(ws: Seq<nat>, rows: nat, i: int)
    requires
        0 <= i < ws.len(),
    ensures
        column_of(ws, rows, i) < column_count(ws, rows) <= ws.len(),
{
    lemma_column_of_monotone(ws, rows, i, ws.len() - 1);
    lemma_column_of_monotone(ws, rows, 0, ws.len() - 1);
}

/// The spare rows, handed to every member, never use up more than the weights
/// leave free, and leave fewer rows unused than the column has members.
pub proof fn lemma_spare_rows(rows: nat, total: nat, len: int)
    requires
        total <= rows,
        len > 0,
    ensures
        total + len * spare_rows(rows, total, len) <= rows,
        rows - (len - 1) <= total + len * spare_rows(rows, total, len),
        total + len * spare_rows(rows, total, len) == rows - ((rows - total) % len),
{
    let free = rows - total;
    assert(free == len * (free / len) + free % len && 0 <= free % len < len) by (nonlinear_arith)
        requires
            len > 0,
            free >= 0,
    ;
}

/// In a column that the area can hold, the rows down to the bottom of member `j`
/// are the weights of the members so far and their spare rows.
pub proof fn lemma_fill_rows(ws: Seq<nat>, rows: nat, first: int, last: int, j: int)
    requires
        spans_column(ws, rows, first, last),
        first <= j <= last,
        load(ws, rows, last) <= rows,
    ensures
        row_height(ws, rows, j) == ws[j] + spare_rows(rows, load(ws, rows, last), last - first + 1),
        row_offset(ws, rows, j) + row_height(ws, rows, j) == load(ws, rows, j) + (j - first + 1)
            * spare_rows(rows, load(ws, rows, last), last - first + 1),
        row_offset(ws, rows, j) + row_height(ws, rows, j) <= rows,
    decreases j - first,
{
    reveal(spans_column);
    let spare = spare_rows(rows, load(ws, rows, last), last - first + 1);
    let len = last - first + 1;
    lemma_member(ws, rows, first, last, j);
    lemma_spare_rows(rows, load(ws, rows, last), len);
    if j > first {
        assert(!opens_column(ws, rows, j));
        lemma_fill_rows(ws, rows, first, last, j - 1);
        assert((j - first + 1) * spare == (j - first) * spare + spare) by (nonlinear_arith);
    } else {
        assert((j - first + 1) * spare == spare) by (nonlinear_arith)
            requires
                j == first,
        ;
    }
    assert((j - first + 1) * spare <= len * spare) by (nonlinear_arith)
        requires
            j - first + 1 <= len,
            spare >= 0,
    ;
}

/// The one member of a column heavier than the area is given all its rows.
pub proof fn lemma_heavy_rows(ws: Seq<nat>, rows: nat, first: int, last: int)
    requires
        spans_column(ws, rows, first, last),
        load(ws, rows, last) > rows,
    ensures
        first == last,
        row_offset(ws, rows, first) == 0,
        row_height(ws, rows, first) == rows,
{
    reveal(spans_column);
    lemma_heavy_column_is_single(ws, rows, first, last);
    lemma_member(ws, rows, first, last, first);
    let w = ws[first];
    assert(load(ws, rows, first) == w);
    assert((w * rows) / w == rows) by (nonlinear_arith)
        requires
            w > 0,
    ;
}

/// No child reaches below the area: its rows end at or above the area's last row.
pub proof fn lemma_rows_in_area(ws: Seq<nat>, rows: nat, i: int)
    requires
        0 <= i < ws.len(),
    ensures
        row_offset(ws, rows, i) + row_height(ws, rows, i) <= rows,
{
    let first = column_first(ws, rows, i);
    let last = column_last(ws, rows, i);
    lemma_column_span(ws, rows, i);
    if load(ws, rows, last) <= rows {
        lemma_fill_rows(ws, rows, first, last, i);
    } else {
        lemma_heavy_rows(ws, rows, first, last);
    }
}

/// The columns, side by side, are no wider than the area.
pub proof fn lemma_columns_in_width(ws: Seq<nat>, area: Rect, i: int)
    requires
        0 <= i < ws.len(),
    ensures
        (column_of(ws, area.height as nat, i) + 1) * column_width(ws, area) <= area.width,
        column_of(ws, area.height as nat, i) * column_width(ws, area) + column_width(ws, area) == (
        column_of(ws, area.height as nat, i) + 1) * column_width(ws, area),
{
    let rows = area.height as nat;
    let count = column_count(ws, rows) as int;
    let width = area.width as int;
    let each = column_width(ws, area) as int;
    let c = column_of(ws, rows, i) as int;
    lemma_column_in_count(ws, rows, i);
    assert(count * (width / count) <= width) by (nonlinear_arith)
        requires
            count > 0,
            width >= 0,
    ;
    assert((c + 1) * each <= count * each) by (nonlinear_arith)
        requires
            c + 1 <= count,
            each >= 0,
    ;
    assert(c * each + each == (c + 1) * each) by (nonlinear_arith);
}

/// A child that does not open a column starts where its predecessor ends.
pub proof fn lemma_next_offset(ws: Seq<nat>, rows: nat, j: int)
    requires
        0 < j < ws.len(),
        !opens_column(ws, rows, j),
    ensures
        row_offset(ws, rows, j) == row_offset(ws, rows, j - 1) + row_height(ws, rows, j - 1),
{
}

} // verus!
