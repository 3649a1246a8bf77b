//! What column packing promises of the rectangles it hands out.

use vstd::prelude::*;
use crate::geometry::Rect;
use crate::packing::{
    child_rect, column_first, column_last, column_len, column_of, column_total, column_width,
    load, opens_column, row_height, row_offset, spans_column,
};
use crate::packing_lemmas::{
    lemma_column_in_count, lemma_column_of_monotone, lemma_column_span, lemma_columns_in_width,
    lemma_fill_rows, lemma_heavy_rows, lemma_member, lemma_rows_in_area, lemma_spare_rows,
};

verus! {

/// The rows given to the children `from` to `to`, added up.
pub open spec fn rows_used(ws: Seq<nat>, rows: nat, from: int, to: int) -> nat
    decreases to - from + 1,
{
    if to < from {
        0
    } else {
        rows_used(ws, rows, from, to - 1) + row_height(ws, rows, to)
    }
}

/// Within a column the rows of the members follow each other from the top: the
/// rows used down to a member end where that member ends.
pub proof fn lemma_rows_follow(ws: Seq<nat>, rows: nat, first: int, last: int, j: int)
    requires
        spans_column(ws, rows, first, last),
        first <= j <= last,
    ensures
        rows_used(ws, rows, first, j) == row_offset(ws, rows, j) + row_height(ws, rows, j),
    decreases j - first,
{
    lemma_member(ws, rows, first, last, j);
    if j > first {
        lemma_rows_follow(ws, rows, first, last, j - 1);
    } else {
        assert(rows_used(ws, rows, first, first - 1) == 0);
    }
}

/// Every child is given a rectangle inside the area: it is as wide as a column,
/// its right edge is not past the right edge of its column, which is not past
/// that of the area, and its bottom edge is not past the bottom of the area.
pub proof fn lemma_child_in_area(ws: Seq<nat>, area: Rect, i: int)
    requires
        area.fits(),
        0 <= i < ws.len(),
    ensures
        child_rect(ws, area, i).x == area.x + column_of(ws, area.height as nat, i) * column_width(
            ws,
            area,
        ),
        child_rect(ws, area, i).y == area.y + row_offset(ws, area.height as nat, i),
        child_rect(ws, area, i).width == column_width(ws, area),
        child_rect(ws, area, i).height == row_height(ws, area.height as nat, i),
        child_rect(ws, area, i).right() == area.x + (column_of(ws, area.height as nat, i) + 1)
            * column_width(ws, area),
        child_rect(ws, area, i).right() <= area.right(),
        child_rect(ws, area, i).bottom() <= area.bottom(),
        child_rect(ws, area, i).within(area),
        child_rect(ws, area, i).fits(),
{
    let rows = area.height as nat;
    lemma_columns_in_width(ws, area, i);
    lemma_rows_in_area(ws, rows, i);
    let c = column_of(ws, rows, i) as int;
    let each = column_width(ws, area) as int;
    assert(0 <= c * each) by (nonlinear_arith)
        requires
            c >= 0,
            each >= 0,
    ;
    assert(c * each <= (c + 1) * each) by (nonlinear_arith)
        requires
            each >= 0,
    ;
}

/// In a column that weighs no more than the area has rows, the rows given to
/// its members add up to the rows of the area, less what the equal shares leave
/// over: fewer rows than the column has members.
pub proof fn lemma_light_column_fills(ws: Seq<nat>, rows: nat, i: int)
    requires
        0 <= i < ws.len(),
        column_total(ws, rows, i) <= rows,
    ensures
        rows_used(ws, rows, column_first(ws, rows, i), column_last(ws, rows, i)) == rows - ((rows
            - column_total(ws, rows, i)) % column_len(ws, rows, i)),
        rows - (column_len(ws, rows, i) - 1) <= rows_used(
            ws,
            rows,
            column_first(ws, rows, i),
            column_last(ws, rows, i),
        ) <= rows,
{
    let first = column_first(ws, rows, i);
    let last = column_last(ws, rows, i);
    lemma_column_span(ws, rows, i);
    lemma_member(ws, rows, first, last, i);
    lemma_member(ws, rows, first, last, last);
    lemma_rows_follow(ws, rows, first, last, last);
    lemma_fill_rows(ws, rows, first, last, last);
    lemma_spare_rows(rows, load(ws, rows, last), last - first + 1);
}

/// In a column that weighs more than the area has rows, and the area has a row
/// at least, every member is given a row or more, and the last member ends at or
/// above the bottom of the area. Such a column has one member, which is given
/// all the rows.
pub proof fn lemma_heavy_column_rows(ws: Seq<nat>, rows: nat, i: int)
    requires
        0 <= i < ws.len(),
        column_total(ws, rows, i) > rows,
        rows >= 1,
    ensures
        row_height(ws, rows, i) >= 1,
        row_offset(ws, rows, column_last(ws, rows, i)) + row_height(
            ws,
            rows,
            column_last(ws, rows, i),
        ) <= rows,
        column_len(ws, rows, i) == 1,
        row_height(ws, rows, i) == rows,
{
    let first = column_first(ws, rows, i);
    let last = column_last(ws, rows, i);
    lemma_column_span(ws, rows, i);
    lemma_member(ws, rows, first, last, i);
    lemma_heavy_rows(ws, rows, first, last);
}

/// Within a column a later member starts at or below the end of an earlier one.
pub proof fn lemma_rows_ordered(ws: Seq<nat>, rows: nat, first: int, last: int, i: int, j: int)
    requires
        spans_column(ws, rows, first, last),
        first <= i < j <= last,
    ensures
        row_offset(ws, rows, i) + row_height(ws, rows, i) <= row_offset(ws, rows, j),
    decreases j - i,
{
    lemma_member(ws, rows, first, last, j);
    if i + 1 < j {
        lemma_rows_ordered(ws, rows, first, last, i, j - 1);
    }
}

/// A child past the last member of a column lies in a later column.
pub proof fn lemma_later_column(ws: Seq<nat>, rows: nat, first: int, last: int, j: int)
    requires
        spans_column(ws, rows, first, last),
        last < j < ws.len(),
    ensures
        column_of(ws, rows, last) < column_of(ws, rows, j),
{
    reveal(spans_column);
    lemma_column_of_monotone(ws, rows, last + 1, j);
}

/// No two children share a cell.
pub proof fn lemma_children_disjoint(ws: Seq<nat>, area: Rect, i: int, j: int)
    requires
        area.fits(),
        0 <= i < j < ws.len(),
    ensures
        child_rect(ws, area, i).disjoint(child_rect(ws, area, j)),
        child_rect(ws, area, j).disjoint(child_rect(ws, area, i)),
{
    let rows = area.height as nat;
    let first = column_first(ws, rows, i);
    let last = column_last(ws, rows, i);
    lemma_column_span(ws, rows, i);
    lemma_member(ws, rows, first, last, i);
    lemma_child_in_area(ws, area, i);
    lemma_child_in_area(ws, area, j);
    if j <= last {
        lemma_rows_ordered(ws, rows, first, last, i, j);
    } else {
        lemma_later_column(ws, rows, first, last, j);
        lemma_member(ws, rows, first, last, last);
        let ci = column_of(ws, rows, i) as int;
        let cj = column_of(ws, rows, j) as int;
        let each = column_width(ws, area) as int;
        assert((ci + 1) * each <= cj * each) by (nonlinear_arith)
            requires
                ci + 1 <= cj,
                each >= 0,
        ;
    }
}

} // verus!
