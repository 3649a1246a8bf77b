//! Weighted column packing: an ordered list of weights is cut into columns that
//! are as tall as the area allows, and each column's rows are shared among its
//! members.

use vstd::prelude::*;
use crate::geometry::Rect;
use crate::packing_lemmas::{
    lemma_column_in_count, lemma_column_span, lemma_columns_in_width, lemma_fill_rows,
    lemma_member, lemma_member_first, lemma_next_offset, lemma_rows_in_area,
};

verus! {

/// The largest weight the packer takes: one more than any count a `u64` holds.
pub const MAX_WEIGHT: u128 = 0x1_0000_0000_0000_0000;

/// The weight gathered in the column of child `i` once that child has joined it.
/// A child joins the column of its predecessor unless that would carry the column
/// past `rows`; the first child of a column is taken whatever it weighs.
pub open spec fn load(ws: Seq<nat>, rows: nat, i: int) -> nat
    decreases i,
{
    if i <= 0 {
        ws[0]
    } else {
        let before = load(ws, rows, i - 1);
        if before + ws[i] > rows {
            ws[i]
        } else {
            before + ws[i]
        }
    }
}

/// Child `i` is the first of its column.
pub open spec fn opens_column(ws: Seq<nat>, rows: nat, i: int) -> bool {
    i <= 0 || load(ws, rows, i - 1) + ws[i] > rows
}

/// The number of the column that holds child `i`, counted from zero.
pub open spec fn column_of(ws: Seq<nat>, rows: nat, i: int) -> nat
    decreases i,
{
    if i <= 0 {
        0
    } else if opens_column(ws, rows, i) {
        column_of(ws, rows, i - 1) + 1
    } else {
        column_of(ws, rows, i - 1)
    }
}

/// How many columns the children take.
pub open spec fn column_count(ws: Seq<nat>, rows: nat) -> nat {
    if ws.len() == 0 {
        0
    } else {
        column_of(ws, rows, ws.len() - 1) + 1
    }
}

/// The first child of the column that holds child `i`.
pub open spec fn column_first(ws: Seq<nat>, rows: nat, i: int) -> int
    decreases i,
{
    if opens_column(ws, rows, i) {
        i
    } else {
        column_first(ws, rows, i - 1)
    }
}

/// The last child of the column that holds child `i`.
pub open spec fn column_last(ws: Seq<nat>, rows: nat, i: int) -> int
    decreases ws.len() - i,
{
    if i + 1 >= ws.len() || opens_column(ws, rows, i + 1) {
        i
    } else {
        column_last(ws, rows, i + 1)
    }
}

/// The summed weight of the column that holds child `i`.
pub open spec fn column_total(ws: Seq<nat>, rows: nat, i: int) -> nat {
    load(ws, rows, column_last(ws, rows, i))
}

/// How many children the column that holds child `i` has.
pub open spec fn column_len(ws: Seq<nat>, rows: nat, i: int) -> int {
    column_last(ws, rows, i) - column_first(ws, rows, i) + 1
}

/// The rows that every member of a column is given on top of its weight, where
/// the column weighs `total` and has `len` members: an equal share of the rows
/// the weights leave free, rounded down.
pub open spec fn spare_rows(rows: nat, total: nat, len: int) -> nat {
    if total <= rows && len > 0 {
        ((rows - total) / len) as nat
    } else {
        0
    }
}

/// The rows that a member of weight `w` asks for in a column too heavy for the
/// area: its share `w * rows / total`, rounded down, and one row at least.
pub open spec fn scaled_rows(w: nat, rows: nat, total: nat) -> nat {
    let share = (w * rows) / total;
    if share < 1 {
        1
    } else {
        share as nat
    }
}

/// The rows between the top of the area and the top of child `i`.
pub open spec fn row_offset(ws: Seq<nat>, rows: nat, i: int) -> nat
    decreases i, 0nat,
{
    if opens_column(ws, rows, i) {
        0
    } else {
        row_offset(ws, rows, i - 1) + row_height(ws, rows, i - 1)
    }
}

/// The rows given to child `i`. In a column that the area can hold, its weight
/// and the spare rows; in a heavier one, its scaled share, cut off at the bottom
/// of the area.
pub open spec fn row_height(ws: Seq<nat>, rows: nat, i: int) -> nat
    decreases i, 1nat,
{
    let total = column_total(ws, rows, i);
    if total <= rows {
        ws[i] + spare_rows(rows, total, column_len(ws, rows, i))
    } else {
        let wanted = scaled_rows(ws[i], rows, total);
        let at = row_offset(ws, rows, i);
        let room = if at <= rows { (rows - at) as nat } else { 0 };
        if wanted > room {
            room
        } else {
            wanted
        }
    }
}

/// The width of every column: the area's width shared equally, rounded down.
pub open spec fn column_width(ws: Seq<nat>, area: Rect) -> nat {
    let count = column_count(ws, area.height as nat);
    if count == 0 {
        0
    } else {
        (area.width as int / count as int) as nat
    }
}

/// The rectangle of child `i` in `area`.
pub open spec fn child_rect(ws: Seq<nat>, area: Rect, i: int) -> Rect {
    let rows = area.height as nat;
    Rect {
        x: (area.x + column_of(ws, rows, i) * column_width(ws, area)) as u16,
        y: (area.y + row_offset(ws, rows, i)) as u16,
        width: column_width(ws, area) as u16,
        height: row_height(ws, rows, i) as u16,
    }
}

/// The rectangles of all children, in their order.
pub open spec fn packed(ws: Seq<nat>, area: Rect) -> Seq<Rect> {
    Seq::new(ws.len(), |i: int| child_rect(ws, area, i))
}

/// Children `first` to `last` are one whole column.
#[verifier::opaque]
pub open spec fn spans_column(ws: Seq<nat>, rows: nat, first: int, last: int) -> bool {
    &&& 0 <= first <= last < ws.len()
    &&& opens_column(ws, rows, first)
    &&& forall|k: int| first < k <= last ==> !#[trigger] opens_column(ws, rows, k)
    &&& (last + 1 == ws.len() || opens_column(ws, rows, last + 1))
}

/// The weights as the numbers they stand for.
pub open spec fn as_weights(weights: Seq<u128>) -> Seq<nat> {
    Seq::new(weights.len(), |i: int| weights[i] as nat)
}

/// One column of children: its first and last member and their summed weight.
struct Column {
    first: usize,
    last: usize,
    total: u128,
}

/// Column `c` of `columns` is column `c` of `ws`, whole, and starts where its
/// predecessor ends.
spec fn column_matches(columns: Seq<Column>, ws: Seq<nat>, rows: nat, c: int) -> bool {
    &&& spans_column(ws, rows, columns[c].first as int, columns[c].last as int)
    &&& columns[c].total == load(ws, rows, columns[c].last as int)
    &&& column_of(ws, rows, columns[c].first as int) == c
    &&& c == 0 ==> columns[c].first == 0
    &&& c > 0 ==> columns[c].first == columns[c - 1].last + 1
}

/// `columns` are the columns of `ws`, each whole, in order and without a gap.
#[verifier::opaque]
spec fn columns_cover(columns: Seq<Column>, ws: Seq<nat>, rows: nat) -> bool {
    &&& columns.len() == column_count(ws, rows)
    &&& columns.len() > 0
    &&& forall|c: int| 0 <= c < columns.len() ==> #[trigger] column_matches(columns, ws, rows, c)
    &&& columns.last().last + 1 == ws.len()
}

/// What a cover says of its column `c`.
proof fn lemma_cover_at(columns: Seq<Column>, ws: Seq<nat>, rows: nat, c: int)
    requires
        columns_cover(columns, ws, rows),
        0 <= c < columns.len(),
    ensures
        columns.len() == column_count(ws, rows),
        spans_column(ws, rows, columns[c].first as int, columns[c].last as int),
        columns[c].first <= columns[c].last < ws.len(),
        columns[c].total == load(ws, rows, columns[c].last as int),
        column_of(ws, rows, columns[c].first as int) == c,
        columns[c].last + 1 == if c + 1 < columns.len() {
            columns[c + 1].first as int
        } else {
            ws.len() as int
        },
        c == 0 ==> columns[c].first == 0,
{
    reveal(columns_cover);
    reveal(spans_column);
    assert(column_matches(columns, ws, rows, c));
    if c + 1 < columns.len() {
        assert(column_matches(columns, ws, rows, c + 1));
    }
}

/// The columns found so far stay what they were when one more is added.
proof fn lemma_column_added(before: Seq<Column>, after: Seq<Column>, ws: Seq<nat>, rows: nat)
    requires
        after.len() == before.len() + 1,
        forall|c: int| 0 <= c < before.len() ==> after[c] == before[c],
        forall|c: int| 0 <= c < before.len() ==> #[trigger] column_matches(before, ws, rows, c),
        column_matches(after, ws, rows, before.len() as int),
    ensures
        forall|c: int| 0 <= c < after.len() ==> #[trigger] column_matches(after, ws, rows, c),
{
    assert forall|c: int| 0 <= c < after.len() implies #[trigger] column_matches(
        after,
        ws,
        rows,
        c,
    ) by {
        if c < before.len() {
            assert(column_matches(before, ws, rows, c));
        }
    }
}

/// Cuts the children into columns: a child opens a new column where it would
/// carry the current one past `rows`.
fn find_columns(weights: &[u128], rows: u16) -> (columns: Vec<Column>)
    requires
        weights@.len() > 0,
        forall|i: int| 0 <= i < weights@.len() ==> weights@[i] <= MAX_WEIGHT,
    ensures
        columns@.len() > 0,
        columns_cover(columns@, as_weights(weights@), rows as nat),
{
    let ghost ws = as_weights(weights@);
    let ghost h = rows as nat;
    let n = weights.len();
    let mut columns: Vec<Column> = Vec::new();
    let mut start: usize = 0;
    let mut sum: u128 = weights[0];
    let mut i: usize = 1;
    while i < n
        invariant
            ws == as_weights(weights@),
            h == rows as nat,
            n == weights@.len(),
            forall|k: int| 0 <= k < weights@.len() ==> weights@[k] <= MAX_WEIGHT,
            1 <= i <= n,
            start == column_first(ws, h, i - 1),
            start < i,
            sum == load(ws, h, i - 1),
            sum <= MAX_WEIGHT,
            columns@.len() == column_of(ws, h, i - 1),
            forall|c: int| 0 <= c < columns@.len() ==> #[trigger] column_matches(columns@, ws, h, c),
            start == if columns@.len() == 0 {
                0
            } else {
                columns@.last().last + 1
            },
        decreases n - i,
    {
        let weight = weights[i];
        assert(weight == ws[i as int]);
        if sum + weight > rows as u128 {
            let ghost before = columns@;
            proof {
                lemma_column_span(ws, h, i - 1);
                lemma_member_first(ws, h, start as int, i - 1, i - 1);
            }
            columns.push(Column { first: start, last: i - 1, total: sum });
            proof {
                lemma_column_added(before, columns@, ws, h);
            }
            start = i;
            sum = weight;
        } else {
            sum = sum + weight;
        }
        i += 1;
    }
    let ghost before = columns@;
    proof {
        lemma_column_span(ws, h, n - 1);
        lemma_member_first(ws, h, start as int, n - 1, n - 1);
    }
    columns.push(Column { first: start, last: n - 1, total: sum });
    proof {
        lemma_column_added(before, columns@, ws, h);
        reveal(columns_cover);
    }
    columns
}

/// The rows that a member of weight `weight` asks for in a column of weight
/// `total` that is too heavy for an area of `rows` rows.
pub fn scaled_height(weight: u128, rows: u16, total: u128) -> (height: u16)
    requires
        0 < total,
        weight <= total,
        weight <= MAX_WEIGHT,
    ensures
        height == scaled_rows(weight as nat, rows as nat, total as nat),
        rows >= 1 ==> 1 <= height <= rows,
{
    assert(weight * rows <= MAX_WEIGHT * 0xffff) by (nonlinear_arith)
        requires
            weight <= MAX_WEIGHT,
            rows <= 0xffff,
    ;
    assert((weight * rows) / (total as int) <= rows) by (nonlinear_arith)
        requires
            0 < total,
            0 <= weight <= total,
            rows >= 0,
    ;
    let share = weight * (rows as u128) / total;
    if share < 1 {
        1
    } else {
        share as u16
    }
}

/// Gives every child its rectangle in `area`. The children are cut into columns
/// of equal width, left to right; within a column they follow each other from the
/// top.
pub fn pack_columns(weights: &[u128], area: Rect) -> (rects: Vec<Rect>)
    requires
        area.fits(),
        forall|i: int| 0 <= i < weights@.len() ==> weights@[i] <= MAX_WEIGHT,
    ensures
        rects@ == packed(as_weights(weights@), area),
{
    let ghost ws = as_weights(weights@);
    let ghost h = area.height as nat;
    let n = weights.len();
    let mut rects: Vec<Rect> = Vec::new();
    if n == 0 {
        return rects;
    }
    let columns = find_columns(weights, area.height);
    let count = columns.len();
    proof {
        lemma_cover_at(columns@, ws, h, 0);
        lemma_column_in_count(ws, h, 0);
    }
    let each: u16 = if count > area.width as usize {
        0
    } else {
        area.width / (count as u16)
    };
    assert(each == column_width(ws, area)) by (nonlinear_arith)
        requires
            count == column_count(ws, area.height as nat),
            count > 0,
            each == if count > area.width {
                0
            } else {
                area.width as int / count as int
            },
    ;
    let bottom: u16 = area.y + area.height;
    let mut x: u16 = area.x;
    let mut c: usize = 0;
    while c < count
        invariant
            ws == as_weights(weights@),
            h == area.height as nat,
            n == weights@.len(),
            n > 0,
            area.fits(),
            forall|k: int| 0 <= k < weights@.len() ==> weights@[k] <= MAX_WEIGHT,
            columns_cover(columns@, ws, h),
            count == columns@.len(),
            each == column_width(ws, area),
            bottom == area.y + area.height,
            c <= count,
            x == area.x + c * each,
            rects@.len() == if c < count {
                columns@[c as int].first as int
            } else {
                n as int
            },
            forall|j: int| 0 <= j < rects@.len() ==> #[trigger] rects@[j] == child_rect(ws, area, j),
        decreases count - c,
    {
        let first = columns[c].first;
        let last = columns[c].last;
        let total = columns[c].total;
        proof {
            lemma_cover_at(columns@, ws, h, c as int);
            lemma_member(ws, h, first as int, last as int, first as int);
            lemma_columns_in_width(ws, area, first as int);
        }
        let members = last - first + 1;
        let heavy = total > area.height as u128;
        let spare: u128 = if heavy {
            0
        } else {
            (area.height as u128 - total) / (members as u128)
        };
        let mut y: u16 = area.y;
        let mut j: usize = first;
        while j <= last
            invariant
                ws == as_weights(weights@),
                h == area.height as nat,
                n == weights@.len(),
                area.fits(),
                forall|k: int| 0 <= k < weights@.len() ==> weights@[k] <= MAX_WEIGHT,
                spans_column(ws, h, first as int, last as int),
                total == load(ws, h, last as int),
                column_of(ws, h, first as int) == c,
                members == last - first + 1,
                heavy == (total > area.height),
                !heavy ==> spare == spare_rows(h, total as nat, members as int),
                each == column_width(ws, area),
                bottom == area.y + area.height,
                x == area.x + c * each,
                x + each <= area.x + area.width,
                first <= j <= last + 1,
                last < n,
                j <= last ==> y == area.y + row_offset(ws, h, j as int),
                y <= bottom,
                rects@.len() == j,
                forall|k: int| 0 <= k < rects@.len() ==> #[trigger] rects@[k] == child_rect(ws, area, k),
            decreases last + 1 - j,
        {
            let weight = weights[j];
            assert(weight == ws[j as int]);
            proof {
                lemma_member(ws, h, first as int, last as int, j as int);
                lemma_rows_in_area(ws, h, j as int);
                if !heavy {
                    lemma_fill_rows(ws, h, first as int, last as int, j as int);
                }
                if j < last {
                    lemma_member(ws, h, first as int, last as int, j + 1);
                    lemma_next_offset(ws, h, j + 1);
                }
            }
            let height: u16 = if heavy {
                let wanted = scaled_height(weight, area.height, total);
                let room = bottom - y;
                if wanted > room {
                    room
                } else {
                    wanted
                }
            } else {
                (weight + spare) as u16
            };
            assert(height == row_height(ws, h, j as int));
            let rect = Rect { x, y, width: each, height };
            assert(rect == child_rect(ws, area, j as int));
            rects.push(rect);
            y = y + height;
            j += 1;
        }
        proof {
            assert((c + 1) * each == c * each + each) by (nonlinear_arith);
        }
        x = x + each;
        c += 1;
    }
    rects
}

} // verus!
