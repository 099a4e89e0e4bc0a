//! The counting side of the sheet layout: which grid wins, how many sheets a
//! count needs, and how a partial sheet is spread over its rows.
//!
//! Millimetre positions are derived from these numbers by the caller; the
//! decisions themselves are all integers and are pinned down here.

use vstd::prelude::*;

verus! {

/// Which way a photo is rotated on the sheet.
#[derive(Debug, Clone, Copy, PartialEq, Eq, Structural)]
pub enum Orientation {
    /// Photo placed as authored.
    Portrait,
    /// Photo rotated 90 degrees.
    Landscape,
}

/// How leftover space is distributed when the sheet is not full.
#[derive(Debug, Clone, Copy, PartialEq, Eq, Structural)]
pub enum Alignment {
    /// Centre the block of photos on the sheet.
    Center,
    /// Push the block into the top-left corner, leaving reusable paper.
    TopLeft,
}

#[derive(Debug, Clone, PartialEq, Eq, Structural)]
pub enum LayoutError {
    /// A single photo does not fit the usable area in either orientation.
    PhotoTooLarge,
    /// Config contained a non-finite or non-positive value.
    InvalidDimensions,
    /// Margins consume the whole sheet.
    NoUsableArea,
}

/// Columns and rows of photos that fit one sheet in one orientation.
#[derive(Debug, Clone, Copy, PartialEq, Eq, Structural)]
pub struct Grid {
    pub cols: u32,
    pub rows: u32,
}

/// The integer outcome of laying out `count` copies.
#[derive(Debug, Clone, Copy, PartialEq, Eq, Structural)]
pub struct SheetPlan {
    /// The grid that won.
    pub grid: Grid,
    pub orientation: Orientation,
    /// How many photos fit on one sheet in the chosen orientation.
    pub capacity_per_sheet: u32,
    /// How many copies go on the first sheet.
    pub on_first_sheet: u32,
    /// Sheets needed for the requested count.
    pub sheets_needed: u32,
}

impl Grid {
    pub open spec fn spec_capacity(self) -> int {
        self.cols * self.rows
    }

    /// Photos one sheet holds.
    pub fn capacity(&self) -> (c: u32)
        requires
            self.spec_capacity() <= u32::MAX,
        ensures
            c == self.spec_capacity(),
    {
        self.cols * self.rows
    }
}

/// `a / b` rounded up.
pub open spec fn ceil_div(a: int, b: int) -> int {
    (a + b - 1) / b
}

/// The grid the solver keeps: landscape only when it holds strictly more and
/// the orientation is not locked, so ties stay portrait.
pub open spec fn chosen_orientation(portrait: Grid, landscape: Grid, lock: bool) -> Orientation {
    if !lock && landscape.spec_capacity() > portrait.spec_capacity() {
        Orientation::Landscape
    } else {
        Orientation::Portrait
    }
}

/// Decide the sheet for `count` copies from the two candidate grids.
///
/// Tries both orientations and keeps the one with the greater capacity,
/// unless the caller locked the orientation. When a single sheet cannot hold
/// `count`, the plan still succeeds and reports `sheets_needed`, so the caller
/// can decide what to do instead of printing silently truncated output.
pub fn plan_sheet(count: u32, portrait: Grid, landscape: Grid, lock_orientation: bool) -> (r: Result<
    SheetPlan,
    LayoutError,
>)
    requires
        portrait.spec_capacity() <= u32::MAX,
        landscape.spec_capacity() <= u32::MAX,
    ensures
        ({
            let o = chosen_orientation(portrait, landscape, lock_orientation);
            let g = if o == Orientation::Landscape {
                landscape
            } else {
                portrait
            };
            &&& r is Err <==> g.spec_capacity() == 0
            &&& r is Err ==> r == Err::<SheetPlan, LayoutError>(LayoutError::PhotoTooLarge)
            &&& r matches Ok(plan) ==> {
                &&& plan.grid == g
                &&& plan.orientation == o
                &&& plan.capacity_per_sheet == g.spec_capacity()
                &&& plan.on_first_sheet == if count < g.spec_capacity() {
                    count as int
                } else {
                    g.spec_capacity()
                }
                &&& plan.sheets_needed == ceil_div(count as int, g.spec_capacity())
            }
        }),
{
    let p_cap = portrait.capacity();
    let l_cap = landscape.capacity();
    let (grid, orientation, capacity) = if !lock_orientation && l_cap > p_cap {
        (landscape, Orientation::Landscape, l_cap)
    } else {
        (portrait, Orientation::Portrait, p_cap)
    };
    if capacity == 0 {
        return Err(LayoutError::PhotoTooLarge);
    }
    let on_first_sheet = if count < capacity { count } else { capacity };
    let q = count / capacity;
    proof {
        assert(count % capacity != 0 ==> q < count) by (nonlinear_arith)
            requires
                capacity >= 1,
                q == count / capacity,
                0 <= count,
        ;
    }
    let sheets_needed = if count % capacity == 0 { q } else { q + 1 };
    proof {
        let c = count as int;
        let k = capacity as int;
        assert(c == k * (c / k) + c % k) by (nonlinear_arith)
            requires
                k > 0,
        ;
        assert(ceil_div(c, k) == c / k + if c % k == 0 {
            0int
        } else {
            1int
        }) by (nonlinear_arith)
            requires
                k > 0,
                c >= 0,
                c == k * (c / k) + c % k,
                0 <= c % k < k,
        ;
    }
    Ok(SheetPlan { grid, orientation, capacity_per_sheet: capacity, on_first_sheet, sheets_needed })
}

/// Photos in row `r` when `n` photos are spread over the rows of a grid
/// `cols` wide: the rows the naive layout would use, the first `n % rows` of
/// them taking one extra.
pub open spec fn row_count(n: int, cols: int, r: int) -> int {
    let rows = ceil_div(n, cols);
    n / rows + if r < n % rows {
        1int
    } else {
        0int
    }
}

/// Total photos in rows `0..k`.
pub open spec fn rows_total(counts: Seq<u32>, k: int) -> int
    decreases k,
{
    if k <= 0 {
        0
    } else {
        rows_total(counts, k - 1) + counts[k - 1]
    }
}

proof fn lemma_rows_bound(n: int, cols: int)
    requires
        n >= 1,
        cols >= 1,
    ensures
        1 <= ceil_div(n, cols) <= n,
        n <= ceil_div(n, cols) * cols,
        (ceil_div(n, cols) - 1) * cols < n,
{
    let rows = ceil_div(n, cols);
    assert(rows * cols >= n && (rows - 1) * cols < n && 1 <= rows <= n) by (nonlinear_arith)
        requires
            rows == (n + cols - 1) / cols,
            n >= 1,
            cols >= 1,
    ;
}

/// Lay `n` photos out in balanced rows within a grid `cols` wide.
///
/// Filling each row to the grid's width leaves a ragged last row: six photos
/// in a four-column grid come out 4 + 2. Spreading the same six over the same
/// number of rows gives 3 + 3. Returns the number of photos in each row, top
/// to bottom; empty when there is nothing to place.
pub fn row_split(n: u32, cols: u32) -> (counts: Vec<u32>)
    ensures
        (n == 0 || cols == 0) ==> counts.len() == 0,
        (n > 0 && cols > 0) ==> {
            &&& counts.len() == ceil_div(n as int, cols as int)
            &&& forall|r: int|
                0 <= r < counts.len() ==> #[trigger] counts@[r] == row_count(
                    n as int,
                    cols as int,
                    r,
                )
        },
{
    if n == 0 || cols == 0 {
        return Vec::new();
    }
    proof {
        lemma_rows_bound(n as int, cols as int);
    }
    let q = n / cols;
    proof {
        assert(n % cols != 0 ==> q < n) by (nonlinear_arith)
            requires
                cols >= 1,
                q == n / cols,
                0 <= n,
        ;
    }
    let rows = if n % cols == 0 { q } else { q + 1 };
    proof {
        let a = n as int;
        let b = cols as int;
        assert(a == b * (a / b) + a % b) by (nonlinear_arith)
            requires
                b > 0,
        ;
        assert(ceil_div(a, b) == a / b + if a % b == 0 {
            0int
        } else {
            1int
        }) by (nonlinear_arith)
            requires
                b > 0,
                a >= 0,
                a == b * (a / b) + a % b,
                0 <= a % b < b,
        ;
    }
    let base = n / rows;
    let remainder = n % rows;
    proof {
        assert(remainder > 0 ==> base < n) by (nonlinear_arith)
            requires
                rows >= 1,
                base == n / rows,
                remainder == n % rows,
                n >= 1,
        ;
    }
    let mut counts: Vec<u32> = Vec::with_capacity(rows as usize);
    let mut r: u32 = 0;
    while r < rows
        invariant
            r <= rows,
            rows == ceil_div(n as int, cols as int),
            1 <= rows <= n,
            base == n / rows,
            remainder == n % rows,
            base <= n,
            remainder > 0 ==> base < n,
            counts.len() == r,
            forall|j: int|
                0 <= j < r ==> #[trigger] counts@[j] == row_count(n as int, cols as int, j),
        decreases rows - r,
    {
        let in_row = base + if r < remainder { 1 } else { 0 };
        counts.push(in_row);
        r += 1;
    }
    counts
}

/// Spreading never loses or invents a photo, never overfills a row, leaves
/// no row empty, and keeps the rows within one photo of each other, the
/// fuller ones first.
pub proof fn law_row_split_is_balanced(n: int, cols: int)
    requires
        1 <= n <= u32::MAX,
        1 <= cols <= u32::MAX,
    ensures
        ({
            let rows = ceil_div(n, cols);
            let counts = Seq::new(rows as nat, |r: int| row_count(n, cols, r) as u32);
            &&& rows_total(counts, rows) == n
            &&& forall|r: int| 0 <= r < rows ==> 1 <= #[trigger] row_count(n, cols, r) <= cols
            &&& forall|r: int, s: int|
                0 <= r <= s < rows ==> #[trigger] row_count(n, cols, s) <= #[trigger] row_count(n, cols, r)
                    <= row_count(n, cols, s) + 1
        }),
{
    lemma_rows_bound(n, cols);
    let rows = ceil_div(n, cols);
    let base = n / rows;
    let rem = n % rows;
    assert(n == rows * base + rem) by (nonlinear_arith)
        requires
            rows >= 1,
            base == n / rows,
            rem == n % rows,
    ;
    assert(1 <= base <= cols) by (nonlinear_arith)
        requires
            1 <= rows <= n,
            n <= rows * cols,
            base == n / rows,
            n == rows * base + (n % rows),
            0 <= n % rows < rows,
    ;
    assert(rem > 0 ==> base + 1 <= cols) by (nonlinear_arith)
        requires
            1 <= rows,
            n <= rows * cols,
            n == rows * base + rem,
            0 <= rem < rows,
    ;
    let counts = Seq::new(rows as nat, |r: int| row_count(n, cols, r) as u32);
    assert forall|k: int| 0 <= k <= rows implies #[trigger] rows_total(counts, k) == k * base + (
    if k < rem {
        k
    } else {
        rem
    }) by {
        lemma_rows_total_prefix(counts, k, base, rem, rows);
    }
    assert(rows * base + rem == n);
}

proof fn lemma_rows_total_prefix(counts: Seq<u32>, k: int, base: int, rem: int, rows: int)
    requires
        0 <= k <= rows,
        counts.len() == rows,
        0 <= rem < rows,
        forall|r: int|
            0 <= r < rows ==> #[trigger] counts[r] == base + if r < rem {
                1int
            } else {
                0int
            },
    ensures
        rows_total(counts, k) == k * base + (if k < rem {
            k
        } else {
            rem
        }),
    decreases k,
{
    if k > 0 {
        lemma_rows_total_prefix(counts, k - 1, base, rem, rows);
        assert(k * base == (k - 1) * base + base) by (nonlinear_arith);
        assert(rows_total(counts, k) == rows_total(counts, k - 1) + counts[k - 1]);
        assert(counts[k - 1] == base + if k - 1 < rem {
            1int
        } else {
            0int
        });
    } else {
        assert(rows_total(counts, 0) == 0);
        assert(0 * base == 0);
    }
}


/// The grid a choice of orientation keeps.
pub open spec fn chosen_grid(portrait: Grid, landscape: Grid, lock: bool) -> Grid {
    if chosen_orientation(portrait, landscape, lock) == Orientation::Landscape {
        landscape
    } else {
        portrait
    }
}

/// Free to choose, the solver never picks the worse orientation: the grid it
/// keeps holds as many photos as the better of the two.
pub proof fn law_free_choice_takes_the_larger_grid(portrait: Grid, landscape: Grid)
    ensures
        chosen_grid(portrait, landscape, false).spec_capacity() >= portrait.spec_capacity(),
        chosen_grid(portrait, landscape, false).spec_capacity() >= landscape.spec_capacity(),
{
}

/// A locked layout prints exactly the shape it was given and never rotates.
pub proof fn law_locked_layout_keeps_its_shape(portrait: Grid, landscape: Grid)
    ensures
        chosen_orientation(portrait, landscape, true) == Orientation::Portrait,
        chosen_grid(portrait, landscape, true) == portrait,
{
}

/// The sheets reported are the fewest that hold every copy: that many
/// sheets hold them all, one fewer would not.
pub proof fn law_sheets_needed_is_the_fewest(count: int, capacity: int)
    requires
        count >= 0,
        capacity >= 1,
    ensures
        ceil_div(count, capacity) * capacity >= count,
        count > 0 ==> (ceil_div(count, capacity) - 1) * capacity < count,
        ceil_div(count, capacity) >= 0,
{
    let q = ceil_div(count, capacity);
    assert((count + capacity - 1) == capacity * q + (count + capacity - 1) % capacity) by (
    nonlinear_arith)
        requires
            capacity >= 1,
            q == (count + capacity - 1) / capacity,
    ;
    assert(0 <= (count + capacity - 1) % capacity < capacity) by (nonlinear_arith)
        requires
            capacity >= 1,
    ;
    assert(q * capacity >= count) by (nonlinear_arith)
        requires
            count + capacity - 1 == capacity * q + (count + capacity - 1) % capacity,
            (count + capacity - 1) % capacity < capacity,
    ;
    assert(count > 0 ==> (q - 1) * capacity < count) by (nonlinear_arith)
        requires
            count + capacity - 1 == capacity * q + (count + capacity - 1) % capacity,
            0 <= (count + capacity - 1) % capacity,
    ;
    assert(q >= 0) by (nonlinear_arith)
        requires
            count >= 0,
            capacity >= 1,
            q == (count + capacity - 1) / capacity,
    ;
}

} // verus!
