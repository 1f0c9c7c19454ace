use vstd::prelude::*;

use crate::tile::{TILE_BLOCKS, TILE_CELLS, TILE_LAYER};

verus! {

/// Largest fluid level a cell can hold, as the kernel's buffers store it.
pub const MAX_LEVEL: u32 = 12;

/// Whether tile cell `i` is open to fluid.
pub open spec fn is_open(s: Seq<u32>, i: int) -> bool {
    0 <= i < TILE_CELLS && s[i] == 0
}

/// Every level is at most a full cell and every closed cell is empty.
pub open spec fn levels_ok(v: Seq<u32>, s: Seq<u32>) -> bool {
    &&& v.len() == TILE_CELLS
    &&& s.len() == TILE_CELLS
    &&& forall|i: int| 0 <= i < TILE_CELLS ==> #[trigger] v[i] <= MAX_LEVEL
    &&& forall|i: int| 0 <= i < TILE_CELLS && s[i] != 0 ==> #[trigger] v[i] == 0
}

/// The lowest cell of the open run of its column that open cell `i` belongs to.
pub open spec fn run_bottom(s: Seq<u32>, i: int) -> int
    decreases i,
{
    if i < TILE_LAYER || !is_open(s, i - TILE_LAYER) {
        i
    } else {
        run_bottom(s, i - TILE_LAYER)
    }
}

/// The highest cell of the open run of its column that open cell `i` belongs to.
pub open spec fn run_top(s: Seq<u32>, i: int) -> int
    decreases TILE_CELLS - i,
{
    if i + TILE_LAYER >= TILE_CELLS || !is_open(s, i + TILE_LAYER) {
        i
    } else {
        run_top(s, i + TILE_LAYER)
    }
}

/// What is left of a run's fluid for a cell, kept within `0..=MAX_LEVEL`.
pub open spec fn fill_level(x: int) -> u32 {
    if x <= 0 {
        0
    } else if x >= MAX_LEVEL {
        MAX_LEVEL
    } else {
        x as u32
    }
}

/// All the fluid of the open run that cell `i` belongs to.
pub open spec fn run_total(v: Seq<u32>, s: Seq<u32>, i: int) -> int {
    column_sum(v, run_bottom(s, i), (run_top(s, i) - run_bottom(s, i)) / 6400 + 1)
}

/// Signed flow from a cell at level `a` to a neighbour at level `b`: a quarter of the
/// difference, rounded toward zero, always from the higher to the lower.
pub open spec fn spread(a: int, b: int) -> int {
    if a >= b {
        (a - b) / 4
    } else {
        -((b - a) / 4)
    }
}

/// Flow from cell `i` to its neighbour in the next column along x (0 at the tile's edge or
/// where either cell is closed).
pub open spec fn x_flux(v: Seq<u32>, s: Seq<u32>, i: int) -> int {
    if 0 <= i < TILE_CELLS && i % 80 < 79 && is_open(s, i) && is_open(s, i + 1) {
        spread(v[i] as int, v[i + 1] as int)
    } else {
        0
    }
}

/// Flow from cell `i` to its neighbour in the next row along z.
pub open spec fn z_flux(v: Seq<u32>, s: Seq<u32>, i: int) -> int {
    if 0 <= i < TILE_CELLS && (i % 6400) / 80 < 79 && is_open(s, i) && is_open(s, i + 80) {
        spread(v[i] as int, v[i + 80] as int)
    } else {
        0
    }
}

/// The vertical settle pass: the fluid of each open run of a column is poured in from the
/// run's bottom, filling each cell to a full level before any remains above it. Closed cells
/// keep their level.
pub open spec fn vertical_pass(v: Seq<u32>, s: Seq<u32>) -> Seq<u32> {
    Seq::new(
        v.len(),
        |i: int|
            if is_open(s, i) {
                fill_level(run_total(v, s, i) - MAX_LEVEL * ((i - run_bottom(s, i)) / 6400))
            } else {
                v[i]
            },
    )
}

/// The lateral equalize pass along x.
pub open spec fn x_pass(v: Seq<u32>, s: Seq<u32>) -> Seq<u32> {
    Seq::new(v.len(), |i: int| (v[i] - x_flux(v, s, i) + x_flux(v, s, i - 1)) as u32)
}

/// The lateral equalize pass along z.
pub open spec fn z_pass(v: Seq<u32>, s: Seq<u32>) -> Seq<u32> {
    Seq::new(v.len(), |i: int| (v[i] - z_flux(v, s, i) + z_flux(v, s, i - 80)) as u32)
}

/// One iteration: settle, then equalize along x, then along z.
pub open spec fn iteration(v: Seq<u32>, s: Seq<u32>) -> Seq<u32> {
    z_pass(x_pass(vertical_pass(v, s), s), s)
}

/// `n` iterations.
pub open spec fn simulate(v: Seq<u32>, s: Seq<u32>, n: nat) -> Seq<u32>
    decreases n,
{
    if n == 0 {
        v
    } else {
        iteration(simulate(v, s, (n - 1) as nat), s)
    }
}

proof fn lemma_vertical_bounds(v: Seq<u32>, s: Seq<u32>, i: int)
    requires
        levels_ok(v, s),
        0 <= i < TILE_CELLS,
    ensures
        vertical_pass(v, s)[i] <= MAX_LEVEL,
        s[i] != 0 ==> vertical_pass(v, s)[i] == v[i],
{
}

proof fn lemma_spread_bounds(a: int, b: int)
    requires
        0 <= a <= 12,
        0 <= b <= 12,
    ensures
        a >= b ==> 0 <= spread(a, b) <= a / 4 && spread(a, b) <= (12 - b) / 4,
        a < b ==> -(b / 4) <= spread(a, b) <= 0 && -spread(a, b) <= (12 - a) / 4,
        a > b ==> spread(a, b) >= 0,
        a < b ==> spread(a, b) <= 0,
        spread(a, b) == -spread(b, a),
{
}

pub fn vertical_pass_exec(v: &Vec<u32>, s: &Vec<u32>) -> (r: Vec<u32>)
    requires
        levels_ok(v@, s@),
    ensures
        r@ == vertical_pass(v@, s@),
        levels_ok(r@, s@),
{
    // Fluid from each open run's bottom up to each cell.
    let mut below: Vec<u32> = Vec::new();
    let mut i: usize = 0;
    while i < TILE_CELLS
        invariant
            levels_ok(v@, s@),
            i <= TILE_CELLS,
            below@.len() == i,
            forall|j: int| 0 <= j < i && is_open(s@, j) ==> #[trigger] below@[j] == column_sum(v@, run_bottom(s@, j), (j - run_bottom(s@, j)) / 6400 + 1),
            forall|j: int| 0 <= j < i ==> #[trigger] below@[j] <= MAX_LEVEL * ((j / 6400) + 1),
        decreases TILE_CELLS - i,
    {
        proof {
            lemma_run_bottom(s@, i as int);
        }
        let mut acc: u32 = 0;
        if s[i] == 0 {
            acc = v[i];
            if i >= TILE_LAYER && s[i - TILE_LAYER] == 0 {
                proof {
                    let b = run_bottom(s@, i as int);
                    let n = (i - b) / 6400;
                    lemma_run_bottom(s@, i - TILE_LAYER);
                    assert(run_bottom(s@, i - TILE_LAYER) == b);
                    assert((i - TILE_LAYER - b) / 6400 == n - 1);
                    assert(b + TILE_LAYER * n == i);
                    assert(column_sum(v@, b, n + 1) == column_sum(v@, b, n) + v@[i as int]);
                    assert(below@[i - TILE_LAYER] <= MAX_LEVEL * (((i - TILE_LAYER) / 6400) + 1));
                    assert(((i - TILE_LAYER) / 6400) + 1 == i / 6400);
                }
                acc = below[i - TILE_LAYER] + v[i];
            } else {
                proof {
                    assert(run_bottom(s@, i as int) == i);
                    assert(column_sum(v@, i as int, 0) == 0);
                    assert(column_sum(v@, i as int, 1) == v@[i as int]);
                }
            }
        }
        below.push(acc);
        i = i + 1;
    }
    // The whole of each open run, from its top down.
    let mut whole: Vec<u32> = below.clone();
    let mut k: usize = TILE_CELLS;
    while k > 0
        invariant
            levels_ok(v@, s@),
            k <= TILE_CELLS,
            whole@.len() == TILE_CELLS,
            below@.len() == TILE_CELLS,
            forall|j: int| 0 <= j < TILE_CELLS && is_open(s@, j) ==> #[trigger] below@[j] == column_sum(v@, run_bottom(s@, j), (j - run_bottom(s@, j)) / 6400 + 1),
            forall|j: int| 0 <= j < k ==> #[trigger] whole@[j] == below@[j],
            forall|j: int| k <= j < TILE_CELLS && is_open(s@, j) ==> #[trigger] whole@[j] == run_total(v@, s@, j),
        decreases k,
    {
        let i = k - 1;
        proof {
            lemma_run_bottom(s@, i as int);
            lemma_run_top(s@, i as int);
        }
        if s[i] == 0 && i + TILE_LAYER < TILE_CELLS && s[i + TILE_LAYER] == 0 {
            proof {
                assert(run_top(s@, i as int) == run_top(s@, i + TILE_LAYER));
                assert(run_bottom(s@, i + TILE_LAYER) == run_bottom(s@, i as int));
            }
            let t = whole[i + TILE_LAYER];
            whole.set(i, t);
        } else if s[i] == 0 {
            proof {
                assert(run_top(s@, i as int) == i);
            }
        }
        k = i;
    }
    // Pour each run from its bottom.
    let mut r: Vec<u32> = Vec::new();
    let mut h: Vec<u32> = Vec::new();
    let mut i: usize = 0;
    while i < TILE_CELLS
        invariant
            levels_ok(v@, s@),
            i <= TILE_CELLS,
            r@.len() == i,
            h@.len() == i,
            whole@.len() == TILE_CELLS,
            forall|j: int| 0 <= j < TILE_CELLS && is_open(s@, j) ==> #[trigger] whole@[j] == run_total(v@, s@, j),
            forall|j: int| 0 <= j < i && is_open(s@, j) ==> #[trigger] h@[j] == (j - run_bottom(s@, j)) / 6400,
            forall|j: int| 0 <= j < i ==> #[trigger] h@[j] < 256,
            forall|j: int| 0 <= j < i ==> #[trigger] r@[j] == vertical_pass(v@, s@)[j],
        decreases TILE_CELLS - i,
    {
        proof {
            lemma_run_bottom(s@, i as int);
        }
        let mut height: u32 = 0;
        let mut value: u32 = v[i];
        if s[i] == 0 {
            if i >= TILE_LAYER && s[i - TILE_LAYER] == 0 {
                proof {
                    assert(run_bottom(s@, i - TILE_LAYER) == run_bottom(s@, i as int));
                }
                assert(h@[i - TILE_LAYER] < 256);
                height = h[i - TILE_LAYER] + 1;
            } else {
                proof {
                    assert(run_bottom(s@, i as int) == i);
                }
            }
            assert(height <= 256);
            let used: u64 = (height as u64) * 12;
            assert(used == MAX_LEVEL * height);
            let w = whole[i] as u64;
            value = if w <= used {
                0
            } else if w - used >= MAX_LEVEL as u64 {
                MAX_LEVEL
            } else {
                (w - used) as u32
            };
        }
        proof {
            lemma_vertical_bounds(v@, s@, i as int);
        }
        h.push(height);
        r.push(value);
        i = i + 1;
    }
    proof {
        assert(r@ =~= vertical_pass(v@, s@));
        assert forall|j: int| 0 <= j < TILE_CELLS implies #[trigger] r@[j] <= MAX_LEVEL && (s@[j] != 0 ==> r@[j] == 0) by {
            lemma_vertical_bounds(v@, s@, j);
        }
    }
    r
}

/// Facts about the bottom of cell `i`'s run.
proof fn lemma_run_bottom(s: Seq<u32>, i: int)
    requires
        0 <= i < TILE_CELLS,
    ensures
        0 <= run_bottom(s, i) <= i,
        (i - run_bottom(s, i)) % 6400 == 0,
        (i - run_bottom(s, i)) / 6400 <= i / 6400,
        i >= TILE_LAYER && is_open(s, i - TILE_LAYER) ==> run_bottom(s, i) == run_bottom(s, i - TILE_LAYER),
    decreases i,
{
    if i >= TILE_LAYER && is_open(s, i - TILE_LAYER) {
        lemma_run_bottom(s, i - TILE_LAYER);
    }
}

/// Facts about the top of cell `i`'s run.
proof fn lemma_run_top(s: Seq<u32>, i: int)
    requires
        0 <= i < TILE_CELLS,
    ensures
        i <= run_top(s, i) < TILE_CELLS,
        (run_top(s, i) - i) % 6400 == 0,
        run_top(s, i) + TILE_LAYER >= TILE_CELLS || !is_open(s, run_top(s, i) + TILE_LAYER),
        i + TILE_LAYER < TILE_CELLS && is_open(s, i + TILE_LAYER) ==> run_top(s, i) == run_top(s, i + TILE_LAYER),
    decreases TILE_CELLS - i,
{
    if i + TILE_LAYER < TILE_CELLS && is_open(s, i + TILE_LAYER) {
        lemma_run_top(s, i + TILE_LAYER);
    }
}

fn spread_exec(a: u32, b: u32) -> (r: i64)
    requires
        a <= MAX_LEVEL,
        b <= MAX_LEVEL,
    ensures
        r == spread(a as int, b as int),
{
    if a >= b {
        ((a - b) / 4) as i64
    } else {
        -(((b - a) / 4) as i64)
    }
}

proof fn lemma_x_cell(v: Seq<u32>, s: Seq<u32>, i: int)
    requires
        levels_ok(v, s),
        0 <= i < TILE_CELLS,
    ensures
        0 <= v[i] - x_flux(v, s, i) + x_flux(v, s, i - 1) <= MAX_LEVEL,
        s[i] != 0 ==> x_flux(v, s, i) == 0 && x_flux(v, s, i - 1) == 0,
        i % 80 == 0 ==> x_flux(v, s, i - 1) == 0,
{
    if i % 80 < 79 && is_open(s, i) && is_open(s, i + 1) {
        lemma_spread_bounds(v[i] as int, v[i + 1] as int);
    }
    if i >= 1 && (i - 1) % 80 < 79 && is_open(s, i - 1) && is_open(s, i) {
        lemma_spread_bounds(v[i - 1] as int, v[i] as int);
    }
    if i % 80 == 0 && i > 0 {
        assert((i - 1) % 80 == 79);
    }
}

proof fn lemma_z_cell(v: Seq<u32>, s: Seq<u32>, i: int)
    requires
        levels_ok(v, s),
        0 <= i < TILE_CELLS,
    ensures
        0 <= v[i] - z_flux(v, s, i) + z_flux(v, s, i - 80) <= MAX_LEVEL,
        s[i] != 0 ==> z_flux(v, s, i) == 0 && z_flux(v, s, i - 80) == 0,
        (i % 6400) / 80 == 0 ==> z_flux(v, s, i - 80) == 0,
        (i % 6400) / 80 > 0 ==> i >= 80 && ((i - 80) % 6400) / 80 < 79,
        (i % 6400) / 80 < 79 ==> i + 80 < TILE_CELLS,
{
    if (i % 6400) / 80 < 79 && is_open(s, i) && is_open(s, i + 80) {
        lemma_spread_bounds(v[i] as int, v[i + 80] as int);
    }
    if i >= 80 && ((i - 80) % 6400) / 80 < 79 && is_open(s, i - 80) && is_open(s, i) {
        lemma_spread_bounds(v[i - 80] as int, v[i] as int);
    }
    if (i % 6400) / 80 == 0 && i >= 80 {
        assert(((i - 80) % 6400) / 80 == 79);
    }
}

#[verifier::rlimit(40)]
pub fn x_pass_exec(v: &Vec<u32>, s: &Vec<u32>) -> (r: Vec<u32>)
    requires
        levels_ok(v@, s@),
    ensures
        r@ == x_pass(v@, s@),
        levels_ok(r@, s@),
{
    let mut r: Vec<u32> = Vec::new();
    let mut i: usize = 0;
    while i < TILE_CELLS
        invariant
            levels_ok(v@, s@),
            i <= TILE_CELLS,
            r@.len() == i,
            forall|j: int| 0 <= j < i ==> #[trigger] r@[j] == x_pass(v@, s@)[j],
            forall|j: int| 0 <= j < i ==> #[trigger] r@[j] <= MAX_LEVEL,
            forall|j: int| 0 <= j < i && s@[j] != 0 ==> #[trigger] r@[j] == 0,
        decreases TILE_CELLS - i,
    {
        proof {
            lemma_x_cell(v@, s@, i as int);
        }
        let open = s[i] == 0;
        let mut right: i64 = 0;
        if open && i % TILE_BLOCKS < TILE_BLOCKS - 1 && s[i + 1] == 0 {
            right = spread_exec(v[i], v[i + 1]);
        }
        let mut left: i64 = 0;
        if open && i % TILE_BLOCKS > 0 && s[i - 1] == 0 {
            left = spread_exec(v[i - 1], v[i]);
        }
        assert(right == x_flux(v@, s@, i as int));
        assert(left == x_flux(v@, s@, i - 1));
        let value = v[i] as i64 - right + left;
        r.push(value as u32);
        i = i + 1;
    }
    r
}

#[verifier::rlimit(40)]
pub fn z_pass_exec(v: &Vec<u32>, s: &Vec<u32>) -> (r: Vec<u32>)
    requires
        levels_ok(v@, s@),
    ensures
        r@ == z_pass(v@, s@),
        levels_ok(r@, s@),
{
    let mut r: Vec<u32> = Vec::new();
    let mut i: usize = 0;
    while i < TILE_CELLS
        invariant
            levels_ok(v@, s@),
            i <= TILE_CELLS,
            r@.len() == i,
            forall|j: int| 0 <= j < i ==> #[trigger] r@[j] == z_pass(v@, s@)[j],
            forall|j: int| 0 <= j < i ==> #[trigger] r@[j] <= MAX_LEVEL,
            forall|j: int| 0 <= j < i && s@[j] != 0 ==> #[trigger] r@[j] == 0,
        decreases TILE_CELLS - i,
    {
        proof {
            lemma_z_cell(v@, s@, i as int);
        }
        let open = s[i] == 0;
        let row = (i % TILE_LAYER) / TILE_BLOCKS;
        let mut ahead: i64 = 0;
        if open && row < TILE_BLOCKS - 1 && s[i + TILE_BLOCKS] == 0 {
            ahead = spread_exec(v[i], v[i + TILE_BLOCKS]);
        }
        let mut behind: i64 = 0;
        if open && row > 0 && s[i - TILE_BLOCKS] == 0 {
            behind = spread_exec(v[i - TILE_BLOCKS], v[i]);
        }
        assert(ahead == z_flux(v@, s@, i as int));
        assert(behind == z_flux(v@, s@, i - 80));
        let value = v[i] as i64 - ahead + behind;
        r.push(value as u32);
        i = i + 1;
    }
    r
}

proof fn lemma_vertical_ok(v: Seq<u32>, s: Seq<u32>)
    requires
        levels_ok(v, s),
    ensures
        levels_ok(vertical_pass(v, s), s),
{
    assert forall|i: int| 0 <= i < TILE_CELLS implies #[trigger] vertical_pass(v, s)[i] <= MAX_LEVEL
        && (s[i] != 0 ==> vertical_pass(v, s)[i] == 0) by {
        lemma_vertical_bounds(v, s, i);
    }
}

proof fn lemma_x_ok(v: Seq<u32>, s: Seq<u32>)
    requires
        levels_ok(v, s),
    ensures
        levels_ok(x_pass(v, s), s),
{
    assert forall|i: int| 0 <= i < TILE_CELLS implies #[trigger] x_pass(v, s)[i] <= MAX_LEVEL
        && (s[i] != 0 ==> x_pass(v, s)[i] == 0) by {
        lemma_x_cell(v, s, i);
    }
}

proof fn lemma_z_ok(v: Seq<u32>, s: Seq<u32>)
    requires
        levels_ok(v, s),
    ensures
        levels_ok(z_pass(v, s), s),
{
    assert forall|i: int| 0 <= i < TILE_CELLS implies #[trigger] z_pass(v, s)[i] <= MAX_LEVEL
        && (s[i] != 0 ==> z_pass(v, s)[i] == 0) by {
        lemma_z_cell(v, s, i);
    }
}

/// Every pass keeps levels within a full cell and keeps closed cells empty, so any number of
/// iterations does too.
pub proof fn lemma_simulate_ok(v: Seq<u32>, s: Seq<u32>, n: nat)
    requires
        levels_ok(v, s),
    ensures
        levels_ok(simulate(v, s, n), s),
    decreases n,
{
    if n > 0 {
        lemma_simulate_ok(v, s, (n - 1) as nat);
        let w = simulate(v, s, (n - 1) as nat);
        lemma_vertical_ok(w, s);
        lemma_x_ok(vertical_pass(w, s), s);
        lemma_z_ok(x_pass(vertical_pass(w, s), s), s);
    }
}

/// Runs `n` iterations of the three passes.
pub fn simulate_exec(v: Vec<u32>, s: &Vec<u32>, n: u32) -> (r: Vec<u32>)
    requires
        levels_ok(v@, s@),
    ensures
        r@ == simulate(v@, s@, n as nat),
        levels_ok(r@, s@),
{
    let mut cur = v;
    let mut k: u32 = 0;
    while k < n
        invariant
            k <= n,
            cur@ == simulate(v@, s@, k as nat),
            levels_ok(cur@, s@),
        decreases n - k,
    {
        let a = vertical_pass_exec(&cur, s);
        let b = x_pass_exec(&a, s);
        cur = z_pass_exec(&b, s);
        k = k + 1;
    }
    cur
}

/// The buffer the kernel starts from: each open cell's level, clamped to a full cell; closed
/// cells empty.
pub open spec fn kernel_start(original: Seq<u32>, solid: Seq<u32>) -> Seq<u32> {
    Seq::new(
        original.len(),
        |i: int|
            if solid[i] != 0 {
                0u32
            } else if original[i] > MAX_LEVEL {
                MAX_LEVEL
            } else {
                original[i]
            },
    )
}

pub fn kernel_start_exec(original: &Vec<u32>, solid: &Vec<u32>) -> (r: Vec<u32>)
    requires
        original@.len() == TILE_CELLS,
        solid@.len() == TILE_CELLS,
    ensures
        r@ == kernel_start(original@, solid@),
        levels_ok(r@, solid@),
{
    let mut r: Vec<u32> = Vec::new();
    let mut i: usize = 0;
    while i < TILE_CELLS
        invariant
            original@.len() == TILE_CELLS,
            solid@.len() == TILE_CELLS,
            i <= TILE_CELLS,
            r@.len() == i,
            forall|j: int| 0 <= j < i ==> #[trigger] r@[j] == kernel_start(original@, solid@)[j],
        decreases TILE_CELLS - i,
    {
        let value = if solid[i] != 0 {
            0
        } else if original[i] > MAX_LEVEL {
            MAX_LEVEL
        } else {
            original[i]
        };
        r.push(value);
        i = i + 1;
    }
    proof {
        assert(r@ =~= kernel_start(original@, solid@));
    }
    r
}

/// Sum of the first `n` cells of the column that starts at bottom cell `c`.
pub open spec fn column_sum(v: Seq<u32>, c: int, n: int) -> int
    decreases n,
{
    if n <= 0 {
        0
    } else {
        column_sum(v, c, n - 1) + v[c + TILE_LAYER * (n - 1)]
    }
}

/// `n` vertical settle passes.
pub open spec fn settle(v: Seq<u32>, s: Seq<u32>, n: nat) -> Seq<u32>
    decreases n,
{
    if n == 0 {
        v
    } else {
        vertical_pass(settle(v, s, (n - 1) as nat), s)
    }
}

proof fn lemma_column_sum_bound(v: Seq<u32>, s: Seq<u32>, c: int, n: int)
    requires
        levels_ok(v, s),
        0 <= c,
        0 <= n,
        c + TILE_LAYER * (n - 1) < TILE_CELLS,
    ensures
        0 <= column_sum(v, c, n) <= MAX_LEVEL * n,
    decreases n,
{
    if n > 0 {
        lemma_column_sum_bound(v, s, c, n - 1);
    }
}

proof fn lemma_column_split(v: Seq<u32>, c: int, a: int, b: int)
    requires
        0 <= a,
        0 <= b,
    ensures
        column_sum(v, c, a + b) == column_sum(v, c, a) + column_sum(v, c + TILE_LAYER * a, b),
    decreases b,
{
    if b > 0 {
        lemma_column_split(v, c, a, b - 1);
        assert(c + TILE_LAYER * a + TILE_LAYER * (b - 1) == c + TILE_LAYER * (a + b - 1));
    }
}

/// Sum of what a run holding `t` pours into its first `n` cells.
pub open spec fn poured(t: int, n: int) -> int
    decreases n,
{
    if n <= 0 {
        0
    } else {
        poured(t, n - 1) + fill_level(t - MAX_LEVEL * (n - 1))
    }
}

proof fn lemma_poured(t: int, n: int)
    requires
        t >= 0,
        n >= 0,
    ensures
        poured(t, n) == if t <= MAX_LEVEL * n { t } else { MAX_LEVEL * n },
    decreases n,
{
    if n > 0 {
        lemma_poured(t, n - 1);
    }
}

/// Cells of the run that starts at open cell `i` share its bottom and top.
proof fn lemma_run_member(s: Seq<u32>, i: int, k: int)
    requires
        0 <= i < TILE_CELLS,
        is_open(s, i),
        run_bottom(s, i) == i,
        0 <= k,
        i + TILE_LAYER * k <= run_top(s, i),
    ensures
        is_open(s, i + TILE_LAYER * k),
        run_bottom(s, i + TILE_LAYER * k) == i,
        run_top(s, i + TILE_LAYER * k) == run_top(s, i),
    decreases k,
{
    lemma_run_top(s, i);
    if k > 0 {
        let j = i + TILE_LAYER * (k - 1);
        lemma_run_member(s, i, k - 1);
        assert(j + TILE_LAYER == i + TILE_LAYER * k);
        lemma_run_top(s, j);
        assert(run_top(s, j) != j);
    }
}

proof fn lemma_run_poured(v: Seq<u32>, s: Seq<u32>, i: int, n: int)
    requires
        levels_ok(v, s),
        0 <= i < TILE_CELLS,
        is_open(s, i),
        run_bottom(s, i) == i,
        0 <= n,
        i + TILE_LAYER * (n - 1) <= run_top(s, i),
    ensures
        column_sum(vertical_pass(v, s), i, n) == poured(run_total(v, s, i), n),
    decreases n,
{
    if n > 0 {
        lemma_run_poured(v, s, i, n - 1);
        let j = i + TILE_LAYER * (n - 1);
        lemma_run_member(s, i, n - 1);
        lemma_run_top(s, i);
        assert((j - i) / 6400 == n - 1);
        assert(run_total(v, s, j) == run_total(v, s, i));
    }
}

/// Pouring keeps the total of one column, from layer `y` up, once the layers below `y` agree.
proof fn lemma_column_from(v: Seq<u32>, s: Seq<u32>, c: int, y: int)
    requires
        levels_ok(v, s),
        0 <= c < TILE_LAYER,
        0 <= y <= 256,
        y == 0 || y == 256 || !is_open(s, c + TILE_LAYER * (y - 1)) || !is_open(s, c + TILE_LAYER * y),
        column_sum(vertical_pass(v, s), c, y) == column_sum(v, c, y),
    ensures
        column_sum(vertical_pass(v, s), c, 256) == column_sum(v, c, 256),
    decreases 256 - y,
{
    let w = vertical_pass(v, s);
    if y < 256 {
        let i = c + TILE_LAYER * y;
        if !is_open(s, i) {
            lemma_vertical_bounds(v, s, i);
            lemma_column_from(v, s, c, y + 1);
        } else {
            lemma_run_top(s, i);
            assert(run_bottom(s, i) == i) by {
                if y > 0 {
                    assert(i - TILE_LAYER == c + TILE_LAYER * (y - 1));
                }
            }
            let t = run_top(s, i);
            let n = (t - i) / 6400 + 1;
            assert(t == i + TILE_LAYER * (n - 1));
            assert(y + n <= 256);
            lemma_run_poured(v, s, i, n);
            lemma_column_sum_bound(v, s, i, n);
            lemma_poured(run_total(v, s, i), n);
            lemma_column_split(w, c, y, n);
            lemma_column_split(v, c, y, n);
            assert(t + TILE_LAYER == c + TILE_LAYER * (y + n));
            lemma_column_from(v, s, c, y + n);
        }
    }
}

/// Conservation in a column: however many vertical settle passes run, the fluid in each
/// vertical column of the tile (the one whose bottom cell is `c`) keeps its total.
pub proof fn lemma_column_conserved(v: Seq<u32>, s: Seq<u32>, c: int, n: nat)
    requires
        levels_ok(v, s),
        0 <= c < TILE_LAYER,
    ensures
        levels_ok(settle(v, s, n), s),
        column_sum(settle(v, s, n), c, 256) == column_sum(v, c, 256),
    decreases n,
{
    if n > 0 {
        let w = settle(v, s, (n - 1) as nat);
        lemma_column_conserved(v, s, c, (n - 1) as nat);
        lemma_vertical_ok(w, s);
        lemma_column_from(w, s, c, 0);
    }
}

/// No uphill flow along x: the equalize pass changes each cell only by the flows to and from
/// its two neighbours, and each flow goes from the higher level to the lower (none between
/// equal levels, none through a closed cell).
pub proof fn lemma_no_uphill_x(v: Seq<u32>, s: Seq<u32>, i: int)
    requires
        levels_ok(v, s),
        0 <= i < TILE_CELLS,
    ensures
        x_pass(v, s)[i] == v[i] - x_flux(v, s, i) + x_flux(v, s, i - 1),
        i % 80 < 79 ==> {
            &&& v[i] < v[i + 1] ==> x_flux(v, s, i) <= 0
            &&& v[i] > v[i + 1] ==> x_flux(v, s, i) >= 0
            &&& v[i] == v[i + 1] ==> x_flux(v, s, i) == 0
            &&& (s[i] != 0 || s[i + 1] != 0) ==> x_flux(v, s, i) == 0
        },
{
    lemma_x_cell(v, s, i);
    if i % 80 < 79 && is_open(s, i) && is_open(s, i + 1) {
        lemma_spread_bounds(v[i] as int, v[i + 1] as int);
    }
}

/// No uphill flow along z, as along x.
pub proof fn lemma_no_uphill_z(v: Seq<u32>, s: Seq<u32>, i: int)
    requires
        levels_ok(v, s),
        0 <= i < TILE_CELLS,
    ensures
        z_pass(v, s)[i] == v[i] - z_flux(v, s, i) + z_flux(v, s, i - 80),
        (i % 6400) / 80 < 79 ==> {
            &&& v[i] < v[i + 80] ==> z_flux(v, s, i) <= 0
            &&& v[i] > v[i + 80] ==> z_flux(v, s, i) >= 0
            &&& v[i] == v[i + 80] ==> z_flux(v, s, i) == 0
            &&& (s[i] != 0 || s[i + 80] != 0) ==> z_flux(v, s, i) == 0
        },
{
    lemma_z_cell(v, s, i);
    if (i % 6400) / 80 < 79 && is_open(s, i) && is_open(s, i + 80) {
        lemma_spread_bounds(v[i] as int, v[i + 80] as int);
    }
}

/// A configuration at rest: no open cell with fluid sits above an open cell with room, and
/// open neighbours along x and z differ by less than 4 levels, too little to flow (a flat
/// surface, where they are equal, is the plainest case).
pub open spec fn at_rest(v: Seq<u32>, s: Seq<u32>) -> bool {
    &&& forall|i: int|
        TILE_LAYER <= i < TILE_CELLS && is_open(s, i) && is_open(s, i - TILE_LAYER) ==> #[trigger] v[i] == 0
            || v[i - TILE_LAYER] == MAX_LEVEL
    &&& forall|i: int|
        0 <= i < TILE_CELLS && i % 80 < 79 && is_open(s, i) && is_open(s, i + 1) ==> -4 < #[trigger] v[i] - v[i + 1] < 4
    &&& forall|i: int|
        0 <= i < TILE_CELLS && (i % 6400) / 80 < 79 && is_open(s, i) && is_open(s, i + 80) ==> -4 < #[trigger] v[i]
            - v[i + 80] < 4
}

/// The bottom of an open cell's run is open, starts the run, and shares the cell's top.
proof fn lemma_run_start(s: Seq<u32>, i: int)
    requires
        0 <= i < TILE_CELLS,
        is_open(s, i),
    ensures
        is_open(s, run_bottom(s, i)),
        run_bottom(s, run_bottom(s, i)) == run_bottom(s, i),
        run_top(s, run_bottom(s, i)) == run_top(s, i),
    decreases i,
{
    if i >= TILE_LAYER && is_open(s, i - TILE_LAYER) {
        lemma_run_start(s, i - TILE_LAYER);
        assert(i - TILE_LAYER + TILE_LAYER == i);
    }
}

proof fn lemma_full_below(v: Seq<u32>, s: Seq<u32>, b: int, k: int)
    requires
        levels_ok(v, s),
        at_rest(v, s),
        0 <= b < TILE_CELLS,
        is_open(s, b),
        run_bottom(s, b) == b,
        0 <= k,
        b + TILE_LAYER * k <= run_top(s, b),
        v[b + TILE_LAYER * k] > 0,
    ensures
        forall|j: int| 0 <= j < k ==> #[trigger] v[b + TILE_LAYER * j] == MAX_LEVEL,
    decreases k,
{
    if k > 0 {
        let u = b + TILE_LAYER * k;
        lemma_run_member(s, b, k);
        lemma_run_member(s, b, k - 1);
        assert(u - TILE_LAYER == b + TILE_LAYER * (k - 1));
        assert(v[u] == 0 || v[u - TILE_LAYER] == MAX_LEVEL);
        lemma_full_below(v, s, b, k - 1);
    }
}

proof fn lemma_column_all(v: Seq<u32>, c: int, n: int, x: u32)
    requires
        0 <= n,
        forall|j: int| 0 <= j < n ==> #[trigger] v[c + TILE_LAYER * j] == x,
    ensures
        column_sum(v, c, n) == (x as int) * n,
    decreases n,
{
    if n > 0 {
        lemma_column_all(v, c, n - 1, x);
        assert(v[c + TILE_LAYER * (n - 1)] == x);
        assert((x as int) * n == (x as int) * (n - 1) + x) by (nonlinear_arith);
    } else {
        assert((x as int) * n == 0) by (nonlinear_arith)
            requires n == 0;
    }
}

/// A run at rest is poured back exactly as it stands.
proof fn lemma_rest_vertical(v: Seq<u32>, s: Seq<u32>, i: int)
    requires
        levels_ok(v, s),
        at_rest(v, s),
        0 <= i < TILE_CELLS,
        is_open(s, i),
    ensures
        vertical_pass(v, s)[i] == v[i],
{
    lemma_run_bottom(s, i);
    lemma_run_top(s, i);
    lemma_run_start(s, i);
    let b = run_bottom(s, i);
    let t = run_top(s, i);
    lemma_run_top(s, b);
    let k = (i - b) / 6400;
    let n = (t - b) / 6400 + 1;
    assert(i == b + TILE_LAYER * k);
    assert(t == b + TILE_LAYER * (n - 1));
    assert(k < n);
    let total = column_sum(v, b, n);
    assert(run_total(v, s, i) == total);
    lemma_column_split(v, b, k, n - k);
    lemma_column_split(v, i, 1, n - k - 1);
    assert(column_sum(v, i, 1) == v[i]) by {
        assert(column_sum(v, i, 0) == 0);
    }
    let below = column_sum(v, b, k);
    let above = column_sum(v, i + TILE_LAYER, n - k - 1);
    assert(total == below + v[i] + above);
    lemma_column_sum_bound(v, s, b, k);
    lemma_column_sum_bound(v, s, i + TILE_LAYER, n - k - 1);
    if v[i] > 0 {
        lemma_full_below(v, s, b, k);
        lemma_column_all(v, b, k, MAX_LEVEL);
    }
    if v[i] < MAX_LEVEL {
        assert forall|j: int| 0 <= j < n - k - 1 implies #[trigger] v[i + TILE_LAYER + TILE_LAYER * j] == 0 by {
            let m = k + 1 + j;
            assert(i + TILE_LAYER + TILE_LAYER * j == b + TILE_LAYER * m);
            if v[b + TILE_LAYER * m] > 0 {
                lemma_full_below(v, s, b, m);
                assert(v[b + TILE_LAYER * k] == MAX_LEVEL);
            }
        }
        lemma_column_all(v, i + TILE_LAYER, n - k - 1, 0);
    }
}

/// Idempotence at rest: iterations leave a configuration at rest exactly as it is.
pub proof fn lemma_rest_is_fixed(v: Seq<u32>, s: Seq<u32>, n: nat)
    requires
        levels_ok(v, s),
        at_rest(v, s),
    ensures
        simulate(v, s, n) == v,
    decreases n,
{
    if n > 0 {
        lemma_rest_is_fixed(v, s, (n - 1) as nat);
        assert forall|i: int| 0 <= i < TILE_CELLS implies #[trigger] vertical_pass(v, s)[i] == v[i] by {
            if is_open(s, i) {
                lemma_rest_vertical(v, s, i);
            }
        }
        assert(vertical_pass(v, s) =~= v);
        assert forall|i: int| -80 <= i < TILE_CELLS implies #[trigger] x_flux(v, s, i) == 0 by {
            if 0 <= i < TILE_CELLS && i % 80 < 79 && is_open(s, i) && is_open(s, i + 1) {
                assert(-4 < v[i] - v[i + 1] < 4);
            }
        }
        assert(x_pass(v, s) =~= v);
        assert forall|i: int| -80 <= i < TILE_CELLS implies #[trigger] z_flux(v, s, i) == 0 by {
            if 0 <= i < TILE_CELLS && (i % 6400) / 80 < 79 && is_open(s, i) && is_open(s, i + 80) {
                assert(-4 < v[i] - v[i + 80] < 4);
            }
        }
        assert(z_pass(v, s) =~= v);
    }
}

/// The start buffer always satisfies the kernel's level bounds.
pub proof fn lemma_start_ok(original: Seq<u32>, solid: Seq<u32>)
    requires
        original.len() == TILE_CELLS,
        solid.len() == TILE_CELLS,
    ensures
        levels_ok(kernel_start(original, solid), solid),
{
}

/// Every lateral neighbour of every cell of the column whose bottom cell is `c` is closed.
pub open spec fn column_closed(s: Seq<u32>, c: int) -> bool {
    forall|y: int|
        0 <= y < 256 ==> {
            let i = #[trigger] (c + TILE_LAYER * y);
            &&& (i % 80 < 79 ==> s[i + 1] != 0)
            &&& (i % 80 > 0 ==> s[i - 1] != 0)
            &&& ((i % 6400) / 80 < 79 ==> s[i + 80] != 0)
            &&& ((i % 6400) / 80 > 0 ==> s[i - 80] != 0)
        }
}

proof fn lemma_column_sum_ext(v: Seq<u32>, w: Seq<u32>, c: int, n: int)
    requires
        0 <= n <= 256,
        forall|y: int| 0 <= y < n ==> #[trigger] w[c + TILE_LAYER * y] == v[c + TILE_LAYER * y],
    ensures
        column_sum(w, c, n) == column_sum(v, c, n),
    decreases n,
{
    if n > 0 {
        lemma_column_sum_ext(v, w, c, n - 1);
        assert(w[c + TILE_LAYER * (n - 1)] == v[c + TILE_LAYER * (n - 1)]);
    }
}

proof fn lemma_closed_column_lateral(v: Seq<u32>, s: Seq<u32>, c: int)
    requires
        levels_ok(v, s),
        0 <= c < TILE_LAYER,
        column_closed(s, c),
    ensures
        column_sum(x_pass(v, s), c, 256) == column_sum(v, c, 256),
        column_sum(z_pass(v, s), c, 256) == column_sum(v, c, 256),
{
    assert forall|y: int| 0 <= y < 256 implies #[trigger] x_pass(v, s)[c + TILE_LAYER * y] == v[c + TILE_LAYER * y]
        && z_pass(v, s)[c + TILE_LAYER * y] == v[c + TILE_LAYER * y] by {
        let i = c + TILE_LAYER * y;
        assert(0 <= i < TILE_CELLS);
        lemma_x_cell(v, s, i);
        lemma_z_cell(v, s, i);
    }
    lemma_column_sum_ext(v, x_pass(v, s), c, 256);
    lemma_column_sum_ext(v, z_pass(v, s), c, 256);
}

/// Conservation in a closed column through whole iterations: when every lateral neighbour of
/// the column whose bottom cell is `c` is closed, any number of iterations (settle, then both
/// equalize passes) keeps the column's total.
pub proof fn lemma_closed_column_conserved(v: Seq<u32>, s: Seq<u32>, c: int, n: nat)
    requires
        levels_ok(v, s),
        0 <= c < TILE_LAYER,
        column_closed(s, c),
    ensures
        column_sum(simulate(v, s, n), c, 256) == column_sum(v, c, 256),
    decreases n,
{
    if n > 0 {
        lemma_closed_column_conserved(v, s, c, (n - 1) as nat);
        lemma_simulate_ok(v, s, (n - 1) as nat);
        let w = simulate(v, s, (n - 1) as nat);
        lemma_column_from(w, s, c, 0);
        lemma_vertical_ok(w, s);
        let a = vertical_pass(w, s);
        lemma_closed_column_lateral(a, s, c);
        lemma_x_ok(a, s);
        lemma_closed_column_lateral(x_pass(a, s), s, c);
    }
}

/// Sum of the first `n` levels of a buffer.
pub open spec fn total(v: Seq<u32>, n: int) -> int
    decreases n,
{
    if n <= 0 {
        0
    } else {
        total(v, n - 1) + v[n - 1]
    }
}

/// Sum of `f` over `a <= j < b`.
pub open spec fn flux_sum(f: spec_fn(int) -> int, a: int, b: int) -> int
    decreases b - a,
{
    if b <= a {
        0
    } else {
        flux_sum(f, a, b - 1) + f(b - 1)
    }
}

proof fn lemma_flux_sum_left(f: spec_fn(int) -> int, a: int, b: int)
    requires
        a < b,
    ensures
        flux_sum(f, a, b) == f(a) + flux_sum(f, a + 1, b),
    decreases b - a,
{
    assert(flux_sum(f, a, b) == flux_sum(f, a, b - 1) + f(b - 1));
    if b - 1 > a {
        lemma_flux_sum_left(f, a, b - 1);
        assert(flux_sum(f, a + 1, b) == flux_sum(f, a + 1, b - 1) + f(b - 1));
    } else {
        assert(flux_sum(f, a, b - 1) == 0);
        assert(flux_sum(f, a + 1, b) == 0);
    }
}

proof fn lemma_flux_sum_zero(f: spec_fn(int) -> int, a: int, b: int)
    requires
        forall|j: int| a <= j < b ==> #[trigger] f(j) == 0,
    ensures
        flux_sum(f, a, b) == 0,
    decreases b - a,
{
    if b > a {
        lemma_flux_sum_zero(f, a, b - 1);
    }
}

/// A pass that moves `f(i)` from each cell `i` to cell `i + k` changes the running total only
/// by what crosses the prefix's end.
proof fn lemma_telescope(v: Seq<u32>, w: Seq<u32>, f: spec_fn(int) -> int, k: int, n: int)
    requires
        k > 0,
        0 <= n <= v.len(),
        v.len() == w.len(),
        forall|i: int| 0 <= i < v.len() ==> #[trigger] w[i] == v[i] - f(i) + f(i - k),
        forall|j: int| j < 0 ==> #[trigger] f(j) == 0,
    ensures
        total(w, n) == total(v, n) - flux_sum(f, n - k, n),
    decreases n,
{
    if n == 0 {
        lemma_flux_sum_zero(f, -k, 0);
    } else {
        lemma_telescope(v, w, f, k, n - 1);
        lemma_flux_sum_left(f, n - 1 - k, n);
    }
}

/// Sum of the `b` levels from position `a` on.
pub open spec fn segment(v: Seq<u32>, a: int, b: int) -> int
    decreases b,
{
    if b <= 0 {
        0
    } else {
        segment(v, a, b - 1) + v[a + b - 1]
    }
}

/// Sum over the first `m` columns of each column's lowest `n` cells.
pub open spec fn columns_total(v: Seq<u32>, m: int, n: int) -> int
    decreases m,
{
    if m <= 0 {
        0
    } else {
        columns_total(v, m - 1, n) + column_sum(v, m - 1, n)
    }
}

proof fn lemma_total_split(v: Seq<u32>, a: int, b: int)
    requires
        0 <= a,
        0 <= b,
    ensures
        total(v, a + b) == total(v, a) + segment(v, a, b),
    decreases b,
{
    if b > 0 {
        lemma_total_split(v, a, b - 1);
    }
}

proof fn lemma_columns_layer(v: Seq<u32>, m: int, n: int)
    requires
        0 <= m,
        0 <= n,
    ensures
        columns_total(v, m, n + 1) == columns_total(v, m, n) + segment(v, TILE_LAYER * n, m),
    decreases m,
{
    if m > 0 {
        lemma_columns_layer(v, m - 1, n);
        assert(TILE_LAYER * n + m - 1 == (m - 1) + TILE_LAYER * n);
    }
}

/// The total of the lowest `n` layers is the sum of the columns' totals over those layers.
proof fn lemma_total_by_columns(v: Seq<u32>, n: int)
    requires
        0 <= n,
    ensures
        total(v, TILE_LAYER * n) == columns_total(v, TILE_LAYER as int, n),
    decreases n,
{
    if n == 0 {
        lemma_columns_zero(v, TILE_LAYER as int);
    } else {
        lemma_total_by_columns(v, n - 1);
        lemma_total_split(v, TILE_LAYER * (n - 1), TILE_LAYER as int);
        lemma_columns_layer(v, TILE_LAYER as int, n - 1);
        assert(TILE_LAYER * (n - 1) + TILE_LAYER == TILE_LAYER * n);
    }
}

proof fn lemma_columns_zero(v: Seq<u32>, m: int)
    requires
        0 <= m,
    ensures
        columns_total(v, m, 0) == 0,
    decreases m,
{
    if m > 0 {
        lemma_columns_zero(v, m - 1);
    }
}

proof fn lemma_columns_equal(v: Seq<u32>, w: Seq<u32>, m: int)
    requires
        0 <= m <= TILE_LAYER,
        forall|c: int| 0 <= c < m ==> #[trigger] column_sum(w, c, 256) == column_sum(v, c, 256),
    ensures
        columns_total(w, m, 256) == columns_total(v, m, 256),
    decreases m,
{
    if m > 0 {
        lemma_columns_equal(v, w, m - 1);
    }
}

proof fn lemma_vertical_total(w: Seq<u32>, s: Seq<u32>)
    requires
        levels_ok(w, s),
    ensures
        total(vertical_pass(w, s), TILE_CELLS as int) == total(w, TILE_CELLS as int),
{
    let a = vertical_pass(w, s);
    assert forall|c: int| 0 <= c < TILE_LAYER implies #[trigger] column_sum(a, c, 256) == column_sum(w, c, 256) by {
        lemma_column_from(w, s, c, 0);
    }
    lemma_columns_equal(w, a, TILE_LAYER as int);
    lemma_total_by_columns(w, 256);
    lemma_total_by_columns(a, 256);
    assert(TILE_LAYER * 256 == TILE_CELLS);
}

proof fn lemma_x_total(a: Seq<u32>, s: Seq<u32>)
    requires
        levels_ok(a, s),
    ensures
        total(x_pass(a, s), TILE_CELLS as int) == total(a, TILE_CELLS as int),
{
    let nn = TILE_CELLS as int;
    let fx = |j: int| x_flux(a, s, j);
    let b = x_pass(a, s);
    assert forall|i: int| 0 <= i < a.len() implies #[trigger] b[i] == a[i] - fx(i) + fx(i - 1) by {
        lemma_x_cell(a, s, i);
    }
    assert forall|j: int| nn - 1 <= j < nn implies #[trigger] fx(j) == 0 by {
        assert(j % 80 == 79);
    }
    lemma_telescope(a, b, fx, 1, nn);
    lemma_flux_sum_zero(fx, nn - 1, nn);
}

proof fn lemma_z_total(b: Seq<u32>, s: Seq<u32>)
    requires
        levels_ok(b, s),
    ensures
        total(z_pass(b, s), TILE_CELLS as int) == total(b, TILE_CELLS as int),
{
    let nn = TILE_CELLS as int;
    let fz = |j: int| z_flux(b, s, j);
    let c = z_pass(b, s);
    assert forall|i: int| 0 <= i < b.len() implies #[trigger] c[i] == b[i] - fz(i) + fz(i - 80) by {
        lemma_z_cell(b, s, i);
    }
    assert forall|j: int| nn - 80 <= j < nn implies #[trigger] fz(j) == 0 by {
        assert((j % 6400) / 80 == 79);
    }
    lemma_telescope(b, c, fz, 80, nn);
    lemma_flux_sum_zero(fz, nn - 80, nn);
}

/// Conservation in the whole tile: each pass, and so any number of iterations, keeps the
/// total of all levels.
pub proof fn lemma_total_conserved(v: Seq<u32>, s: Seq<u32>, n: nat)
    requires
        levels_ok(v, s),
    ensures
        total(simulate(v, s, n), TILE_CELLS as int) == total(v, TILE_CELLS as int),
    decreases n,
{
    if n > 0 {
        lemma_total_conserved(v, s, (n - 1) as nat);
        lemma_simulate_ok(v, s, (n - 1) as nat);
        let w = simulate(v, s, (n - 1) as nat);
        lemma_vertical_total(w, s);
        lemma_vertical_ok(w, s);
        let a = vertical_pass(w, s);
        lemma_x_total(a, s);
        lemma_x_ok(a, s);
        lemma_z_total(x_pass(a, s), s);
    }
}

/// The cells above, below and beside cell `c` along z are closed, where they exist.
pub open spec fn sealed_but_x(s: Seq<u32>, c: int) -> bool {
    &&& (c >= TILE_LAYER ==> s[c - TILE_LAYER] != 0)
    &&& (c + TILE_LAYER < TILE_CELLS ==> s[c + TILE_LAYER] != 0)
    &&& ((c % 6400) / 80 > 0 ==> s[c - 80] != 0)
    &&& ((c % 6400) / 80 < 79 ==> s[c + 80] != 0)
}

/// Cells `a` and `a + 1` are open neighbours along x, and every other cell next to either is
/// closed.
pub open spec fn isolated_pair(s: Seq<u32>, a: int) -> bool {
    &&& 0 <= a < TILE_CELLS
    &&& a % 80 < 79
    &&& s[a] == 0
    &&& s[a + 1] == 0
    &&& (a % 80 > 0 ==> s[a - 1] != 0)
    &&& ((a + 1) % 80 < 79 ==> s[a + 2] != 0)
    &&& sealed_but_x(s, a)
    &&& sealed_but_x(s, a + 1)
}

proof fn lemma_sealed_cell(v: Seq<u32>, s: Seq<u32>, c: int)
    requires
        levels_ok(v, s),
        0 <= c < TILE_CELLS,
        sealed_but_x(s, c),
    ensures
        vertical_pass(v, s)[c] == v[c],
        z_pass(v, s)[c] == v[c],
{
    lemma_vertical_bounds(v, s, c);
    lemma_z_cell(v, s, c);
    if is_open(s, c) {
        lemma_run_bottom(s, c);
        lemma_run_top(s, c);
        assert(run_bottom(s, c) == c);
        assert(run_top(s, c) == c);
        assert(column_sum(v, c, 0) == 0);
        assert(run_total(v, s, c) == v[c]);
    }
}

/// No uphill flow through a whole iteration: for an isolated pair of open neighbours, one
/// iteration moves between them exactly the equalizing flow, from the higher level to the
/// lower, and keeps their sum.
pub proof fn lemma_isolated_pair_iteration(v: Seq<u32>, s: Seq<u32>, a: int)
    requires
        levels_ok(v, s),
        isolated_pair(s, a),
    ensures
        iteration(v, s)[a] == v[a] - spread(v[a] as int, v[a + 1] as int),
        iteration(v, s)[a + 1] == v[a + 1] + spread(v[a] as int, v[a + 1] as int),
        iteration(v, s)[a] + iteration(v, s)[a + 1] == v[a] + v[a + 1],
        v[a] <= v[a + 1] ==> iteration(v, s)[a] >= v[a] && iteration(v, s)[a + 1] <= v[a + 1],
        v[a] >= v[a + 1] ==> iteration(v, s)[a] <= v[a] && iteration(v, s)[a + 1] >= v[a + 1],
        iteration(v, s)[a] <= MAX_LEVEL && iteration(v, s)[a + 1] <= MAX_LEVEL,
{
    let b = a + 1;
    lemma_sealed_cell(v, s, a);
    lemma_sealed_cell(v, s, b);
    lemma_vertical_ok(v, s);
    let u = vertical_pass(v, s);
    lemma_x_cell(u, s, a);
    lemma_x_cell(u, s, b);
    lemma_spread_bounds(v[a] as int, v[b] as int);
    assert(x_flux(u, s, a - 1) == 0);
    assert(x_flux(u, s, b) == 0);
    lemma_x_ok(u, s);
    let w = x_pass(u, s);
    lemma_sealed_cell(w, s, a);
    lemma_sealed_cell(w, s, b);
    lemma_z_ok(w, s);
}

} // verus!
