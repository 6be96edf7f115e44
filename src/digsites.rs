//! The board engine: hazard placement, neighbour counts, fog-of-war reveal
//! and player positions on one rectangular board.

use crate::bits::{bits_get, bits_of, bits_repeat, bits_set, Bits, MAX_BITS};
use crate::error::GameError;
use crate::geometry::{sat_i32, Area, Point, Size};
use crate::sampling::sample_indices;
use rand::rngs::StdRng;
use vstd::arithmetic::div_mod::{
    lemma_div_pos_is_pos, lemma_fundamental_div_mod, lemma_fundamental_div_mod_converse,
    lemma_mod_bound,
};
use vstd::arithmetic::mul::{lemma_mul_inequality, lemma_mul_is_distributive_add_other_way};
use vstd::prelude::*;
use vstd::string::*;

verus! {

/// One cell of a board: a hazard, or an empty cell with the number of
/// hazards around it.
#[derive(Clone, Copy, Debug, PartialEq, Eq, Structural)]
pub enum Cell {
    Bone,
    Empty(u8),
}

impl Cell {
    /// The text that the cell shows once revealed.
    pub fn symbol(&self) -> (r: String)
        requires
            *self matches Cell::Empty(n) ==> n <= 8,
        ensures
            r@ == cell_symbol(*self),
    {
        proof {
            reveal_strlit("b");
            reveal_strlit(".");
            reveal_strlit("1");
            reveal_strlit("2");
            reveal_strlit("3");
            reveal_strlit("4");
            reveal_strlit("5");
            reveal_strlit("6");
            reveal_strlit("7");
            reveal_strlit("8");
        }
        match self {
            Cell::Bone => String::from_str("b"),
            Cell::Empty(0) => String::from_str("."),
            Cell::Empty(1) => String::from_str("1"),
            Cell::Empty(2) => String::from_str("2"),
            Cell::Empty(3) => String::from_str("3"),
            Cell::Empty(4) => String::from_str("4"),
            Cell::Empty(5) => String::from_str("5"),
            Cell::Empty(6) => String::from_str("6"),
            Cell::Empty(7) => String::from_str("7"),
            Cell::Empty(_) => String::from_str("8"),
        }
    }
}

/// Whether `(x, y)` lies on a board of `w` columns and `h` rows.
pub open spec fn on_board(w: int, h: int, x: int, y: int) -> bool {
    0 <= x < w && 0 <= y < h
}

/// The row-major position of `(x, y)` on a board of `w` columns.
pub open spec fn index_of(w: int, x: int, y: int) -> int {
    y * w + x
}

/// 1 where `(x, y)` is a hazard on the board, 0 elsewhere and off the board.
pub open spec fn bone_at(cells: Seq<Cell>, w: int, h: int, x: int, y: int) -> int {
    if on_board(w, h, x, y) && cells[index_of(w, x, y)] is Bone {
        1
    } else {
        0
    }
}

/// The number of hazards among the up to eight cells around `(x, y)`.
pub open spec fn neighbor_bones(cells: Seq<Cell>, w: int, h: int, x: int, y: int) -> int {
    bone_at(cells, w, h, x - 1, y - 1) + bone_at(cells, w, h, x, y - 1) + bone_at(
        cells,
        w,
        h,
        x + 1,
        y - 1,
    ) + bone_at(cells, w, h, x - 1, y) + bone_at(cells, w, h, x + 1, y) + bone_at(
        cells,
        w,
        h,
        x - 1,
        y + 1,
    ) + bone_at(cells, w, h, x, y + 1) + bone_at(cells, w, h, x + 1, y + 1)
}

/// Every empty cell carries the number of hazards around it.
pub open spec fn counts_consistent(cells: Seq<Cell>, w: int, h: int) -> bool {
    forall|i: int|
        0 <= i < cells.len() && (#[trigger] cells[i]) is Empty ==> cells[i]->Empty_0
            == neighbor_bones(cells, w, h, i % w, i / w)
}

/// The same cells are hazards in both boards.
pub open spec fn same_bones(a: Seq<Cell>, b: Seq<Cell>) -> bool {
    a.len() == b.len() && forall|i: int| 0 <= i < a.len() ==> (#[trigger] a[i] is Bone <==> b[i] is Bone)
}

/// What a cell becomes once the hazards around it are counted.
pub open spec fn counted_cell(cells: Seq<Cell>, w: int, h: int, i: int) -> Cell {
    if cells[i] is Bone {
        Cell::Bone
    } else {
        Cell::Empty(neighbor_bones(cells, w, h, i % w, i / w) as u8)
    }
}

/// The number of elements of `s` that satisfy `f`.
pub open spec fn count_matching<A>(s: Seq<A>, f: spec_fn(A) -> bool) -> nat
    decreases s.len(),
{
    if s.len() == 0 {
        0
    } else {
        count_matching(s.drop_last(), f) + if f(s.last()) {
            1nat
        } else {
            0nat
        }
    }
}

/// The number of hazards on a board.
pub open spec fn bone_count(cells: Seq<Cell>) -> nat {
    count_matching(cells, |c: Cell| c is Bone)
}

/// The number of hidden cells in a visibility bitmap.
pub open spec fn hidden_count(visible: Seq<bool>) -> nat {
    count_matching(visible, |b: bool| !b)
}

/// Writing `a` at `i` changes the count by what leaves and what comes in.
pub proof fn lemma_count_update<A>(s: Seq<A>, i: int, a: A, f: spec_fn(A) -> bool)
    requires
        0 <= i < s.len(),
    ensures
        count_matching(s.update(i, a), f) + (if f(s[i]) {
            1int
        } else {
            0int
        }) == count_matching(s, f) + (if f(a) {
            1int
        } else {
            0int
        }),
    decreases s.len(),
{
    let t = s.update(i, a);
    if i == s.len() - 1 {
        assert(t.drop_last() =~= s.drop_last());
    } else {
        assert(t.drop_last() =~= s.drop_last().update(i, a));
        lemma_count_update(s.drop_last(), i, a, f);
    }
}

/// Sequences that agree on `f` everywhere have the same count.
pub proof fn lemma_count_agree<A>(s: Seq<A>, t: Seq<A>, f: spec_fn(A) -> bool)
    requires
        s.len() == t.len(),
        forall|i: int| 0 <= i < s.len() ==> f(#[trigger] s[i]) == f(t[i]),
    ensures
        count_matching(s, f) == count_matching(t, f),
    decreases s.len(),
{
    if s.len() > 0 {
        lemma_count_agree(s.drop_last(), t.drop_last(), f);
    }
}

/// Where no element satisfies `f`, the count is zero.
pub proof fn lemma_count_none<A>(s: Seq<A>, f: spec_fn(A) -> bool)
    requires
        forall|i: int| 0 <= i < s.len() ==> !f(#[trigger] s[i]),
    ensures
        count_matching(s, f) == 0,
    decreases s.len(),
{
    if s.len() > 0 {
        lemma_count_none(s.drop_last(), f);
    }
}

/// Row-major positions and coordinates determine each other.
proof fn lemma_index(w: int, h: int, x: int, y: int)
    requires
        on_board(w, h, x, y),
    ensures
        0 <= index_of(w, x, y) < w * h,
        index_of(w, x, y) % w == x,
        index_of(w, x, y) / w == y,
{
    lemma_fundamental_div_mod_converse(index_of(w, x, y), w, y, x);
    lemma_mul_inequality(y + 1, h, w);
    lemma_mul_is_distributive_add_other_way(w, y, 1);
    assert(0 <= y * w) by (nonlinear_arith)
        requires
            0 <= y,
            0 <= w,
    ;
}

/// Every cell of the board has its position inside the board.
proof fn lemma_indices_in_range(w: int, h: int)
    ensures
        forall|x: int, y: int|
            on_board(w, h, x, y) ==> 0 <= #[trigger] index_of(w, x, y) < w * h,
{
    assert forall|x: int, y: int| on_board(w, h, x, y) implies 0 <= #[trigger] index_of(w, x, y) < w * h by {
        lemma_index(w, h, x, y);
    }
}

/// The coordinates of a position on the board.
proof fn lemma_coords(w: int, h: int, i: int)
    requires
        0 <= w,
        0 <= h,
        0 <= i < w * h,
    ensures
        on_board(w, h, i % w, i / w),
        index_of(w, i % w, i / w) == i,
{
    assert(0 < w) by (nonlinear_arith)
        requires
            0 <= w,
            0 <= h,
            0 <= i < w * h,
    ;
    lemma_fundamental_div_mod(i, w);
    lemma_mod_bound(i, w);
    lemma_div_pos_is_pos(i, w);
    assert(w * (i / w) == (i / w) * w) by (nonlinear_arith);
    if i / w >= h {
        lemma_mul_inequality(h, i / w, w);
        assert(h * w == w * h) by (nonlinear_arith);
    }
}

/// Whether position `i` lies in the spawn point's exclusion zone: the spawn
/// point and the up to eight cells around it.
pub open spec fn in_zone(w: int, i: int, spawn: Point) -> bool {
    -1 <= i % w - spawn.x <= 1 && -1 <= i / w - spawn.y <= 1
}

/// Whether a hazard may be placed at position `i`: the cell is empty and
/// outside the exclusion zone.
pub open spec fn eligible_cell(cells: Seq<Cell>, w: int, i: int, spawn: Point) -> bool {
    cells[i] is Empty && !in_zone(w, i, spawn)
}

/// The eligible positions below `k`, in increasing order.
pub open spec fn eligible_upto(cells: Seq<Cell>, w: int, spawn: Point, k: int) -> Seq<int>
    decreases k,
{
    if k <= 0 {
        Seq::empty()
    } else {
        let e = eligible_upto(cells, w, spawn, k - 1);
        if eligible_cell(cells, w, k - 1, spawn) {
            e.push(k - 1)
        } else {
            e
        }
    }
}

/// All eligible positions of a board, in increasing order.
pub open spec fn eligible(cells: Seq<Cell>, w: int, spawn: Point) -> Seq<int> {
    eligible_upto(cells, w, spawn, cells.len() as int)
}

/// There are no more eligible positions below `k` than positions.
proof fn lemma_eligible_len(cells: Seq<Cell>, w: int, spawn: Point, k: int)
    requires
        0 <= k,
    ensures
        eligible_upto(cells, w, spawn, k).len() <= k,
    decreases k,
{
    if k > 0 {
        lemma_eligible_len(cells, w, spawn, k - 1);
    }
}

/// Whether position `i` is among the first `k` picks.
pub open spec fn picked(e: Seq<int>, picks: Seq<usize>, k: int, i: int) -> bool {
    exists|j: int| 0 <= j < k && e[picks[j] as int] == i
}

/// The board with a hazard at every picked eligible position.
pub open spec fn placed(cells: Seq<Cell>, e: Seq<int>, picks: Seq<usize>) -> Seq<Cell> {
    Seq::new(
        cells.len(),
        |i: int|
            if picked(e, picks, picks.len() as int, i) {
                Cell::Bone
            } else {
                cells[i]
            },
    )
}

/// The eligible positions are eligible, below `k`, and strictly increasing.
proof fn lemma_eligible_upto(cells: Seq<Cell>, w: int, spawn: Point, k: int)
    requires
        0 <= k <= cells.len(),
    ensures
        forall|j: int|
            0 <= j < eligible_upto(cells, w, spawn, k).len() ==> 0 <= #[trigger] eligible_upto(
                cells,
                w,
                spawn,
                k,
            )[j] < k && eligible_cell(cells, w, eligible_upto(cells, w, spawn, k)[j], spawn),
        forall|a: int, b: int|
            0 <= a < b < eligible_upto(cells, w, spawn, k).len() ==> #[trigger] eligible_upto(
                cells,
                w,
                spawn,
                k,
            )[a] < #[trigger] eligible_upto(cells, w, spawn, k)[b],
    decreases k,
{
    if k > 0 {
        lemma_eligible_upto(cells, w, spawn, k - 1);
        let e = eligible_upto(cells, w, spawn, k - 1);
        assert(eligible_upto(cells, w, spawn, k) == if eligible_cell(cells, w, k - 1, spawn) {
            e.push(k - 1)
        } else {
            e
        });
    }
}

/// Whether positions `i` and `j` are the same cell or touch, diagonals
/// included, on a board of `w` columns.
pub open spec fn adjacent(w: int, i: int, j: int) -> bool {
    -1 <= i % w - j % w <= 1 && -1 <= i / w - j / w <= 1
}

/// `path` leads from `start` to `end` through cells that were hidden, each
/// step to a touching cell, and every cell before the last is empty with a
/// count of zero.
pub open spec fn reveal_path(
    cells: Seq<Cell>,
    visible: Seq<bool>,
    w: int,
    path: Seq<int>,
    start: int,
    end: int,
) -> bool {
    &&& path.len() > 0
    &&& path[0] == start
    &&& path.last() == end
    &&& forall|k: int| 0 <= k < path.len() ==> 0 <= #[trigger] path[k] < cells.len() && !visible[path[k]]
    &&& forall|k: int|
        0 <= k < path.len() - 1 ==> cells[#[trigger] path[k]] == Cell::Empty(0) && adjacent(
            w,
            path[k],
            path[k + 1],
        )
}

/// Whether a reveal from `start` reaches position `i`.
pub open spec fn reached(cells: Seq<Cell>, visible: Seq<bool>, w: int, start: int, i: int) -> bool {
    exists|path: Seq<int>| reveal_path(cells, visible, w, path, start, i)
}

/// The visibility bitmap after a reveal from `start`: what was visible, and
/// every cell that the reveal reaches.
pub open spec fn flooded(cells: Seq<Cell>, visible: Seq<bool>, w: int, start: int) -> Seq<bool> {
    Seq::new(visible.len(), |i: int| visible[i] || reached(cells, visible, w, start, i))
}

/// Where every cell revealed anew that is empty with a count of zero has
/// all its neighbours visible, a reveal path from a visible start ends at a
/// visible cell.
proof fn lemma_path_visible(
    cells: Seq<Cell>,
    v0: Seq<bool>,
    vis: Seq<bool>,
    w: int,
    path: Seq<int>,
    start: int,
    end: int,
)
    requires
        reveal_path(cells, v0, w, path, start, end),
        vis.len() == cells.len(),
        0 <= start < cells.len(),
        vis[start],
        forall|q: int|
            0 <= q < cells.len() && #[trigger] vis[q] && !v0[q] && cells[q] == Cell::Empty(0) ==> forall|j: int|
                0 <= j < cells.len() && adjacent(w, q, j) ==> #[trigger] vis[j],
    ensures
        vis[end],
{
    lemma_path_prefix_visible(cells, v0, vis, w, path, start, end, path.len() - 1);
}

/// The `k`-th cell of such a path is visible.
proof fn lemma_path_prefix_visible(
    cells: Seq<Cell>,
    v0: Seq<bool>,
    vis: Seq<bool>,
    w: int,
    path: Seq<int>,
    start: int,
    end: int,
    k: int,
)
    requires
        reveal_path(cells, v0, w, path, start, end),
        0 <= k < path.len(),
        vis.len() == cells.len(),
        0 <= start < cells.len(),
        vis[start],
        forall|q: int|
            0 <= q < cells.len() && #[trigger] vis[q] && !v0[q] && cells[q] == Cell::Empty(0) ==> forall|j: int|
                0 <= j < cells.len() && adjacent(w, q, j) ==> #[trigger] vis[j],
    ensures
        vis[path[k]],
    decreases k,
{
    if k > 0 {
        lemma_path_prefix_visible(cells, v0, vis, w, path, start, end, k - 1);
        assert(0 <= path[k - 1] < cells.len() && !v0[path[k - 1]]);
        assert(cells[path[k - 1]] == Cell::Empty(0) && adjacent(w, path[k - 1], path[k]));
        assert(0 <= path[k] < cells.len());
    }
}

/// What holds during a reveal from `start` that began on the bitmap `v0`:
/// every cell revealed so far is reached, every queued cell is revealed,
/// and every revealed cell with a count of zero that is neither queued nor
/// `skip` has all its neighbours revealed.
pub open spec fn reveal_inv(
    cells: Seq<Cell>,
    v0: Seq<bool>,
    vis: Seq<bool>,
    stack: Seq<usize>,
    w: int,
    start: int,
    skip: int,
) -> bool {
    &&& vis.len() == cells.len()
    &&& v0.len() == cells.len()
    &&& 0 <= start < cells.len()
    &&& vis[start]
    &&& forall|i: int| 0 <= i < cells.len() && v0[i] ==> #[trigger] vis[i]
    &&& forall|i: int| 0 <= i < cells.len() && #[trigger] vis[i] && !v0[i] ==> reached(cells, v0, w, start, i)
    &&& forall|k: int| 0 <= k < stack.len() ==> #[trigger] stack[k] < cells.len() && vis[stack[k] as int] && !v0[stack[k] as int]
    &&& forall|q: int|
        0 <= q < cells.len() && q != skip && #[trigger] vis[q] && !v0[q] && cells[q] == Cell::Empty(0)
            && !stack.contains(q as usize) ==> forall|j: int|
            0 <= j < cells.len() && adjacent(w, q, j) ==> #[trigger] vis[j]
}

/// The text that a revealed cell shows: `b` for a hazard, `.` for an
/// empty cell with no hazard around it, else the digit of its count.
pub open spec fn cell_symbol(c: Cell) -> Seq<char> {
    match c {
        Cell::Bone => seq!['b'],
        Cell::Empty(n) => if n == 0 {
            seq!['.']
        } else if n == 1 {
            seq!['1']
        } else if n == 2 {
            seq!['2']
        } else if n == 3 {
            seq!['3']
        } else if n == 4 {
            seq!['4']
        } else if n == 5 {
            seq!['5']
        } else if n == 6 {
            seq!['6']
        } else if n == 7 {
            seq!['7']
        } else {
            seq!['8']
        },
    }
}

/// The identifier of the last of the first `k` players that stands at
/// position `i`, if any.
pub open spec fn marker_at(players: Seq<(Seq<char>, Point)>, k: int, w: int, i: int) -> Option<Seq<char>>
    decreases k,
{
    if k <= 0 {
        None
    } else if index_of(w, players[k - 1].1.x as int, players[k - 1].1.y as int) == i {
        Some(players[k - 1].0)
    } else {
        marker_at(players, k - 1, w, i)
    }
}

/// What position `i` of a board shows: the identifier of a player standing
/// there (the last one, where several do), else `#` for a hidden cell, else
/// the cell's symbol.
pub open spec fn rendered(v: DigSiteView, i: int) -> Seq<char> {
    match marker_at(v.players, v.players.len() as int, v.width, i) {
        Some(m) => m,
        None => if v.visible[i] {
            cell_symbol(v.cells[i])
        } else {
            seq!['#']
        },
    }
}

/// The players after the one called `id` tried to move by `delta`: it moves
/// where the new position (computed with clamping) lies on the board, and
/// stays otherwise.
pub open spec fn moved(
    players: Seq<(Seq<char>, Point)>,
    id: Seq<char>,
    delta: Point,
    w: int,
    h: int,
) -> Seq<(Seq<char>, Point)> {
    players.map_values(
        |pl: (Seq<char>, Point)|
            {
                let c = Point { x: sat_i32(pl.1.x + delta.x), y: sat_i32(pl.1.y + delta.y) };
                if pl.0 == id && point_on_board(w, h, c) {
                    (pl.0, c)
                } else {
                    pl
                }
            },
    )
}

/// `n` empty cells with a count of zero.
pub open spec fn empty_cells(n: nat) -> Seq<Cell> {
    Seq::new(n, |i: int| Cell::Empty(0))
}

/// A bitmap of `n` hidden cells.
pub open spec fn all_hidden(n: nat) -> Seq<bool> {
    Seq::new(n, |i: int| false)
}

/// Whether one of `players` is called `id`.
pub open spec fn has_id(players: Seq<(Seq<char>, Point)>, id: Seq<char>) -> bool {
    exists|k: int| 0 <= k < players.len() && (#[trigger] players[k]).0 == id
}

/// Whether one of the first `k` names of `list` is `id`.
pub open spec fn listed(list: Seq<String>, k: int, id: Seq<char>) -> bool {
    exists|j: int| 0 <= j < k && (#[trigger] list[j])@ == id
}

/// What a freshly generated board of `size` with `bones` hazards and spawn
/// point `spawn` is: exactly `bones` hazards, none in the exclusion zone,
/// every empty cell counting the hazards around it, and the cells that a
/// reveal from the spawn point reaches revealed.
pub open spec fn generated(v: DigSiteView, size: Size, bones: nat, spawn: Point) -> bool {
    &&& v.width == size.x
    &&& v.height == size.y
    &&& v.spawn == Some(spawn)
    &&& bone_count(v.cells) == bones
    &&& forall|i: int| 0 <= i < v.cells.len() && #[trigger] v.cells[i] is Bone ==> !in_zone(v.width, i, spawn)
    &&& counts_consistent(v.cells, v.width, v.height)
    &&& v.visible == flooded(v.cells, all_hidden(v.cells.len()), v.width, index_of(v.width, spawn.x as int, spawn.y as int))
}

/// 1 where `(x, y)` is a hazard at a position below `k`, 0 elsewhere.
pub open spec fn bone_before(cells: Seq<Cell>, w: int, h: int, x: int, y: int, k: int) -> int {
    if on_board(w, h, x, y) && index_of(w, x, y) < k && cells[index_of(w, x, y)] is Bone {
        1
    } else {
        0
    }
}

/// The number of hazards at positions below `k` among the up to eight
/// cells around `(x, y)`.
pub open spec fn neighbor_bones_before(cells: Seq<Cell>, w: int, h: int, x: int, y: int, k: int) -> int {
    bone_before(cells, w, h, x - 1, y - 1, k) + bone_before(cells, w, h, x, y - 1, k) + bone_before(
        cells,
        w,
        h,
        x + 1,
        y - 1,
        k,
    ) + bone_before(cells, w, h, x - 1, y, k) + bone_before(cells, w, h, x + 1, y, k) + bone_before(
        cells,
        w,
        h,
        x - 1,
        y + 1,
        k,
    ) + bone_before(cells, w, h, x, y + 1, k) + bone_before(cells, w, h, x + 1, y + 1, k)
}

/// Cell `c` once the hazards at positions below `k` have been counted.
pub open spec fn partly_counted(cells: Seq<Cell>, w: int, h: int, c: int, k: int) -> Cell {
    if cells[c] is Bone {
        Cell::Bone
    } else {
        Cell::Empty(neighbor_bones_before(cells, w, h, c % w, c / w, k) as u8)
    }
}

/// Cell `c` while the hazard at `k` is being counted: one more where `done`.
pub open spec fn bumped(cells: Seq<Cell>, w: int, h: int, c: int, k: int, done: bool) -> Cell {
    if cells[c] is Bone {
        Cell::Bone
    } else {
        Cell::Empty(
            (neighbor_bones_before(cells, w, h, c % w, c / w, k) + if done {
                1int
            } else {
                0int
            }) as u8,
        )
    }
}

/// Counting the position `k` adds one around cell `c` exactly where `k`
/// holds a hazard next to `c`.
proof fn lemma_bones_before_step(cells: Seq<Cell>, w: int, h: int, c: int, k: int)
    requires
        0 <= w,
        0 <= h,
        w * h == cells.len(),
        0 <= c < cells.len(),
        0 <= k < cells.len(),
    ensures
        neighbor_bones_before(cells, w, h, c % w, c / w, k + 1) == neighbor_bones_before(cells, w, h, c % w, c / w, k)
            + if cells[k] is Bone && c != k && -1 <= c % w - k % w <= 1 && -1 <= c / w - k / w <= 1 {
            1int
        } else {
            0int
        },
{
    lemma_coords(w, h, c);
    lemma_coords(w, h, k);
    let cx = c % w;
    let cy = c / w;
    lemma_same_position(w, h, cx - 1, cy - 1, k);
    lemma_same_position(w, h, cx, cy - 1, k);
    lemma_same_position(w, h, cx + 1, cy - 1, k);
    lemma_same_position(w, h, cx - 1, cy, k);
    lemma_same_position(w, h, cx + 1, cy, k);
    lemma_same_position(w, h, cx - 1, cy + 1, k);
    lemma_same_position(w, h, cx, cy + 1, k);
    lemma_same_position(w, h, cx + 1, cy + 1, k);
}

/// A cell of the board is at position `k` exactly where its coordinates
/// are those of `k`.
proof fn lemma_same_position(w: int, h: int, x: int, y: int, k: int)
    requires
        0 <= w,
        0 <= h,
        0 <= k < w * h,
    ensures
        on_board(w, h, x, y) ==> (index_of(w, x, y) == k <==> (x == k % w && y == k / w)),
{
    lemma_coords(w, h, k);
    if on_board(w, h, x, y) {
        lemma_index(w, h, x, y);
    }
}

/// A player: an identifier and a position.
#[derive(Debug)]
pub struct Player {
    pub id: String,
    pub pos: Point,
}

/// What a board holds, as mathematical values.
pub struct DigSiteView {
    pub width: int,
    pub height: int,
    pub cells: Seq<Cell>,
    pub visible: Seq<bool>,
    pub players: Seq<(Seq<char>, Point)>,
    pub spawn: Option<Point>,
}

/// Whether `p` lies on a board of `w` columns and `h` rows.
pub open spec fn point_on_board(w: int, h: int, p: Point) -> bool {
    on_board(w, h, p.x as int, p.y as int)
}

/// No two players share an identifier.
pub open spec fn ids_unique(players: Seq<(Seq<char>, Point)>) -> bool {
    forall|a: int, b: int|
        0 <= a < players.len() && 0 <= b < players.len() && a != b ==> (#[trigger] players[a]).0
            != (#[trigger] players[b]).0
}

/// The invariant of a board.
pub open spec fn board_ok(v: DigSiteView) -> bool {
    &&& 0 <= v.width <= i32::MAX
    &&& 0 <= v.height <= i32::MAX
    &&& v.width * v.height == v.cells.len()
    &&& v.cells.len() <= MAX_BITS
    &&& v.visible.len() == v.cells.len()
    &&& counts_consistent(v.cells, v.width, v.height)
    &&& ids_unique(v.players)
    &&& forall|k: int|
        0 <= k < v.players.len() ==> point_on_board(v.width, v.height, (#[trigger] v.players[k]).1)
    &&& v.spawn matches Some(s) ==> point_on_board(v.width, v.height, s)
}

/// One board with its cells, which of them are revealed, and its players.
#[derive(Debug)]
pub struct DigSite {
    dimensions: Size,
    board: Vec<Cell>,
    state: Bits,
    players: Vec<Player>,
    spawn_pos: Option<Point>,
}

impl View for DigSite {
    type V = DigSiteView;

    closed spec fn view(&self) -> DigSiteView {
        DigSiteView {
            width: self.dimensions.x as int,
            height: self.dimensions.y as int,
            cells: self.board@,
            visible: bits_of(self.state),
            players: self.players@.map_values(|p: Player| (p.id@, p.pos)),
            spawn: self.spawn_pos,
        }
    }
}

impl DigSite {
    pub open spec fn wf(&self) -> bool {
        board_ok(self@)
    }

    /// An empty board of `size`: every cell empty with a count of zero, every
    /// cell hidden, no players and no spawn point.
    pub fn new(size: Size) -> (r: DigSite)
        requires
            size.x <= i32::MAX,
            size.y <= i32::MAX,
            size.x * size.y <= MAX_BITS,
        ensures
            r.wf(),
            r@.width == size.x,
            r@.height == size.y,
            r@.cells == Seq::new((size.x * size.y) as nat, |i: int| Cell::Empty(0)),
            r@.visible == Seq::new((size.x * size.y) as nat, |i: int| false),
            r@.players.len() == 0,
            r@.spawn is None,
    {
        let count = size.count();
        let board = DigSite::build_board(count);
        let state = bits_repeat(false, count);
        let r = DigSite { dimensions: size, board, state, players: Vec::new(), spawn_pos: None };
        proof {
            assert(r@.players =~= Seq::<(Seq<char>, Point)>::empty());
            lemma_indices_in_range(size.x as int, size.y as int);
            assert forall|i: int| 0 <= i < r@.cells.len() && (#[trigger] r@.cells[i]) is Empty implies
                r@.cells[i]->Empty_0 == neighbor_bones(r@.cells, r@.width, r@.height, i % r@.width, i / r@.width) by {}
        }
        r
    }

    /// `count` empty cells, each with a count of zero.
    fn build_board(count: usize) -> (r: Vec<Cell>)
        ensures
            r@ == Seq::new(count as nat, |i: int| Cell::Empty(0)),
    {
        let mut board: Vec<Cell> = Vec::new();
        let mut i: usize = 0;
        while i < count
            invariant
                i <= count,
                board@ == Seq::new(i as nat, |k: int| Cell::Empty(0)),
            decreases count - i,
        {
            board.push(Cell::Empty(0));
            i += 1;
        }
        board
    }

    /// Resets the count of every empty cell to zero, leaving the hazards
    /// where they are.
    fn clear_cell_state(&mut self)
        ensures
            final(self).dimensions == old(self).dimensions,
            final(self).state == old(self).state,
            final(self).players == old(self).players,
            final(self).spawn_pos == old(self).spawn_pos,
            final(self).board@ == Seq::new(
                old(self).board@.len(),
                |i: int|
                    if old(self).board@[i] is Bone {
                        Cell::Bone
                    } else {
                        Cell::Empty(0)
                    },
            ),
    {
        let n = self.board.len();
        let mut i: usize = 0;
        while i < n
            invariant
                self.dimensions == old(self).dimensions,
                self.state == old(self).state,
                self.players == old(self).players,
                self.spawn_pos == old(self).spawn_pos,
                n == old(self).board@.len(),
                self.board@.len() == n,
                i <= n,
                forall|j: int|
                    0 <= j < n ==> #[trigger] self.board@[j] == if j < i {
                        if old(self).board@[j] is Bone {
                            Cell::Bone
                        } else {
                            Cell::Empty(0)
                        }
                    } else {
                        old(self).board@[j]
                    },
            decreases n - i,
        {
            if let Cell::Empty(_) = self.board[i] {
                self.board.set(i, Cell::Empty(0));
            }
            i += 1;
        }
        proof {
            assert(self.board@ =~= Seq::new(
                old(self).board@.len(),
                |i: int|
                    if old(self).board@[i] is Bone {
                        Cell::Bone
                    } else {
                        Cell::Empty(0)
                    },
            ));
        }
    }

    /// Sets every empty cell to the number of hazards around it, leaving
    /// the hazards where they are: the counts start at zero, and each
    /// hazard adds one to every empty cell around it.
    fn apply_cell_state(&mut self)
        requires
            old(self).dimensions.x <= i32::MAX,
            old(self).dimensions.y <= i32::MAX,
            old(self).dimensions.x * old(self).dimensions.y == old(self).board@.len(),
        ensures
            final(self).dimensions == old(self).dimensions,
            final(self).state == old(self).state,
            final(self).players == old(self).players,
            final(self).spawn_pos == old(self).spawn_pos,
            final(self).board@ == Seq::new(
                old(self).board@.len(),
                |i: int|
                    counted_cell(
                        old(self).board@,
                        old(self).dimensions.x as int,
                        old(self).dimensions.y as int,
                        i,
                    ),
            ),
            same_bones(old(self).board@, final(self).board@),
            counts_consistent(
                final(self).board@,
                final(self).dimensions.x as int,
                final(self).dimensions.y as int,
            ),
    {
        self.clear_cell_state();
        let w = self.dimensions.x;
        let h = self.dimensions.y;
        let n = self.board.len();
        let ghost orig = old(self).board@;
        let ghost wi = w as int;
        let ghost hi = h as int;
        let mut i: usize = 0;
        while i < n
            invariant
                self.dimensions == old(self).dimensions,
                self.state == old(self).state,
                self.players == old(self).players,
                self.spawn_pos == old(self).spawn_pos,
                w == self.dimensions.x,
                h == self.dimensions.y,
                wi == w,
                hi == h,
                w <= i32::MAX,
                h <= i32::MAX,
                n == orig.len(),
                wi * hi == n,
                self.board@.len() == n,
                i <= n,
                forall|c: int| 0 <= c < n ==> #[trigger] self.board@[c] == partly_counted(orig, wi, hi, c, i as int),
            decreases n - i,
        {
            if let Cell::Bone = self.board[i] {
                proof {
                    lemma_coords(wi, hi, i as int);
                }
                let ix = i % w;
                let iy = i / w;
                let y0 = if iy == 0 { 0 } else { iy - 1 };
                let y1 = if iy + 1 < h { iy + 1 } else { iy };
                let x0 = if ix == 0 { 0 } else { ix - 1 };
                let x1 = if ix + 1 < w { ix + 1 } else { ix };
                let mut y = y0;
                while y <= y1
                    invariant
                        self.dimensions == old(self).dimensions,
                        self.state == old(self).state,
                        self.players == old(self).players,
                        self.spawn_pos == old(self).spawn_pos,
                        w == self.dimensions.x,
                        h == self.dimensions.y,
                        wi == w,
                        hi == h,
                        w <= i32::MAX,
                        h <= i32::MAX,
                        n == orig.len(),
                        wi * hi == n,
                        self.board@.len() == n,
                        0 <= i < n,
                        orig[i as int] is Bone,
                        ix == i as int % wi,
                        iy == i as int / wi,
                        y0 <= y <= y1 + 1,
                        y1 < h,
                        x0 <= x1 < w,
                        y0 + 1 >= iy && y1 <= iy + 1 && x0 + 1 >= ix && x1 <= ix + 1,
                        y0 == 0 || y0 + 1 == iy,
                        y1 + 1 == h || y1 == iy + 1,
                        x0 == 0 || x0 + 1 == ix,
                        x1 + 1 == w || x1 == ix + 1,
                        forall|c: int|
                            0 <= c < n ==> #[trigger] self.board@[c] == bumped(
                                orig,
                                wi,
                                hi,
                                c,
                                i as int,
                                y0 <= c / wi < y && x0 <= c % wi <= x1,
                            ),
                    decreases y1 + 1 - y,
                {
                    let mut x = x0;
                    while x <= x1
                        invariant
                            self.dimensions == old(self).dimensions,
                            self.state == old(self).state,
                            self.players == old(self).players,
                            self.spawn_pos == old(self).spawn_pos,
                            w == self.dimensions.x,
                            h == self.dimensions.y,
                            wi == w,
                            hi == h,
                            w <= i32::MAX,
                            h <= i32::MAX,
                            n == orig.len(),
                            wi * hi == n,
                            self.board@.len() == n,
                            0 <= i < n,
                            orig[i as int] is Bone,
                            ix == i as int % wi,
                            iy == i as int / wi,
                            y0 <= y <= y1,
                            y1 < h,
                            x0 <= x <= x1 + 1,
                            x1 < w,
                            forall|c: int|
                                0 <= c < n ==> #[trigger] self.board@[c] == bumped(
                                    orig,
                                    wi,
                                    hi,
                                    c,
                                    i as int,
                                    (y0 <= c / wi < y && x0 <= c % wi <= x1) || (c / wi == y && x0 <= c % wi < x),
                                ),
                        decreases x1 + 1 - x,
                    {
                        proof {
                            lemma_index(wi, hi, x as int, y as int);
                        }
                        let j = y * w + x;
                        let ghost before = self.board@;
                        if let Cell::Empty(v) = self.board[j] {
                            proof {
                                lemma_coords(wi, hi, j as int);
                                assert(before[j as int] == bumped(orig, wi, hi, j as int, i as int, false));
                            }
                            self.board.set(j, Cell::Empty(v + 1));
                        }
                        proof {
                            assert forall|c: int| 0 <= c < n implies #[trigger] self.board@[c] == bumped(
                                orig,
                                wi,
                                hi,
                                c,
                                i as int,
                                (y0 <= c / wi < y && x0 <= c % wi <= x1) || (c / wi == y && x0 <= c % wi < x + 1),
                            ) by {
                                lemma_coords(wi, hi, c);
                                if c != j {
                                    assert(before[c] == self.board@[c]);
                                    assert(!(c / wi == y && c % wi == x));
                                }
                            }
                        }
                        x += 1;
                    }
                    y += 1;
                }
                proof {
                    assert forall|c: int| 0 <= c < n implies #[trigger] self.board@[c] == partly_counted(orig, wi, hi, c, i + 1) by {
                        lemma_coords(wi, hi, c);
                        lemma_bones_before_step(orig, wi, hi, c, i as int);
                    }
                }
            } else {
                proof {
                    assert forall|c: int| 0 <= c < n implies #[trigger] self.board@[c] == partly_counted(orig, wi, hi, c, i + 1) by {
                        lemma_bones_before_step(orig, wi, hi, c, i as int);
                    }
                }
            }
            i += 1;
        }
        proof {
            lemma_indices_in_range(wi, hi);
            assert forall|c: int| 0 <= c < n implies #[trigger] self.board@[c] == counted_cell(orig, wi, hi, c) by {
                lemma_coords(wi, hi, c);
            }
            assert(self.board@ =~= Seq::new(orig.len(), |c: int| counted_cell(orig, wi, hi, c)));
            assert forall|c: int| 0 <= c < orig.len() implies (#[trigger] orig[c] is Bone <==> self.board@[c] is Bone) by {}
            assert forall|c: int| 0 <= c < self.board@.len() && (#[trigger] self.board@[c]) is Empty implies
                self.board@[c]->Empty_0 == neighbor_bones(self.board@, wi, hi, c % wi, c / wi) by {
                assert(neighbor_bones(self.board@, wi, hi, c % wi, c / wi) == neighbor_bones(orig, wi, hi, c % wi, c / wi));
            }
        }
    }

    /// The positions where a hazard may go, in increasing order: empty cells
    /// outside the exclusion zone around `initial_pos`.
    fn eligible_positions(&self, initial_pos: Point) -> (r: Vec<usize>)
        requires
            self.wf(),
        ensures
            r@.len() == eligible(self@.cells, self@.width, initial_pos).len(),
            forall|j: int|
                0 <= j < r@.len() ==> #[trigger] r@[j] as int == eligible(
                    self@.cells,
                    self@.width,
                    initial_pos,
                )[j],
    {
        let w = self.dimensions.x;
        let h = self.dimensions.y;
        let n = self.board.len();
        let zone = Area::around_point(initial_pos, 1);
        let ghost cells = self.board@;
        let ghost wi = w as int;
        let mut r: Vec<usize> = Vec::new();
        let mut i: usize = 0;
        while i < n
            invariant
                self.wf(),
                cells == self@.cells,
                wi == self@.width,
                w == self.dimensions.x,
                h == self.dimensions.y,
                n == cells.len(),
                i <= n,
                zone.0.x == sat_i32(initial_pos.x - 1),
                zone.0.y == sat_i32(initial_pos.y - 1),
                zone.1.x == sat_i32(initial_pos.x + 1),
                zone.1.y == sat_i32(initial_pos.y + 1),
                r@.len() == eligible_upto(cells, wi, initial_pos, i as int).len(),
                forall|j: int|
                    0 <= j < r@.len() ==> #[trigger] r@[j] as int == eligible_upto(
                        cells,
                        wi,
                        initial_pos,
                        i as int,
                    )[j],
            decreases n - i,
        {
            proof {
                lemma_coords(wi, h as int, i as int);
            }
            let p = Point { x: (i % w) as i32, y: (i / w) as i32 };
            let empty = match self.board[i] {
                Cell::Bone => false,
                Cell::Empty(_) => true,
            };
            if empty && !zone.contains(p) {
                r.push(i);
            }
            i += 1;
        }
        r
    }

    /// Places a hazard at each picked eligible position (`picks` index the
    /// list of eligible positions, see [`eligible`]), then counts the
    /// hazards around every empty cell.
    ///
    /// Fails with `OutOfRange`, leaving the board as it was, when a pick
    /// is not an index of that list.
    pub fn assign_sampled_bones(&mut self, initial_pos: Point, picks: &Vec<usize>) -> (r: Result<(), GameError>)
        requires
            old(self).wf(),
        ensures
            final(self).wf(),
            ({
                let e = eligible(old(self)@.cells, old(self)@.width, initial_pos);
                &&& r is Ok <==> forall|k: int| 0 <= k < picks@.len() ==> picks@[k] < e.len()
                &&& r is Err ==> r == Err::<(), GameError>(GameError::OutOfRange) && *final(self) == *old(self)
                &&& r is Ok ==> final(self)@ == (DigSiteView {
                    cells: Seq::new(
                        old(self)@.cells.len(),
                        |i: int| counted_cell(placed(old(self)@.cells, e, picks@), old(self)@.width, old(self)@.height, i),
                    ),
                    ..old(self)@
                })
                &&& r is Ok && picks@.no_duplicates() ==> bone_count(final(self)@.cells) == bone_count(old(self)@.cells) + picks@.len()
            }),
    {
        let eligible_list = self.eligible_positions(initial_pos);
        let ghost e = eligible(self@.cells, self@.width, initial_pos);
        let mut k: usize = 0;
        while k < picks.len()
            invariant
                *self == *old(self),
                old(self).wf(),
                e == eligible(old(self)@.cells, old(self)@.width, initial_pos),
                k <= picks@.len(),
                eligible_list@.len() == e.len(),
                forall|j: int| 0 <= j < k ==> picks@[j] < e.len(),
            decreases picks@.len() - k,
        {
            if picks[k] >= eligible_list.len() {
                return Err(GameError::OutOfRange);
            }
            k += 1;
        }
        let ghost old_cells = self.board@;
        let ghost n = old_cells.len();
        proof {
            lemma_eligible_upto(old_cells, self@.width, initial_pos, n as int);
        }
        let mut k: usize = 0;
        while k < picks.len()
            invariant
                old(self).wf(),
                old_cells == old(self).board@,
                self.dimensions == old(self).dimensions,
                self.state == old(self).state,
                self.players == old(self).players,
                self.spawn_pos == old(self).spawn_pos,
                self.board@.len() == n,
                old_cells.len() == n,
                k <= picks@.len(),
                e == eligible(old_cells, self@.width, initial_pos),
                eligible_list@.len() == e.len(),
                forall|j: int| 0 <= j < eligible_list@.len() ==> #[trigger] eligible_list@[j] as int == e[j],
                forall|j: int| 0 <= j < picks@.len() ==> #[trigger] picks@[j] < e.len(),
                forall|j: int| 0 <= j < e.len() ==> 0 <= #[trigger] e[j] < n && eligible_cell(old_cells, self@.width, e[j], initial_pos),
                forall|a: int, b: int| 0 <= a < b < e.len() ==> #[trigger] e[a] < #[trigger] e[b],
                forall|i: int| 0 <= i < n ==> #[trigger] self.board@[i] == if picked(e, picks@, k as int, i) {
                    Cell::Bone
                } else {
                    old_cells[i]
                },
                picks@.no_duplicates() ==> bone_count(self.board@) == bone_count(old_cells) + k,
            decreases picks@.len() - k,
        {
            let pos = eligible_list[picks[k]];
            let ghost before = self.board@;
            proof {
                if picked(e, picks@, k as int, pos as int) {
                    let j = choose|j: int| 0 <= j < k && e[picks@[j] as int] == pos as int;
                    if picks@[j] != picks@[k as int] {
                        if picks@[j] < picks@[k as int] {
                            assert(e[picks@[j] as int] < e[picks@[k as int] as int]);
                        } else {
                            assert(e[picks@[k as int] as int] < e[picks@[j] as int]);
                        }
                    }
                    assert(!picks@.no_duplicates() || j == k);
                }
                lemma_count_update(before, pos as int, Cell::Bone, |c: Cell| c is Bone);
            }
            self.board.set(pos, Cell::Bone);
            proof {
                assert forall|i: int| 0 <= i < n implies #[trigger] self.board@[i] == if picked(e, picks@, k + 1, i) {
                    Cell::Bone
                } else {
                    old_cells[i]
                } by {
                    if i == pos {
                        assert(picked(e, picks@, k + 1, i));
                    } else if picked(e, picks@, k + 1, i) {
                        let j = choose|j: int| 0 <= j < k + 1 && e[picks@[j] as int] == i;
                        assert(picked(e, picks@, k as int, i));
                    } else {
                        if picked(e, picks@, k as int, i) {
                            let j = choose|j: int| 0 <= j < k && e[picks@[j] as int] == i;
                            assert(picked(e, picks@, k + 1, i));
                        }
                    }
                }
            }
            k += 1;
        }
        proof {
            assert(self.board@ =~= placed(old_cells, e, picks@));
        }
        let ghost mid = *self;
        self.apply_cell_state();
        proof {
            assert(self@.players == old(self)@.players);
            let e = eligible(old(self)@.cells, old(self)@.width, initial_pos);
            assert(mid.board@ == placed(old(self)@.cells, e, picks@));
            assert(self@.cells =~= Seq::new(
                old(self)@.cells.len(),
                |i: int| counted_cell(placed(old(self)@.cells, e, picks@), old(self)@.width, old(self)@.height, i),
            ));
            lemma_count_agree(mid.board@, self.board@, |c: Cell| c is Bone);
        }
        Ok(())
    }

    /// Places `bones` hazards at distinct positions drawn at random from the
    /// empty cells outside the exclusion zone around `initial_pos`, then
    /// counts the hazards around every empty cell.
    ///
    /// Fails with `Configuration`, leaving the board as it was, when fewer
    /// than `bones` positions are eligible.
    pub fn assign_bones(&mut self, rng: &mut StdRng, bones: usize, initial_pos: Point) -> (r: Result<(), GameError>)
        requires
            old(self).wf(),
        ensures
            final(self).wf(),
            r is Err <==> bones > eligible(old(self)@.cells, old(self)@.width, initial_pos).len(),
            r is Err ==> r == Err::<(), GameError>(GameError::Configuration) && *final(self) == *old(self),
            r is Ok ==> {
                &&& bone_count(final(self)@.cells) == bone_count(old(self)@.cells) + bones
                &&& final(self)@.cells.len() == old(self)@.cells.len()
                &&& forall|i: int| 0 <= i < old(self)@.cells.len() ==> (#[trigger] final(self)@.cells[i] is Bone ==> old(self)@.cells[i] is Bone || eligible_cell(old(self)@.cells, old(self)@.width, i, initial_pos))
                &&& forall|i: int| 0 <= i < old(self)@.cells.len() ==> (#[trigger] old(self)@.cells[i] is Bone ==> final(self)@.cells[i] is Bone)
                &&& final(self)@ == (DigSiteView { cells: final(self)@.cells, ..old(self)@ })
            },
    {
        let eligible_count = self.eligible_positions(initial_pos).len();
        proof {
            lemma_eligible_len(self@.cells, self@.width, initial_pos, self@.cells.len() as int);
            assert(MAX_BITS <= u32::MAX);
        }
        if bones > eligible_count {
            return Err(GameError::Configuration);
        }
        let picks = sample_indices(rng, eligible_count, bones);
        let ghost e = eligible(self@.cells, self@.width, initial_pos);
        let ghost before = self@.cells;
        proof {
            lemma_eligible_upto(before, self@.width, initial_pos, before.len() as int);
        }
        let res = self.assign_sampled_bones(initial_pos, &picks);
        proof {
            let p = placed(before, e, picks@);
            assert forall|i: int| 0 <= i < before.len() && #[trigger] self@.cells[i] is Bone implies before[i] is Bone || eligible_cell(before, old(self)@.width, i, initial_pos) by {
                assert(self@.cells[i] == counted_cell(p, old(self)@.width, old(self)@.height, i));
                if picked(e, picks@, picks@.len() as int, i) {
                    let j = choose|j: int| 0 <= j < picks@.len() && e[picks@[j] as int] == i;
                    assert(picks@[j] < e.len());
                }
            }
            assert forall|i: int| 0 <= i < before.len() && #[trigger] before[i] is Bone implies self@.cells[i] is Bone by {
                assert(self@.cells[i] == counted_cell(p, old(self)@.width, old(self)@.height, i));
            }
        }
        res
    }

    /// Reveals the cells that a reveal from `p` reaches: `p` itself if it
    /// is hidden and, while the cells reached are empty with a count of
    /// zero, every hidden cell around them. Cells already visible stop the
    /// reveal, so repeating it from the same point changes nothing.
    ///
    /// Fails with `OutOfRange`, leaving the board as it was, when `p` lies
    /// off the board.
    pub fn flood_fill_visibility(&mut self, p: Point) -> (r: Result<(), GameError>)
        requires
            old(self).wf(),
        ensures
            final(self).wf(),
            !point_on_board(old(self)@.width, old(self)@.height, p) ==> r == Err::<(), GameError>(GameError::OutOfRange)
                && *final(self) == *old(self),
            point_on_board(old(self)@.width, old(self)@.height, p) ==> r is Ok && final(self)@ == (DigSiteView {
                visible: flooded(old(self)@.cells, old(self)@.visible, old(self)@.width, index_of(old(self)@.width, p.x as int, p.y as int)),
                ..old(self)@
            }),
    {
        let w = self.dimensions.x;
        let h = self.dimensions.y;
        if p.x < 0 || p.y < 0 || p.x as usize >= w || p.y as usize >= h {
            return Err(GameError::OutOfRange);
        }
        let ghost wi = w as int;
        let ghost hi = h as int;
        let ghost cells = self@.cells;
        let ghost v0 = self@.visible;
        let ghost n = cells.len() as int;
        proof {
            lemma_index(wi, hi, p.x as int, p.y as int);
        }
        let start = p.y as usize * w + p.x as usize;
        if bits_get(&self.state, start) {
            proof {
                assert forall|i: int| 0 <= i < n implies !reached(cells, v0, wi, start as int, i) by {
                    if reached(cells, v0, wi, start as int, i) {
                        let path = choose|path: Seq<int>| reveal_path(cells, v0, wi, path, start as int, i);
                        assert(path[0] == start);
                    }
                }
                assert(flooded(cells, v0, wi, start as int) =~= v0);
            }
            return Ok(());
        }
        proof {
            let path = seq![start as int];
            assert(reveal_path(cells, v0, wi, path, start as int, start as int));
        }
        bits_set(&mut self.state, start, true);
        let mut stack: Vec<usize> = Vec::new();
        stack.push(start);
        proof {
            let vis = bits_of(self.state);
            assert(stack@[0] == start);
            assert forall|q: int|
                0 <= q < n && q != -1 && #[trigger] vis[q] && !v0[q] && cells[q] == Cell::Empty(0)
                    && !stack@.contains(q as usize) implies forall|j: int|
                    0 <= j < n && adjacent(wi, q, j) ==> #[trigger] vis[j] by {
                assert(q == start);
            }
        }
        while stack.len() > 0
            invariant
                old(self).wf(),
                self.dimensions == old(self).dimensions,
                self.board == old(self).board,
                self.players == old(self).players,
                self.spawn_pos == old(self).spawn_pos,
                w == self.dimensions.x,
                h == self.dimensions.y,
                wi == w,
                hi == h,
                cells == old(self)@.cells,
                v0 == old(self)@.visible,
                n == cells.len(),
                reveal_inv(cells, v0, bits_of(self.state), stack@, wi, start as int, -1),
            decreases hidden_count(bits_of(self.state)), stack@.len(),
        {
            let ghost pre = stack@;
            let q = match stack.pop() {
                Some(q) => q,
                None => 0,
            };
            let ghost hidden_at_pop = hidden_count(bits_of(self.state));
            let ghost len_at_pop = stack@.len();
            proof {
                let vis = bits_of(self.state);
                assert(reveal_inv(cells, v0, vis, stack@, wi, start as int, q as int)) by {
                    assert forall|qq: int|
                        0 <= qq < n && qq != q && #[trigger] vis[qq] && !v0[qq] && cells[qq] == Cell::Empty(0)
                            && !stack@.contains(qq as usize) implies forall|j: int|
                            0 <= j < n && adjacent(wi, qq, j) ==> #[trigger] vis[j] by {
                        assert(pre == stack@.push(q));
                        if pre.contains(qq as usize) {
                            let k = choose|k: int| 0 <= k < pre.len() && pre[k] == qq as usize;
                            if k < stack@.len() {
                                assert(stack@[k] == qq as usize);
                            }
                        }
                    }
                }
            }
            if self.board[q] == Cell::Empty(0) {
                proof {
                    lemma_coords(wi, hi, q as int);
                }
                let qx = q % w;
                let qy = q / w;
                let y0 = if qy == 0 { 0 } else { qy - 1 };
                let y1 = if qy + 1 < h { qy + 1 } else { qy };
                let x0 = if qx == 0 { 0 } else { qx - 1 };
                let x1 = if qx + 1 < w { qx + 1 } else { qx };
                let ghost qpath = choose|path: Seq<int>| reveal_path(cells, v0, wi, path, start as int, q as int);
                let mut y = y0;
                while y <= y1
                    invariant
                        old(self).wf(),
                        self.dimensions == old(self).dimensions,
                        self.board == old(self).board,
                        self.players == old(self).players,
                        self.spawn_pos == old(self).spawn_pos,
                        w == self.dimensions.x,
                        h == self.dimensions.y,
                        wi == w,
                        hi == h,
                        cells == old(self)@.cells,
                        v0 == old(self)@.visible,
                        n == cells.len(),
                        0 <= q < n,
                        qx == q as int % wi,
                        qy == q as int / wi,
                        cells[q as int] == Cell::Empty(0),
                        reveal_path(cells, v0, wi, qpath, start as int, q as int),
                        y0 <= y <= y1 + 1,
                        y1 < h,
                        x0 <= x1 < w,
                        y0 + 1 >= qy && y1 <= qy + 1 && x0 + 1 >= qx && x1 <= qx + 1,
                        y0 == 0 || y0 + 1 == qy,
                        y1 + 1 == h || y1 == qy + 1,
                        x0 == 0 || x0 + 1 == qx,
                        x1 + 1 == w || x1 == qx + 1,
                        reveal_inv(cells, v0, bits_of(self.state), stack@, wi, start as int, q as int),
                        forall|xx: int, yy: int|
                            x0 <= xx <= x1 && y0 <= yy < y ==> #[trigger] bits_of(self.state)[index_of(wi, xx, yy)],
                        hidden_count(bits_of(self.state)) + stack@.len() == hidden_at_pop + len_at_pop,
                        hidden_count(bits_of(self.state)) <= hidden_at_pop,
                    decreases y1 + 1 - y,
                {
                    let mut x = x0;
                    while x <= x1
                        invariant
                            old(self).wf(),
                            self.dimensions == old(self).dimensions,
                            self.board == old(self).board,
                            self.players == old(self).players,
                            self.spawn_pos == old(self).spawn_pos,
                            w == self.dimensions.x,
                            h == self.dimensions.y,
                            wi == w,
                            hi == h,
                            cells == old(self)@.cells,
                            v0 == old(self)@.visible,
                            n == cells.len(),
                            0 <= q < n,
                            qx == q as int % wi,
                            qy == q as int / wi,
                            cells[q as int] == Cell::Empty(0),
                            reveal_path(cells, v0, wi, qpath, start as int, q as int),
                            y0 <= y <= y1,
                            y1 < h,
                            x0 <= x <= x1 + 1,
                            x1 < w,
                            y0 + 1 >= qy && y1 <= qy + 1 && x0 + 1 >= qx && x1 <= qx + 1,
                            reveal_inv(cells, v0, bits_of(self.state), stack@, wi, start as int, q as int),
                            forall|xx: int, yy: int|
                                x0 <= xx <= x1 && y0 <= yy < y ==> #[trigger] bits_of(self.state)[index_of(wi, xx, yy)],
                            forall|xx: int|
                                x0 <= xx < x ==> #[trigger] bits_of(self.state)[index_of(wi, xx, y as int)],
                            hidden_count(bits_of(self.state)) + stack@.len() == hidden_at_pop + len_at_pop,
                            hidden_count(bits_of(self.state)) <= hidden_at_pop,
                        decreases x1 + 1 - x,
                    {
                        proof {
                            lemma_index(wi, hi, x as int, y as int);
                            lemma_indices_in_range(wi, hi);
                        }
                        let j = y * w + x;
                        self.reveal_one(&mut stack, j, Ghost(q as int), Ghost(qpath), Ghost(start as int), Ghost(v0));
                        x += 1;
                    }
                    y += 1;
                }
                proof {
                    let vis = bits_of(self.state);
                    assert forall|j: int| 0 <= j < n && adjacent(wi, q as int, j) implies #[trigger] vis[j] by {
                        lemma_coords(wi, hi, j);
                        assert(vis[index_of(wi, j % wi, j / wi)]);
                    }
                }
            }
            proof {
                let vis = bits_of(self.state);
                assert(reveal_inv(cells, v0, vis, stack@, wi, start as int, -1)) by {
                    assert forall|qq: int|
                        0 <= qq < n && qq != -1 && #[trigger] vis[qq] && !v0[qq] && cells[qq] == Cell::Empty(0)
                            && !stack@.contains(qq as usize) implies forall|j: int|
                            0 <= j < n && adjacent(wi, qq, j) ==> #[trigger] vis[j] by {
                        if qq != q {
                            assert(reveal_inv(cells, v0, vis, stack@, wi, start as int, q as int));
                        }
                    }
                }
            }
        }
        proof {
            let vis = bits_of(self.state);
            assert forall|i: int| 0 <= i < n implies #[trigger] vis[i] == (v0[i] || reached(cells, v0, wi, start as int, i)) by {
                if reached(cells, v0, wi, start as int, i) && !vis[i] {
                    let path = choose|path: Seq<int>| reveal_path(cells, v0, wi, path, start as int, i);
                    lemma_path_visible(cells, v0, vis, wi, path, start as int, i);
                }
            }
            assert(vis =~= flooded(cells, v0, wi, start as int));
        }
        Ok(())
    }

    /// Reveals position `j`, a neighbour of the cell `q` being expanded, and
    /// queues it, unless it is visible already.
    fn reveal_one(
        &mut self,
        stack: &mut Vec<usize>,
        j: usize,
        Ghost(q): Ghost<int>,
        Ghost(qpath): Ghost<Seq<int>>,
        Ghost(start): Ghost<int>,
        Ghost(v0): Ghost<Seq<bool>>,
    )
        requires
            0 <= j < old(self).board@.len(),
            0 <= q < old(self).board@.len(),
            adjacent(old(self).dimensions.x as int, q, j as int),
            old(self).board@[q] == Cell::Empty(0),
            reveal_path(old(self).board@, v0, old(self).dimensions.x as int, qpath, start, q),
            reveal_inv(old(self).board@, v0, bits_of(old(self).state), old(stack)@, old(self).dimensions.x as int, start, q),
        ensures
            final(self).dimensions == old(self).dimensions,
            final(self).board == old(self).board,
            final(self).players == old(self).players,
            final(self).spawn_pos == old(self).spawn_pos,
            reveal_inv(final(self).board@, v0, bits_of(final(self).state), final(stack)@, final(self).dimensions.x as int, start, q),
            bits_of(final(self).state).len() == bits_of(old(self).state).len(),
            bits_of(final(self).state)[j as int],
            forall|i: int| 0 <= i < bits_of(old(self).state).len() && i != j ==> bits_of(final(self).state)[i] == bits_of(old(self).state)[i],
            hidden_count(bits_of(final(self).state)) + final(stack)@.len() == hidden_count(bits_of(old(self).state)) + old(stack)@.len(),
            hidden_count(bits_of(final(self).state)) <= hidden_count(bits_of(old(self).state)),
    {
        if !bits_get(&self.state, j) {
            let ghost cells = self.board@;
            let ghost w = self.dimensions.x as int;
            let ghost vis = bits_of(self.state);
            proof {
                let path = qpath.push(j as int);
                assert(path[path.len() - 2] == q);
                assert(reveal_path(cells, v0, w, path, start, j as int));
                lemma_count_update(vis, j as int, true, |b: bool| !b);
            }
            bits_set(&mut self.state, j, true);
            stack.push(j);
            proof {
                let nv = bits_of(self.state);
                let ns = stack@;
                assert forall|k: int| 0 <= k < ns.len() implies #[trigger] ns[k] < cells.len() && nv[ns[k] as int] && !v0[ns[k] as int] by {
                    if k < ns.len() - 1 {
                        assert(ns[k] == old(stack)@[k]);
                    }
                }
                assert forall|qq: int|
                    0 <= qq < cells.len() && qq != q && #[trigger] nv[qq] && !v0[qq] && cells[qq] == Cell::Empty(0)
                        && !ns.contains(qq as usize) implies forall|i: int|
                        0 <= i < cells.len() && adjacent(w, qq, i) ==> #[trigger] nv[i] by {
                    if qq == j {
                        assert(ns[ns.len() - 1] == j);
                    } else {
                        if old(stack)@.contains(qq as usize) {
                            let k = choose|k: int| 0 <= k < old(stack)@.len() && old(stack)@[k] == qq as usize;
                            assert(ns[k] == qq as usize);
                        }
                    }
                }
            }
        }
    }

    /// The board's dimensions.
    pub fn size(&self) -> (r: Size)
        ensures
            r.x == self@.width,
            r.y == self@.height,
    {
        self.dimensions
    }

    /// The spawn point, once the board has been generated.
    pub fn spawn(&self) -> (r: Option<Point>)
        ensures
            r == self@.spawn,
    {
        self.spawn_pos
    }

    /// Whether `p` lies on the board.
    pub fn in_bounds(&self, p: Point) -> (r: bool)
        ensures
            r == point_on_board(self@.width, self@.height, p),
    {
        p.x >= 0 && p.y >= 0 && (p.x as usize) < self.dimensions.x && (p.y as usize) < self.dimensions.y
    }

    /// The row-major position of a point on the board.
    fn pos_from_point(&self, p: Point) -> (r: usize)
        requires
            self.wf(),
            point_on_board(self@.width, self@.height, p),
        ensures
            r == index_of(self@.width, p.x as int, p.y as int),
            r < self@.cells.len(),
    {
        proof {
            lemma_index(self@.width, self@.height, p.x as int, p.y as int);
        }
        p.y as usize * self.dimensions.x + p.x as usize
    }

    /// The cell at `p`, or `None` off the board.
    pub fn get(&self, p: Point) -> (r: Option<Cell>)
        requires
            self.wf(),
        ensures
            point_on_board(self@.width, self@.height, p) ==> r == Some(
                self@.cells[index_of(self@.width, p.x as int, p.y as int)],
            ),
            !point_on_board(self@.width, self@.height, p) ==> r is None,
    {
        if self.in_bounds(p) {
            Some(self.board[self.pos_from_point(p)])
        } else {
            None
        }
    }

    /// Whether the cell at `p` is revealed; `false` off the board.
    pub fn is_visible(&self, p: Point) -> (r: bool)
        requires
            self.wf(),
        ensures
            r == (point_on_board(self@.width, self@.height, p) && self@.visible[index_of(
                self@.width,
                p.x as int,
                p.y as int,
            )]),
    {
        if self.in_bounds(p) {
            bits_get(&self.state, self.pos_from_point(p))
        } else {
            false
        }
    }

    /// The players' identifiers and positions, in the order they joined.
    pub fn player_positions(&self) -> (r: Vec<(String, Point)>)
        ensures
            r@.len() == self@.players.len(),
            forall|k: int| 0 <= k < r@.len() ==> (#[trigger] r@[k]).0@ == self@.players[k].0 && r@[k].1 == self@.players[k].1,
    {
        let mut r: Vec<(String, Point)> = Vec::new();
        let mut k: usize = 0;
        while k < self.players.len()
            invariant
                k <= self.players@.len(),
                r@.len() == k,
                forall|j: int| 0 <= j < k ==> (#[trigger] r@[j]).0@ == self@.players[j].0 && r@[j].1 == self@.players[j].1,
            decreases self.players@.len() - k,
        {
            r.push((self.players[k].id.clone(), self.players[k].pos));
            k += 1;
        }
        r
    }

    /// Registers a player at the spawn point, unless a player with that
    /// identifier is already on the board.
    ///
    /// Fails with `NoSpawn`, leaving the board as it was, when the board has
    /// no spawn point.
    pub fn add_player(&mut self, id: String) -> (r: Result<(), GameError>)
        requires
            old(self).wf(),
        ensures
            final(self).wf(),
            old(self)@.spawn is None ==> r == Err::<(), GameError>(GameError::NoSpawn) && *final(self) == *old(self),
            old(self)@.spawn is Some ==> r is Ok,
            old(self)@.spawn is Some && (exists|k: int| 0 <= k < old(self)@.players.len() && (#[trigger] old(self)@.players[k]).0 == id@)
                ==> final(self)@ == old(self)@,
            old(self)@.spawn is Some && !(exists|k: int| 0 <= k < old(self)@.players.len() && (#[trigger] old(self)@.players[k]).0 == id@)
                ==> final(self)@ == (DigSiteView { players: old(self)@.players.push((id@, old(self)@.spawn->Some_0)), ..old(self)@ }),
    {
        let spawn = match self.spawn_pos {
            Some(s) => s,
            None => return Err(GameError::NoSpawn),
        };
        let mut k: usize = 0;
        while k < self.players.len()
            invariant
                old(self).wf(),
                *self == *old(self),
                self.spawn_pos == Some(spawn),
                k <= self.players@.len(),
                forall|j: int| 0 <= j < k ==> (#[trigger] self@.players[j]).0 != id@,
            decreases self.players@.len() - k,
        {
            if self.players[k].id == id {
                proof {
                    assert(self@.players[k as int].0 == id@);
                }
                return Ok(());
            }
            k += 1;
        }
        let ghost before = self@;
        self.players.push(Player { id, pos: spawn });
        proof {
            assert(self@.players =~= before.players.push((id@, spawn)));
            assert(self@ == (DigSiteView { players: before.players.push((id@, spawn)), ..before }));
        }
        Ok(())
    }

    /// Moves the player called `id` by `delta` where the new position (each
    /// coordinate added with clamping) lies on the board. Off the board, or
    /// for an unknown player, nothing changes.
    pub fn move_player(&mut self, id: String, delta: Point)
        requires
            old(self).wf(),
        ensures
            final(self).wf(),
            final(self)@ == (DigSiteView {
                players: moved(old(self)@.players, id@, delta, old(self)@.width, old(self)@.height),
                ..old(self)@
            }),
    {
        let ghost before = self@;
        let mut k: usize = 0;
        while k < self.players.len()
            invariant
                before == old(self)@,
                self.dimensions == old(self).dimensions,
                self.board == old(self).board,
                self.state == old(self).state,
                self.spawn_pos == old(self).spawn_pos,
                k <= self.players@.len(),
                self@.players.len() == before.players.len(),
                forall|j: int|
                    0 <= j < self@.players.len() ==> #[trigger] self@.players[j] == if j < k {
                        moved(before.players, id@, delta, before.width, before.height)[j]
                    } else {
                        before.players[j]
                    },
            decreases self.players@.len() - k,
        {
            let ghost pl = before.players[k as int];
            let ghost c = Point { x: sat_i32(pl.1.x + delta.x), y: sat_i32(pl.1.y + delta.y) };
            proof {
                let m = moved(before.players, id@, delta, before.width, before.height);
                assert(m[k as int] == if pl.0 == id@ && point_on_board(before.width, before.height, c) {
                    (pl.0, c)
                } else {
                    pl
                });
                assert(self@.players[k as int] == pl);
            }
            if self.players[k].id == id {
                let candidate = self.players[k].pos.add(delta);
                if self.in_bounds(candidate) {
                    let name = self.players[k].id.clone();
                    let ghost prev = self@.players;
                    self.players.set(k, Player { id: name, pos: candidate });
                    proof {
                        assert(self@.players =~= prev.update(k as int, (id@, candidate)));
                    }
                }
            }
            k += 1;
        }
        proof {
            assert(self@.players =~= moved(before.players, id@, delta, before.width, before.height));
            assert forall|a: int, b: int|
                0 <= a < self@.players.len() && 0 <= b < self@.players.len() && a != b implies (#[trigger] self@.players[a]).0
                    != (#[trigger] self@.players[b]).0 by {
                assert(before.players[a].0 != before.players[b].0);
            }
        }
    }

    /// What position `index` shows, players aside; `None` past the end of
    /// the board.
    fn symbol_at(&self, index: usize) -> (r: Option<String>)
        requires
            self.wf(),
        ensures
            index >= self@.cells.len() ==> r is None,
            index < self@.cells.len() ==> r is Some && r->Some_0@ == (if self@.visible[index as int] {
                cell_symbol(self@.cells[index as int])
            } else {
                seq!['#']
            }),
    {
        if index >= self.board.len() {
            return None;
        }
        if !bits_get(&self.state, index) {
            proof {
                reveal_strlit("#");
            }
            Some(String::from_str("#"))
        } else {
            Some(self.board[index].symbol())
        }
    }

    /// The board as its players see it: one row of symbols per board row,
    /// each showing a player standing there, `#` for a hidden cell, or the
    /// cell's symbol.
    pub fn output(&self) -> (r: Vec<Vec<String>>)
        requires
            self.wf(),
        ensures
            r@.len() == self@.height,
            forall|y: int| 0 <= y < self@.height ==> (#[trigger] r@[y])@.len() == self@.width,
            forall|x: int, y: int|
                on_board(self@.width, self@.height, x, y) ==> (#[trigger] r@[y]@[x])@ == rendered(
                    self@,
                    index_of(self@.width, x, y),
                ),
    {
        let n = self.board.len();
        let w = self.dimensions.x;
        let h = self.dimensions.y;
        let ghost v = self@;
        let mut flat: Vec<String> = Vec::new();
        let mut i: usize = 0;
        while i < n
            invariant
                self.wf(),
                v == self@,
                n == v.cells.len(),
                i <= n,
                flat@.len() == i,
                forall|j: int| 0 <= j < i ==> (#[trigger] flat@[j])@ == (if v.visible[j] {
                    cell_symbol(v.cells[j])
                } else {
                    seq!['#']
                }),
            decreases n - i,
        {
            let symbol = match self.symbol_at(i) {
                Some(s) => s,
                None => String::new(),
            };
            flat.push(symbol);
            i += 1;
        }
        let mut k: usize = 0;
        while k < self.players.len()
            invariant
                self.wf(),
                v == self@,
                n == v.cells.len(),
                flat@.len() == n,
                k <= v.players.len(),
                forall|j: int| 0 <= j < n ==> (#[trigger] flat@[j])@ == match marker_at(v.players, k as int, v.width, j) {
                    Some(m) => m,
                    None => if v.visible[j] {
                        cell_symbol(v.cells[j])
                    } else {
                        seq!['#']
                    },
                },
            decreases v.players.len() - k,
        {
            proof {
                assert(point_on_board(v.width, v.height, v.players[k as int].1));
            }
            let pos = self.pos_from_point(self.players[k].pos);
            flat.set(pos, self.players[k].id.clone());
            k += 1;
        }
        proof {
            assert(k == v.players.len());
        }
        let mut rows: Vec<Vec<String>> = Vec::new();
        let mut y: usize = 0;
        while y < h
            invariant
                self.wf(),
                v == self@,
                w == v.width,
                h == v.height,
                n == v.cells.len(),
                flat@.len() == n,
                forall|j: int| 0 <= j < n ==> (#[trigger] flat@[j])@ == rendered(v, j),
                y <= h,
                rows@.len() == y,
                forall|yy: int| 0 <= yy < y ==> (#[trigger] rows@[yy])@.len() == w,
                forall|xx: int, yy: int| 0 <= xx < w && 0 <= yy < y ==> (#[trigger] rows@[yy]@[xx])@ == rendered(v, index_of(w as int, xx, yy)),
            decreases h - y,
        {
            let mut row: Vec<String> = Vec::new();
            let mut x: usize = 0;
            while x < w
                invariant
                    self.wf(),
                    v == self@,
                    w == v.width,
                    h == v.height,
                    n == v.cells.len(),
                    flat@.len() == n,
                    forall|j: int| 0 <= j < n ==> (#[trigger] flat@[j])@ == rendered(v, j),
                    y < h,
                    x <= w,
                    row@.len() == x,
                    forall|xx: int| 0 <= xx < x ==> (#[trigger] row@[xx])@ == rendered(v, index_of(w as int, xx, y as int)),
                decreases w - x,
            {
                proof {
                    lemma_index(w as int, h as int, x as int, y as int);
                }
                row.push(flat[y * w + x].clone());
                x += 1;
            }
            rows.push(row);
            y += 1;
        }
        rows
    }

    /// Generates a board of `size`: `bones` hazards at distinct positions
    /// drawn at random from the cells outside the exclusion zone around
    /// `initial_pos`, the neighbour counts, and the reveal from
    /// `initial_pos`. Each of `players` is then placed at `initial_pos`.
    ///
    /// Fails with `OutOfRange` when `initial_pos` lies off the board, and
    /// with `Configuration` when fewer than `bones` cells lie outside the
    /// exclusion zone.
    pub fn generate(
        rng: &mut StdRng,
        size: Size,
        bones: usize,
        initial_pos: Point,
        players: Option<Vec<String>>,
    ) -> (r: Result<DigSite, GameError>)
        requires
            size.x <= i32::MAX,
            size.y <= i32::MAX,
            size.x * size.y <= MAX_BITS,
        ensures
            !point_on_board(size.x as int, size.y as int, initial_pos) ==> r == Err::<DigSite, GameError>(
                GameError::OutOfRange,
            ),
            point_on_board(size.x as int, size.y as int, initial_pos) ==> (r is Err <==> bones > eligible(
                empty_cells((size.x * size.y) as nat),
                size.x as int,
                initial_pos,
            ).len()),
            point_on_board(size.x as int, size.y as int, initial_pos) && r is Err ==> r == Err::<DigSite, GameError>(
                GameError::Configuration,
            ),
            r is Ok ==> {
                let v = r->Ok_0@;
                &&& r->Ok_0.wf()
                &&& generated(v, size, bones as nat, initial_pos)
                &&& forall|k: int| 0 <= k < v.players.len() ==> (#[trigger] v.players[k]).1 == initial_pos
                &&& forall|id: Seq<char>|
                    #[trigger] has_id(v.players, id) <==> (players is Some && listed(
                        players->Some_0@,
                        players->Some_0@.len() as int,
                        id,
                    ))
            },
    {
        let mut ds = DigSite::new(size);
        if !ds.in_bounds(initial_pos) {
            return Err(GameError::OutOfRange);
        }
        ds.spawn_pos = Some(initial_pos);
        let ghost fresh = ds@;
        match ds.assign_bones(rng, bones, initial_pos) {
            Ok(()) => {},
            Err(e) => {
                return Err(e);
            },
        }
        proof {
            assert forall|i: int| 0 <= i < ds@.cells.len() && #[trigger] ds@.cells[i] is Bone implies !in_zone(ds@.width, i, initial_pos) by {
                assert(fresh.cells[i] == Cell::Empty(0));
            }
            assert(bone_count(fresh.cells) == 0) by {
                lemma_count_none(fresh.cells, |c: Cell| c is Bone);
            }
        }
        match ds.flood_fill_visibility(initial_pos) {
            Ok(()) => {},
            Err(e) => {
                return Err(e);
            },
        }
        let ghost board = ds@;
        proof {
            assert(fresh.visible =~= all_hidden(board.cells.len()));
        }
        match players {
            Some(list) => {
                let mut k: usize = 0;
                while k < list.len()
                    invariant
                        ds.wf(),
                        ds@.spawn == Some(initial_pos),
                        ds@ == (DigSiteView { players: ds@.players, ..board }),
                        k <= list@.len(),
                        forall|q: int| 0 <= q < ds@.players.len() ==> (#[trigger] ds@.players[q]).1 == initial_pos,
                        forall|id: Seq<char>| #[trigger] has_id(ds@.players, id) <==> listed(list@, k as int, id),
                    decreases list@.len() - k,
                {
                    let ghost prev = ds@.players;
                    proof {
                        assert(forall|id: Seq<char>| #[trigger] has_id(prev, id) <==> listed(list@, k as int, id));
                    }
                    let res = ds.add_player(list[k].clone());
                    proof {
                        let name = list@[k as int]@;
                        assert forall|id: Seq<char>| #[trigger] has_id(ds@.players, id) <==> listed(list@, k + 1, id) by {
                            if listed(list@, k + 1, id) {
                                let j = choose|j: int| 0 <= j < k + 1 && (#[trigger] list@[j])@ == id;
                                if j < k {
                                    assert(listed(list@, k as int, id));
                                }
                                if has_id(prev, id) {
                                    let q = choose|q: int| 0 <= q < prev.len() && (#[trigger] prev[q]).0 == id;
                                    assert(ds@.players[q].0 == id);
                                } else {
                                    assert(j == k);
                                    assert(ds@.players[prev.len() as int].0 == id);
                                }
                            }
                            if has_id(ds@.players, id) {
                                let q = choose|q: int| 0 <= q < ds@.players.len() && (#[trigger] ds@.players[q]).0 == id;
                                if q < prev.len() {
                                    assert(prev[q].0 == id);
                                    assert(has_id(prev, id));
                                    let j = choose|j: int| 0 <= j < k && (#[trigger] list@[j])@ == id;
                                    assert(list@[j]@ == id);
                                } else {
                                    assert(list@[k as int]@ == id);
                                }
                            }
                        }
                    }
                    k += 1;
                }
            },
            None => {},
        }
        Ok(ds)
    }
}


/// Revealing again from the same point reveals nothing more: once a reveal
/// from `start` is done, `start` is visible, and a reveal only passes
/// through hidden cells.
pub proof fn lemma_flood_idempotent(cells: Seq<Cell>, visible: Seq<bool>, w: int, start: int)
    requires
        visible.len() == cells.len(),
        0 <= start < cells.len(),
    ensures
        flooded(cells, flooded(cells, visible, w, start), w, start) == flooded(cells, visible, w, start),
{
    let v1 = flooded(cells, visible, w, start);
    if !visible[start] {
        assert(reveal_path(cells, visible, w, seq![start], start, start));
    }
    assert(v1[start]);
    assert forall|i: int| 0 <= i < v1.len() implies !reached(cells, v1, w, start, i) by {
        if reached(cells, v1, w, start, i) {
            let path = choose|path: Seq<int>| reveal_path(cells, v1, w, path, start, i);
            assert(path[0] == start);
        }
    }
    assert(flooded(cells, v1, w, start) =~= v1);
}

/// A reveal stops only at its border: every cell that it reaches and that
/// is empty with a count of zero has all its neighbours visible afterwards.
pub proof fn lemma_flood_closed(cells: Seq<Cell>, visible: Seq<bool>, w: int, start: int, q: int, j: int)
    requires
        visible.len() == cells.len(),
        0 <= q < cells.len(),
        0 <= j < cells.len(),
        reached(cells, visible, w, start, q),
        cells[q] == Cell::Empty(0),
        adjacent(w, q, j),
    ensures
        flooded(cells, visible, w, start)[j],
{
    if !visible[j] {
        let path = choose|path: Seq<int>| reveal_path(cells, visible, w, path, start, q);
        let longer = path.push(j);
        assert(longer[longer.len() - 2] == q);
        assert(reveal_path(cells, visible, w, longer, start, j));
    }
}

/// Every cell that a reveal reaches is connected to its start: the start
/// itself, or a neighbour of a reached cell that is empty with a count of
/// zero.
pub proof fn lemma_flood_connected(cells: Seq<Cell>, visible: Seq<bool>, w: int, start: int, i: int)
    requires
        visible.len() == cells.len(),
        reached(cells, visible, w, start, i),
    ensures
        i == start || exists|q: int|
            0 <= q < cells.len() && reached(cells, visible, w, start, q) && cells[q] == Cell::Empty(0)
                && adjacent(w, q, i),
{
    let path = choose|path: Seq<int>| reveal_path(cells, visible, w, path, start, i);
    if path.len() > 1 {
        let q = path[path.len() - 2];
        let prefix = path.drop_last();
        assert(reveal_path(cells, visible, w, prefix, start, q));
        assert(0 <= q < cells.len() && cells[q] == Cell::Empty(0) && adjacent(w, q, i));
    }
}

/// A move whose target lies off the board leaves every player where it was.
pub proof fn lemma_move_off_board_stays(
    players: Seq<(Seq<char>, Point)>,
    id: Seq<char>,
    delta: Point,
    w: int,
    h: int,
    k: int,
)
    requires
        0 <= k < players.len(),
        !point_on_board(
            w,
            h,
            Point { x: sat_i32(players[k].1.x + delta.x), y: sat_i32(players[k].1.y + delta.y) },
        ),
    ensures
        moved(players, id, delta, w, h)[k] == players[k],
{
}

/// A hazard next to a cell adds to that cell's count.
proof fn lemma_bone_counted(cells: Seq<Cell>, w: int, h: int, q: int, i: int)
    requires
        0 <= w,
        0 <= h,
        w * h == cells.len(),
        0 <= q < cells.len(),
        0 <= i < cells.len(),
        q != i,
        adjacent(w, q, i),
        cells[i] is Bone,
    ensures
        neighbor_bones(cells, w, h, q % w, q / w) >= 1,
{
    lemma_coords(w, h, q);
    lemma_coords(w, h, i);
    let x = q % w;
    let y = q / w;
    let dx = i % w - x;
    let dy = i / w - y;
    assert(bone_at(cells, w, h, x + dx, y + dy) == 1);
    if dx == -1 && dy == -1 {
        assert(bone_at(cells, w, h, x - 1, y - 1) == 1);
    } else if dx == 0 && dy == -1 {
        assert(bone_at(cells, w, h, x, y - 1) == 1);
    } else if dx == 1 && dy == -1 {
        assert(bone_at(cells, w, h, x + 1, y - 1) == 1);
    } else if dx == -1 && dy == 0 {
        assert(bone_at(cells, w, h, x - 1, y) == 1);
    } else if dx == 1 && dy == 0 {
        assert(bone_at(cells, w, h, x + 1, y) == 1);
    } else if dx == -1 && dy == 1 {
        assert(bone_at(cells, w, h, x - 1, y + 1) == 1);
    } else if dx == 0 && dy == 1 {
        assert(bone_at(cells, w, h, x, y + 1) == 1);
    } else if dx == 1 && dy == 1 {
        assert(bone_at(cells, w, h, x + 1, y + 1) == 1);
    } else {
        assert(dx == 0 && dy == 0);
    }
}

/// A freshly generated board shows no hazard: the reveal starts outside
/// every hazard's reach and stops at cells with a nonzero count.
pub proof fn lemma_no_hazard_revealed(v: DigSiteView, size: Size, bones: nat, spawn: Point, i: int)
    requires
        board_ok(v),
        generated(v, size, bones, spawn),
        point_on_board(v.width, v.height, spawn),
        0 <= i < v.cells.len(),
        v.visible[i],
    ensures
        v.cells[i] is Empty,
{
    let w = v.width;
    let h = v.height;
    let cells = v.cells;
    let hidden = all_hidden(cells.len());
    let s = index_of(w, spawn.x as int, spawn.y as int);
    lemma_index(w, h, spawn.x as int, spawn.y as int);
    assert(flooded(cells, hidden, w, s)[i]);
    assert(reached(cells, hidden, w, s, i));
    let path = choose|path: Seq<int>| reveal_path(cells, hidden, w, path, s, i);
    if path.len() == 1 {
        assert(i == s);
        assert(in_zone(w, s, spawn));
    } else {
        let q = path[path.len() - 2];
        assert(0 <= q < cells.len() && cells[q] == Cell::Empty(0) && adjacent(w, q, i));
        if q != i && cells[i] is Bone {
            lemma_bone_counted(cells, w, h, q, i);
            assert(cells[q]->Empty_0 == neighbor_bones(cells, w, h, q % w, q / w));
        }
    }
}

} // verus!
