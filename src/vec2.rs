use vstd::prelude::*;

verus! {

/// A board coordinate: file `x` and rank `y`.
#[derive(Clone, Copy, Debug, PartialEq, Eq, Structural, Hash)]
pub struct Vec2 {
    pub x: i32,
    pub y: i32,
}

/// Absolute value on mathematical integers.
pub open spec fn iabs(v: int) -> int {
    if v < 0 {
        -v
    } else {
        v
    }
}

/// The offset `k` taken `k` times in the direction of the sign of `d`.
pub open spec fn toward(d: int, k: int) -> int {
    if d > 0 {
        k
    } else if d < 0 {
        -k
    } else {
        0
    }
}

/// `from` and `to` differ and lie on one rank, one file, or one diagonal.
pub open spec fn is_line(from: Vec2, to: Vec2) -> bool {
    let dx = to.x - from.x;
    let dy = to.y - from.y;
    &&& (dx != 0 || dy != 0)
    &&& (dx == 0 || dy == 0 || iabs(dx) == iabs(dy))
}

/// Number of unit steps from `from` to `to` along a line.
pub open spec fn span(from: Vec2, to: Vec2) -> int {
    let dx = iabs(to.x - from.x);
    let dy = iabs(to.y - from.y);
    if dx >= dy {
        dx
    } else {
        dy
    }
}

/// The cell `k` unit steps from `from` toward `to`.
pub open spec fn step_cell(from: Vec2, to: Vec2, k: int) -> Vec2 {
    Vec2 {
        x: (from.x + toward(to.x - from.x, k)) as i32,
        y: (from.y + toward(to.y - from.y, k)) as i32,
    }
}

/// The cells strictly between `from` and `to`, in order from `from`;
/// empty unless the two lie on a common line.
pub open spec fn cells_between(from: Vec2, to: Vec2) -> Seq<Vec2> {
    if is_line(from, to) {
        Seq::new((span(from, to) - 1) as nat, |i: int| step_cell(from, to, i + 1))
    } else {
        Seq::empty()
    }
}

/// `c` lies strictly inside the segment from `from` to `to`, which is a rank,
/// a file or a diagonal.
pub open spec fn on_open_segment(from: Vec2, to: Vec2, c: Vec2) -> bool {
    let dx = to.x - from.x;
    let dy = to.y - from.y;
    let cx = c.x - from.x;
    let cy = c.y - from.y;
    &&& is_line(from, to)
    &&& (if dx == 0 {
        cx == 0
    } else {
        0 < iabs(cx) < iabs(dx) && (cx > 0) == (dx > 0)
    })
    &&& (if dy == 0 {
        cy == 0
    } else {
        0 < iabs(cy) < iabs(dy) && (cy > 0) == (dy > 0)
    })
    &&& (dx != 0 && dy != 0 ==> iabs(cx) == iabs(cy))
}

/// The cells strictly between two coordinates are exactly those on the open
/// segment joining them.
pub proof fn lemma_between_is_segment(from: Vec2, to: Vec2, c: Vec2)
    ensures
        on_open_segment(from, to, c) <==> cells_between(from, to).contains(c),
{
    let cells = cells_between(from, to);
    if on_open_segment(from, to, c) {
        let cx = c.x - from.x;
        let cy = c.y - from.y;
        let k = if to.x - from.x != 0 {
            iabs(cx)
        } else {
            iabs(cy)
        };
        assert(step_cell(from, to, k) == c);
        assert(cells[k - 1] == c);
    }
    if cells.contains(c) {
        let i = choose|i: int| 0 <= i < cells.len() && cells[i] == c;
        assert(cells[i] == step_cell(from, to, i + 1));
    }
}

/// Whether `c` lies strictly between `from` and `to` on a common rank, file or
/// diagonal.
pub fn strictly_between(from: Vec2, to: Vec2, c: Vec2) -> (r: bool)
    ensures
        r == on_open_segment(from, to, c),
{
    let dx: i64 = to.x as i64 - from.x as i64;
    let dy: i64 = to.y as i64 - from.y as i64;
    let cx: i64 = c.x as i64 - from.x as i64;
    let cy: i64 = c.y as i64 - from.y as i64;
    if dx == 0 && dy == 0 {
        return false;
    }
    if !(dx == 0 || dy == 0 || abs(dx) == abs(dy)) {
        return false;
    }
    let along_x = if dx == 0 {
        cx == 0
    } else {
        0 < abs(cx) && abs(cx) < abs(dx) && (cx > 0) == (dx > 0)
    };
    let along_y = if dy == 0 {
        cy == 0
    } else {
        0 < abs(cy) && abs(cy) < abs(dy) && (cy > 0) == (dy > 0)
    };
    along_x && along_y && (dx == 0 || dy == 0 || abs(cx) == abs(cy))
}

pub fn abs(i: i64) -> (r: i64)
    requires
        i > i64::MIN,
    ensures
        r == iabs(i as int),
{
    if i >= 0 {
        i
    } else {
        -i
    }
}

impl Vec2 {
    pub fn new(x: i32, y: i32) -> (r: Self)
        ensures
            r.x == x,
            r.y == y,
    {
        Vec2 { x, y }
    }

    /// The cells strictly between two coordinates that share a rank, a file or
    /// a diagonal, nearest to `from` first; empty for any other pair.
    pub fn between(from: Vec2, to: Vec2) -> (r: Vec<Vec2>)
        ensures
            r@ == cells_between(from, to),
    {
        let mut res: Vec<Vec2> = Vec::new();
        if from == to {
            return res;
        }
        let dx: i64 = to.x as i64 - from.x as i64;
        let dy: i64 = to.y as i64 - from.y as i64;
        let ax = abs(dx);
        let ay = abs(dy);
        if !(dx == 0 || dy == 0 || ax == ay) {
            assert(!is_line(from, to));
            assert(res@ =~= cells_between(from, to));
            return res;
        }
        let n: i64 = if ax >= ay { ax } else { ay };
        let sx: i64 = if dx > 0 { 1 } else if dx < 0 { -1 } else { 0 };
        let sy: i64 = if dy > 0 { 1 } else if dy < 0 { -1 } else { 0 };
        let mut k: i64 = 1;
        while k < n
            invariant
                is_line(from, to),
                n == span(from, to),
                dx == to.x - from.x,
                dy == to.y - from.y,
                sx == toward(dx as int, 1),
                sy == toward(dy as int, 1),
                1 <= k <= n,
                res@.len() == k - 1,
                forall|i: int| 0 <= i < k - 1 ==> res@[i] == step_cell(from, to, i + 1),
            decreases n - k,
        {
            let cx: i64 = from.x as i64 + if sx > 0 { k } else if sx < 0 { -k } else { 0 };
            let cy: i64 = from.y as i64 + if sy > 0 { k } else if sy < 0 { -k } else { 0 };
            let c = Vec2 { x: cx as i32, y: cy as i32 };
            assert(c == step_cell(from, to, k as int));
            res.push(c);
            k = k + 1;
        }
        assert(res@ =~= cells_between(from, to));
        res
    }
}

/// All 64 cells of the 8x8 board, file by file.
pub open spec fn cell_index(i: int) -> Vec2 {
    Vec2 { x: (i / 8) as i32, y: (i % 8) as i32 }
}

pub open spec fn on_board(c: Vec2) -> bool {
    0 <= c.x < 8 && 0 <= c.y < 8
}

/// Each cell of the board has its place in the enumeration of all cells.
pub proof fn lemma_cell_index_of(c: Vec2)
    requires
        on_board(c),
    ensures
        0 <= c.x * 8 + c.y < 64,
        cell_index(c.x * 8 + c.y) == c,
{
}

/// The place of cell `c` in the enumeration of all cells.
pub open spec fn cell_key(c: Vec2) -> int {
    c.x * 8 + c.y
}

/// The enumeration of all cells and `cell_key` undo each other.
pub proof fn lemma_cell_key_index(i: int)
    requires
        0 <= i < 64,
    ensures
        cell_key(cell_index(i)) == i,
        on_board(cell_index(i)),
{
}

pub fn board_cells() -> (r: Vec<Vec2>)
    ensures
        r@.len() == 64,
        forall|i: int| 0 <= i < 64 ==> #[trigger] r@[i] == cell_index(i),
{
    let mut res: Vec<Vec2> = Vec::new();
    let mut x: i32 = 0;
    while x < 8
        invariant
            0 <= x <= 8,
            res@.len() == 8 * x,
            forall|i: int| 0 <= i < 8 * x ==> #[trigger] res@[i] == cell_index(i),
        decreases 8 - x,
    {
        let mut y: i32 = 0;
        while y < 8
            invariant
                0 <= x < 8,
                0 <= y <= 8,
                res@.len() == 8 * x + y,
                forall|i: int| 0 <= i < 8 * x + y ==> #[trigger] res@[i] == cell_index(i),
            decreases 8 - y,
        {
            res.push(Vec2 { x, y });
            assert(res@[8 * x + y] == cell_index(8 * x + y));
            y = y + 1;
        }
        x = x + 1;
    }
    res
}

} // verus!
