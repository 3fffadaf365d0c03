use crate::disc::Disc;
use crate::flip_buffers::{
    move_elems, move_extend, move_is_empty, move_new, move_to_vec, run_elems, run_new, run_push,
};
use vstd::prelude::*;

verus! {

/// Failure cases of a board operation; the board is left unchanged by all of
/// them.
#[derive(Clone, Copy, Debug, PartialEq, Eq, Structural)]
pub enum BoardError {
    /// A coordinate or cell index outside the 8x8 domain.
    OutOfBounds,
    /// The target cell already holds a disc.
    SquareOccupied,
    /// The target cell is empty but the move captures nothing.
    InvalidMove,
}

/// One of the eight compass offsets the capture search walks along.
#[derive(Clone, Copy, Debug, PartialEq, Eq, Structural)]
pub enum Direction {
    North,
    NorthEast,
    East,
    SouthEast,
    South,
    SouthWest,
    West,
    NorthWest,
}

impl Direction {
    /// The (row, column) offset of one step in this direction.
    pub open spec fn spec_delta(self) -> (int, int) {
        match self {
            Direction::North => (-1, 0),
            Direction::NorthEast => (-1, 1),
            Direction::East => (0, 1),
            Direction::SouthEast => (1, 1),
            Direction::South => (1, 0),
            Direction::SouthWest => (1, -1),
            Direction::West => (0, -1),
            Direction::NorthWest => (-1, -1),
        }
    }

    /// The (row, column) offset of one step in this direction.
    pub fn delta_row_col(self) -> (d: (isize, isize))
        ensures
            (d.0 as int, d.1 as int) == self.spec_delta(),
    {
        match self {
            Direction::North => (-1, 0),
            Direction::NorthEast => (-1, 1),
            Direction::East => (0, 1),
            Direction::SouthEast => (1, 1),
            Direction::South => (1, 0),
            Direction::SouthWest => (1, -1),
            Direction::West => (0, -1),
            Direction::NorthWest => (-1, -1),
        }
    }
}

/// The direction visited at position `k` of the capture search's sweep over
/// all eight directions.
pub open spec fn direction_at(k: int) -> Direction {
    if k == 0 {
        Direction::North
    } else if k == 1 {
        Direction::NorthEast
    } else if k == 2 {
        Direction::East
    } else if k == 3 {
        Direction::SouthEast
    } else if k == 4 {
        Direction::South
    } else if k == 5 {
        Direction::SouthWest
    } else if k == 6 {
        Direction::West
    } else {
        Direction::NorthWest
    }
}

/// Whether (row, column) lies on the 8x8 board.
pub open spec fn in_bounds_coord(r: int, c: int) -> bool {
    0 <= r < 8 && 0 <= c < 8
}

/// The row-major cell index of (row, column).
pub open spec fn cell_index(r: int, c: int) -> int {
    r * 8 + c
}

/// The row of a cell index.
pub open spec fn row_of(i: int) -> int {
    i / 8
}

/// The column of a cell index.
pub open spec fn col_of(i: int) -> int {
    i % 8
}

/// Index and (row, column) conversions invert each other over the valid
/// domain: `cell_index` after `row_of`/`col_of` is the identity on `0..64`,
/// and `row_of`/`col_of` after `cell_index` is the identity on `[0,8) x [0,8)`.
pub proof fn lemma_index_row_col_bijection()
    ensures
        forall|i: int| 0 <= i < 64 ==> cell_index(row_of(i), col_of(i)) == i,
        forall|r: int, c: int|
            in_bounds_coord(r, c) ==> 0 <= cell_index(r, c) < 64 && row_of(cell_index(r, c)) == r
                && col_of(cell_index(r, c)) == c,
{
    assert forall|i: int| 0 <= i < 64 implies cell_index(row_of(i), col_of(i)) == i by {
        vstd::arithmetic::div_mod::lemma_fundamental_div_mod(i, 8);
    }
    assert forall|r: int, c: int|
        in_bounds_coord(r, c) implies 0 <= cell_index(r, c) < 64 && row_of(cell_index(r, c)) == r
        && col_of(cell_index(r, c)) == c by {
        vstd::arithmetic::div_mod::lemma_fundamental_div_mod_converse(r * 8 + c, 8, r, c);
    }
}

/// Whether (dr, dc) is the offset of one of the eight directions: a one-cell
/// step that moves in at least one axis.
pub open spec fn is_dir_delta(dr: int, dc: int) -> bool {
    -1 <= dr <= 1 && -1 <= dc <= 1 && !(dr == 0 && dc == 0)
}

/// How many cells a walk from (r, c) with offset (dr, dc) can still visit
/// before leaving the board, counting (r, c) itself. Decreases by exactly one
/// per step while the walk stays on the board.
pub open spec fn ray_measure(r: int, c: int, dr: int, dc: int) -> int {
    if dr > 0 {
        8 - r
    } else if dr < 0 {
        r + 1
    } else if dc > 0 {
        8 - c
    } else {
        c + 1
    }
}

/// The sandwich run scanned from (r, c) outward with offset (dr, dc) for a
/// move by `disc`: `Some` of the cell indices of the contiguous run of
/// opposite-side discs starting at (r, c) (empty when (r, c) itself holds
/// `disc`), provided the run is terminated by a `disc` cell; `None` when the
/// walk reaches the board edge or an empty cell first.
pub open spec fn capture_run(
    b: Seq<Option<Disc>>,
    r: int,
    c: int,
    dr: int,
    dc: int,
    disc: Disc,
) -> Option<Seq<usize>>
    decreases ray_measure(r, c, dr, dc),
    when is_dir_delta(dr, dc)
{
    if !in_bounds_coord(r, c) {
        None
    } else if b[cell_index(r, c)] == Some(disc) {
        Some(Seq::empty())
    } else if b[cell_index(r, c)] == Some(disc.spec_opposite()) {
        match capture_run(b, r + dr, c + dc, dr, dc, disc) {
            Some(s) => Some(seq![cell_index(r, c) as usize] + s),
            None => None,
        }
    } else {
        None
    }
}

/// Prefixes `prefix` onto a pending scan result, keeping `None` as `None`.
pub open spec fn prepend_run(prefix: Seq<usize>, rest: Option<Seq<usize>>) -> Option<Seq<usize>> {
    match rest {
        Some(s) => Some(prefix + s),
        None => None,
    }
}

/// The cells a move by `disc` at `start` captures in direction `d`: the
/// sandwich run starting one step from `start`, or the empty sequence when
/// that direction captures nothing (including every out-of-bounds `start`).
pub open spec fn dir_flips(b: Seq<Option<Disc>>, start: int, disc: Disc, d: Direction) -> Seq<
    usize,
> {
    let (dr, dc) = d.spec_delta();
    if 0 <= start < 64 {
        match capture_run(b, row_of(start) + dr, col_of(start) + dc, dr, dc, disc) {
            Some(s) => s,
            None => Seq::empty(),
        }
    } else {
        Seq::empty()
    }
}

/// The captures of the first `k` directions of the sweep, concatenated in
/// sweep order.
pub open spec fn flips_up_to(b: Seq<Option<Disc>>, start: int, disc: Disc, k: int) -> Seq<usize>
    decreases k,
{
    if k <= 0 {
        Seq::empty()
    } else {
        flips_up_to(b, start, disc, k - 1) + dir_flips(b, start, disc, direction_at(k - 1))
    }
}

/// Every cell a move by `disc` at `start` captures, over all eight
/// directions, in sweep order.
pub open spec fn all_flips_of(b: Seq<Option<Disc>>, start: int, disc: Disc) -> Seq<usize> {
    flips_up_to(b, start, disc, 8)
}

/// Whether placing `disc` at `start` is a legal move: the index is on the
/// board, the cell is empty, and at least one direction captures something.
pub open spec fn is_legal_move(b: Seq<Option<Disc>>, start: int, disc: Disc) -> bool {
    0 <= start < 64 && b[start] is None && all_flips_of(b, start, disc).len() > 0
}

/// The board after a legal move by `disc` at `start`: `disc` stands at
/// `start` and on every captured cell; every other cell is unchanged.
pub open spec fn move_result(b: Seq<Option<Disc>>, start: int, disc: Disc) -> Seq<Option<Disc>> {
    Seq::new(
        64,
        |i: int|
            if i == start || all_flips_of(b, start, disc).contains(i as usize) {
                Some(disc)
            } else {
                b[i]
            },
    )
}

/// How many of the first `n` cells hold `disc`.
pub open spec fn count_up_to(b: Seq<Option<Disc>>, disc: Disc, n: int) -> nat
    decreases n,
{
    if n <= 0 {
        0
    } else {
        count_up_to(b, disc, n - 1) + (if b[n - 1] == Some(disc) {
            1nat
        } else {
            0nat
        })
    }
}

/// How many cells of the board hold `disc`.
pub open spec fn disc_count(b: Seq<Option<Disc>>, disc: Disc) -> nat {
    count_up_to(b, disc, 64)
}

/// How many of the first `n` cells are empty.
pub open spec fn empties_up_to(b: Seq<Option<Disc>>, n: int) -> nat
    decreases n,
{
    if n <= 0 {
        0
    } else {
        empties_up_to(b, n - 1) + (if b[n - 1] is None {
            1nat
        } else {
            0nat
        })
    }
}

/// How many cells of the board are empty.
pub open spec fn empty_count(b: Seq<Option<Disc>>) -> nat {
    empties_up_to(b, 64)
}

/// The legal moves for `disc` among the first `n` cell indices, in increasing
/// order.
pub open spec fn legal_up_to(b: Seq<Option<Disc>>, disc: Disc, n: int) -> Seq<usize>
    decreases n,
{
    if n <= 0 {
        Seq::empty()
    } else if is_legal_move(b, n - 1, disc) {
        legal_up_to(b, disc, n - 1).push((n - 1) as usize)
    } else {
        legal_up_to(b, disc, n - 1)
    }
}

/// All legal moves for `disc`, as cell indices in increasing order.
pub open spec fn legal_moves(b: Seq<Option<Disc>>, disc: Disc) -> Seq<usize> {
    legal_up_to(b, disc, 64)
}

/// A cell index is in the legal-move list exactly when it is a legal move.
pub proof fn lemma_legal_up_to_contains(b: Seq<Option<Disc>>, disc: Disc, n: int, x: usize)
    requires
        0 <= n <= 64,
    ensures
        legal_up_to(b, disc, n).contains(x) <==> (x < n && is_legal_move(b, x as int, disc)),
    decreases n,
{
    if n > 0 {
        lemma_legal_up_to_contains(b, disc, n - 1, x);
        if is_legal_move(b, n - 1, disc) {
            let s = legal_up_to(b, disc, n - 1);
            assert(s.push((n - 1) as usize)[s.len() as int] == (n - 1) as usize);
            if x < n && is_legal_move(b, x as int, disc) {
                if x < n - 1 {
                    let i = choose|i: int| 0 <= i < s.len() && s[i] == x;
                    assert(s.push((n - 1) as usize)[i] == x);
                }
            }
            if s.push((n - 1) as usize).contains(x) {
                let t = s.push((n - 1) as usize);
                let i = choose|i: int| 0 <= i < t.len() && t[i] == x;
                if i < s.len() {
                    assert(s[i] == x);
                }
            }
        }
    }
}

/// A returned run fits on its ray: its length is at most the walk's measure.
proof fn lemma_capture_run_len(b: Seq<Option<Disc>>, r: int, c: int, dr: int, dc: int, disc: Disc)
    requires
        is_dir_delta(dr, dc),
    ensures
        capture_run(b, r, c, dr, dc, disc) matches Some(s) ==> s.len() <= ray_measure(
            r,
            c,
            dr,
            dc,
        ),
    decreases ray_measure(r, c, dr, dc),
{
    if in_bounds_coord(r, c) && b[cell_index(r, c)] != Some(disc) && b[cell_index(r, c)] == Some(
        disc.spec_opposite(),
    ) {
        lemma_capture_run_len(b, r + dr, c + dc, dr, dc, disc);
    }
}

/// Every cell of a returned run lies on the board and holds an opposite-side
/// disc.
proof fn lemma_capture_run_cells(
    b: Seq<Option<Disc>>,
    r: int,
    c: int,
    dr: int,
    dc: int,
    disc: Disc,
)
    requires
        is_dir_delta(dr, dc),
    ensures
        capture_run(b, r, c, dr, dc, disc) matches Some(s) ==> forall|j: int|
            0 <= j < s.len() ==> 0 <= #[trigger] s[j] < 64 && b[s[j] as int] == Some(
                disc.spec_opposite(),
            ),
    decreases ray_measure(r, c, dr, dc),
{
    if in_bounds_coord(r, c) && b[cell_index(r, c)] != Some(disc) && b[cell_index(r, c)] == Some(
        disc.spec_opposite(),
    ) {
        lemma_capture_run_cells(b, r + dr, c + dc, dr, dc, disc);
    }
}

/// A single direction captures at most seven cells.
proof fn lemma_dir_flips_len(b: Seq<Option<Disc>>, start: int, disc: Disc, d: Direction)
    ensures
        dir_flips(b, start, disc, d).len() <= 7,
{
    let (dr, dc) = d.spec_delta();
    if 0 <= start < 64 {
        assert(0 <= row_of(start) < 8 && 0 <= col_of(start) < 8) by {
            vstd::arithmetic::div_mod::lemma_fundamental_div_mod(start, 8);
        }
        lemma_capture_run_len(b, row_of(start) + dr, col_of(start) + dc, dr, dc, disc);
    }
}

/// Every cell a single direction captures lies on the board and holds an
/// opposite-side disc.
proof fn lemma_dir_flips_cells(b: Seq<Option<Disc>>, start: int, disc: Disc, d: Direction)
    ensures
        forall|j: int|
            0 <= j < dir_flips(b, start, disc, d).len() ==> 0 <= #[trigger] dir_flips(
                b,
                start,
                disc,
                d,
            )[j] < 64 && b[dir_flips(b, start, disc, d)[j] as int] == Some(disc.spec_opposite()),
{
    let (dr, dc) = d.spec_delta();
    if 0 <= start < 64 {
        lemma_capture_run_cells(b, row_of(start) + dr, col_of(start) + dc, dr, dc, disc);
    }
}

/// The first `k` directions together capture at most `7 * k` cells, each on
/// the board and holding an opposite-side disc.
proof fn lemma_flips_up_to_cells(b: Seq<Option<Disc>>, start: int, disc: Disc, k: int)
    requires
        0 <= k <= 8,
    ensures
        flips_up_to(b, start, disc, k).len() <= 7 * k,
        forall|j: int|
            0 <= j < flips_up_to(b, start, disc, k).len() ==> 0 <= #[trigger] flips_up_to(
                b,
                start,
                disc,
                k,
            )[j] < 64 && b[flips_up_to(b, start, disc, k)[j] as int] == Some(disc.spec_opposite()),
    decreases k,
{
    if k > 0 {
        lemma_flips_up_to_cells(b, start, disc, k - 1);
        lemma_dir_flips_len(b, start, disc, direction_at(k - 1));
        lemma_dir_flips_cells(b, start, disc, direction_at(k - 1));
    }
}

/// Every cell a move captures lies on the board and holds an opposite-side
/// disc before the move.
proof fn lemma_all_flips_cells(b: Seq<Option<Disc>>, start: int, disc: Disc)
    ensures
        all_flips_of(b, start, disc).len() <= 56,
        forall|j: int|
            0 <= j < all_flips_of(b, start, disc).len() ==> 0 <= #[trigger] all_flips_of(
                b,
                start,
                disc,
            )[j] < 64 && b[all_flips_of(b, start, disc)[j] as int] == Some(disc.spec_opposite()),
{
    lemma_flips_up_to_cells(b, start, disc, 8);
}

proof fn lemma_move_empties_up_to(b: Seq<Option<Disc>>, start: int, disc: Disc, n: int)
    requires
        is_legal_move(b, start, disc),
        0 <= n <= 64,
    ensures
        empties_up_to(move_result(b, start, disc), n) + (if start < n {
            1nat
        } else {
            0nat
        }) == empties_up_to(b, n),
    decreases n,
{
    lemma_all_flips_cells(b, start, disc);
    if n > 0 {
        lemma_move_empties_up_to(b, start, disc, n - 1);
        let j = n - 1;
        let fl = all_flips_of(b, start, disc);
        if j != start && fl.contains(j as usize) {
            let m = choose|m: int| 0 <= m < fl.len() && fl[m] == j as usize;
            assert(b[all_flips_of(b, start, disc)[m] as int] == Some(disc.spec_opposite()));
        }
    }
}

/// A legal move fills exactly one empty cell, the placed one: captured cells
/// change colour but never become empty.
pub proof fn lemma_move_empties(b: Seq<Option<Disc>>, start: int, disc: Disc)
    requires
        is_legal_move(b, start, disc),
    ensures
        empty_count(move_result(b, start, disc)) + 1 == empty_count(b),
{
    lemma_move_empties_up_to(b, start, disc, 64);
}

/// A move never empties a cell: every occupied cell is still occupied after
/// the move is applied.
pub proof fn lemma_move_preserves_occupied(b: Seq<Option<Disc>>, start: int, disc: Disc)
    ensures
        forall|j: int|
            0 <= j < 64 && b[j] is Some ==> (#[trigger] move_result(b, start, disc)[j]) is Some,
{
}

/// The standard opening layout: White on cells 27 and 36, Black on cells 28
/// and 35, every other cell empty.
pub open spec fn start_board() -> Seq<Option<Disc>> {
    Seq::new(
        64,
        |i: int|
            if i == 27 {
                Some(Disc::White)
            } else if i == 28 {
                Some(Disc::Black)
            } else if i == 35 {
                Some(Disc::Black)
            } else if i == 36 {
                Some(Disc::White)
            } else {
                None
            },
    )
}

/// The cell one step in direction `d` from `index`: `None` when `index` is
/// off the board or the step would leave it.
pub open spec fn spec_next_index(index: int, d: Direction) -> Option<usize> {
    let (dr, dc) = d.spec_delta();
    if 0 <= index < 64 && in_bounds_coord(row_of(index) + dr, col_of(index) + dc) {
        Some(cell_index(row_of(index) + dr, col_of(index) + dc) as usize)
    } else {
        None
    }
}

/// The 8x8 Othello board: 64 cells in row-major order, each empty or holding
/// a disc. Its abstract value (the view) is the sequence of the 64 cells.
#[derive(PartialEq, Eq, Debug)]
pub struct Board {
    squares: Vec<Option<Disc>>,
}

impl View for Board {
    type V = Seq<Option<Disc>>;

    closed spec fn view(&self) -> Seq<Option<Disc>> {
        self.squares@
    }
}

impl Board {
    #[verifier::type_invariant]
    spec fn wf(self) -> bool {
        self.squares@.len() == 64
    }

    /// A board in the standard opening layout.
    pub fn new() -> (b: Board)
        ensures
            b@ == start_board(),
    {
        let mut squares: Vec<Option<Disc>> = Vec::new();
        let mut i: usize = 0;
        while i < 64
            invariant
                i <= 64,
                squares@.len() == i,
                forall|j: int| 0 <= j < i ==> squares@[j] is None,
            decreases 64 - i,
        {
            squares.push(None);
            i += 1;
        }
        squares[27] = Some(Disc::White);
        squares[28] = Some(Disc::Black);
        squares[35] = Some(Disc::Black);
        squares[36] = Some(Disc::White);
        let b = Board { squares };
        proof {
            assert(b@ =~= start_board());
        }
        b
    }

    /// The row-major index of (row, col), or `OutOfBounds` when either
    /// coordinate is 8 or more.
    pub fn index(&self, row: usize, col: usize) -> (r: Result<usize, BoardError>)
        ensures
            row < 8 && col < 8 ==> r == Ok::<usize, BoardError>((cell_index(
                row as int,
                col as int,
            )) as usize),
            !(row < 8 && col < 8) ==> r == Err::<usize, BoardError>(BoardError::OutOfBounds),
    {
        if row >= 8 || col >= 8 {
            Err(BoardError::OutOfBounds)
        } else {
            Ok(row * 8 + col)
        }
    }

    /// The (row, col) pair of a cell index, or `OutOfBounds` when the index is
    /// 64 or more.
    pub fn row_col(&self, index: usize) -> (r: Result<(usize, usize), BoardError>)
        ensures
            index < 64 ==> r == Ok::<(usize, usize), BoardError>(
                ((row_of(index as int)) as usize, (col_of(index as int)) as usize),
            ),
            index >= 64 ==> r == Err::<(usize, usize), BoardError>(BoardError::OutOfBounds),
    {
        if index >= 64 {
            Err(BoardError::OutOfBounds)
        } else {
            Ok((index / 8, index % 8))
        }
    }

    /// Steps a row coordinate by `delta`, `None` when that leaves the board.
    fn step_row(&self, row: usize, delta: isize) -> (r: Option<usize>)
        requires
            row < 8,
            -1 <= delta <= 1,
        ensures
            0 <= row + delta < 8 ==> r == Some(((row + delta) as int) as usize),
            !(0 <= row + delta < 8) ==> r is None,
    {
        Self::step_coord(row, delta, 8)
    }

    /// Steps a column coordinate by `delta`, `None` when that leaves the
    /// board.
    fn step_col(&self, col: usize, delta: isize) -> (r: Option<usize>)
        requires
            col < 8,
            -1 <= delta <= 1,
        ensures
            0 <= col + delta < 8 ==> r == Some(((col + delta) as int) as usize),
            !(0 <= col + delta < 8) ==> r is None,
    {
        Self::step_coord(col, delta, 8)
    }

    /// Steps a coordinate by `delta` within `0..limit`.
    fn step_coord(coord: usize, delta: isize, limit: usize) -> (r: Option<usize>)
        requires
            coord < limit,
            limit <= 8,
            -1 <= delta <= 1,
        ensures
            0 <= coord + delta < limit ==> r == Some(((coord + delta) as int) as usize),
            !(0 <= coord + delta < limit) ==> r is None,
    {
        let next = coord as isize + delta;
        if next < 0 || next >= limit as isize {
            None
        } else {
            Some(next as usize)
        }
    }

    /// The cell one step in `direction` from `index`; `None` when `index` is
    /// off the board or the step would leave it.
    pub fn next_index(&self, index: usize, direction: Direction) -> (r: Option<usize>)
        ensures
            r == spec_next_index(index as int, direction),
    {
        proof {
            lemma_index_row_col_bijection();
        }
        let (row, col) = match self.row_col(index) {
            Ok(rc) => rc,
            Err(_) => {
                return None;
            },
        };
        let (dr, dc) = direction.delta_row_col();
        let next_row = match self.step_row(row, dr) {
            Some(r) => r,
            None => {
                return None;
            },
        };
        let next_col = match self.step_col(col, dc) {
            Some(c) => c,
            None => {
                return None;
            },
        };
        match self.index(next_row, next_col) {
            Ok(i) => Some(i),
            Err(_) => {
                proof {
                    assert(false);
                }
                None
            },
        }
    }

    /// The content of a cell: `None` for empty, `Some(disc)` for an occupied
    /// cell; `OutOfBounds` when the index is 64 or more. Read-only.
    pub fn get_field(&self, index: usize) -> (r: Result<Option<Disc>, BoardError>)
        ensures
            index < 64 ==> r == Ok::<Option<Disc>, BoardError>(self@[index as int]),
            index >= 64 ==> r == Err::<Option<Disc>, BoardError>(BoardError::OutOfBounds),
    {
        proof {
            use_type_invariant(&*self);
        }
        if index < 64 {
            Ok(self.squares[index])
        } else {
            Err(BoardError::OutOfBounds)
        }
    }

    /// The cells a move by `disc` at `start` would capture in direction
    /// `dir`: `Some` of the run of opposite-side cells between `start` and a
    /// same-side disc, `None` when the direction captures nothing.
    #[verifier::loop_isolation(false)]
    pub fn flips_in_direction(&self, start: usize, disc: Disc, dir: Direction) -> (r: Option<
        arrayvec::ArrayVec<usize, 8>,
    >)
        ensures
            match r {
                Some(v) => run_elems(v) == dir_flips(self@, start as int, disc, dir) && run_elems(
                    v,
                ).len() > 0,
                None => dir_flips(self@, start as int, disc, dir).len() == 0,
            },
    {
        proof {
            use_type_invariant(&*self);
            lemma_index_row_col_bijection();
        }
        let ghost b = self@;
        let ghost (dr, dc) = dir.spec_delta();
        let opponent = disc.opposite();
        let mut flips = run_new();
        let mut index = match self.next_index(start, dir) {
            Some(i) => i,
            None => {
                // either `start` or its neighbour in `dir` is off the board
                return None;
            },
        };
        let ghost r0 = row_of(start as int) + dr;
        let ghost c0 = col_of(start as int) + dc;
        proof {
            assert(0 <= row_of(start as int) < 8 && 0 <= col_of(start as int) < 8) by {
                vstd::arithmetic::div_mod::lemma_fundamental_div_mod(start as int, 8);
            }
        }
        let first = match self.get_field(index) {
            Ok(f) => f,
            Err(_) => {
                proof {
                    assert(false);
                }
                return None;
            },
        };
        let first_is_opponent = match first {
            Some(d) => d == opponent,
            None => false,
        };
        if !first_is_opponent {
            // the adjacent cell is empty or already ours: nothing to capture
            proof {
                assert(dir_flips(b, start as int, disc, dir).len() == 0);
            }
            return None;
        }
        run_push(&mut flips, index);
        let ghost mut gr = r0;
        let ghost mut gc = c0;
        proof {
            assert(run_elems(flips) =~= seq![index]);
        }
        loop
            invariant
                in_bounds_coord(gr, gc),
                index == cell_index(gr, gc) as usize,
                b[cell_index(gr, gc)] == Some(disc.spec_opposite()),
                run_elems(flips).len() >= 1,
                run_elems(flips).len() + ray_measure(gr, gc, dr, dc) <= 8,
                capture_run(b, r0, c0, dr, dc, disc) == prepend_run(
                    run_elems(flips),
                    capture_run(b, gr + dr, gc + dc, dr, dc, disc),
                ),
            decreases ray_measure(gr, gc, dr, dc),
        {
            proof {
                assert(row_of(index as int) == gr && col_of(index as int) == gc);
            }
            let next = match self.next_index(index, dir) {
                Some(n) => n,
                None => {
                    // the run reaches the board edge without a terminator
                    return None;
                },
            };
            index = next;
            proof {
                gr = gr + dr;
                gc = gc + dc;
            }
            let field = match self.get_field(index) {
                Ok(f) => f,
                Err(_) => {
                    proof {
                        assert(false);
                    }
                    return None;
                },
            };
            match field {
                Some(d) => {
                    if d == opponent {
                        let ghost elems_before = run_elems(flips);
                        run_push(&mut flips, index);
                        proof {
                            match capture_run(b, gr + dr, gc + dc, dr, dc, disc) {
                                Some(s) => {
                                    assert(elems_before + (seq![index] + s) =~= run_elems(flips)
                                        + s);
                                },
                                None => {},
                            }
                        }
                    } else {
                        // terminated by one of our own discs: capture the run
                        proof {
                            assert(capture_run(b, gr, gc, dr, dc, disc) == Some(
                                Seq::<usize>::empty(),
                            ));
                            assert(run_elems(flips) + Seq::<usize>::empty() =~= run_elems(flips));
                        }
                        return Some(flips);
                    }
                },
                None => {
                    // an empty cell before any terminator: no capture here
                    return None;
                },
            }
        }
    }

    /// The direction at position `k` of the sweep over all eight directions.
    fn direction_of(k: usize) -> (d: Direction)
        requires
            k < 8,
        ensures
            d == direction_at(k as int),
    {
        if k == 0 {
            Direction::North
        } else if k == 1 {
            Direction::NorthEast
        } else if k == 2 {
            Direction::East
        } else if k == 3 {
            Direction::SouthEast
        } else if k == 4 {
            Direction::South
        } else if k == 5 {
            Direction::SouthWest
        } else if k == 6 {
            Direction::West
        } else {
            Direction::NorthWest
        }
    }

    /// Every cell a move by `disc` at `start` would capture, over all eight
    /// directions: `None` when no direction captures anything (so the move is
    /// not legal there).
    #[verifier::loop_isolation(false)]
    pub fn all_flips(&self, start: usize, disc: Disc) -> (r: Option<
        arrayvec::ArrayVec<usize, 64>,
    >)
        ensures
            match r {
                Some(v) => move_elems(v) == all_flips_of(self@, start as int, disc) && move_elems(
                    v,
                ).len() > 0,
                None => all_flips_of(self@, start as int, disc).len() == 0,
            },
    {
        let ghost b = self@;
        let mut all = move_new();
        let mut k: usize = 0;
        proof {
            assert(move_elems(all) =~= flips_up_to(b, start as int, disc, 0));
        }
        while k < 8
            invariant
                k <= 8,
                move_elems(all) == flips_up_to(b, start as int, disc, k as int),
                move_elems(all).len() <= 7 * k,
            decreases 8 - k,
        {
            let dir = Self::direction_of(k);
            match self.flips_in_direction(start, disc, dir) {
                Some(run) => {
                    proof {
                        lemma_dir_flips_len(b, start as int, disc, dir);
                    }
                    let ok = move_extend(&mut all, &run);
                    assert(ok);
                },
                None => {
                    proof {
                        assert(flips_up_to(b, start as int, disc, k as int + 1) =~= move_elems(
                            all,
                        ));
                    }
                },
            }
            k += 1;
        }
        if move_is_empty(&all) {
            None
        } else {
            Some(all)
        }
    }

    /// Places `disc` on the cell at `index`, overwriting whatever was there;
    /// `OutOfBounds` (and no change) when the index is 64 or more.
    pub fn set_field(&mut self, index: usize, disc: Disc) -> (r: Result<(), BoardError>)
        ensures
            index < 64 ==> r == Ok::<(), BoardError>(()) && final(self)@ == old(self)@.update(
                index as int,
                Some(disc),
            ),
            index >= 64 ==> r == Err::<(), BoardError>(BoardError::OutOfBounds) && final(self)@
                == old(self)@,
    {
        proof {
            use_type_invariant(&*self);
        }
        if index < 64 {
            self.squares[index] = Some(disc);
            Ok(())
        } else {
            Err(BoardError::OutOfBounds)
        }
    }

    /// Applies a move by `disc` at `start`: places the disc and flips every
    /// captured cell, or fails without touching the board. Occupancy is
    /// checked before capture legality, so an occupied target always reports
    /// `SquareOccupied`.
    #[verifier::loop_isolation(false)]
    pub fn apply_move(&mut self, start: usize, disc: Disc) -> (r: Result<(), BoardError>)
        ensures
            start >= 64 ==> r == Err::<(), BoardError>(BoardError::OutOfBounds),
            start < 64 && old(self)@[start as int] is Some ==> r == Err::<(), BoardError>(
                BoardError::SquareOccupied,
            ),
            start < 64 && old(self)@[start as int] is None && !is_legal_move(
                old(self)@,
                start as int,
                disc,
            ) ==> r == Err::<(), BoardError>(BoardError::InvalidMove),
            is_legal_move(old(self)@, start as int, disc) ==> r == Ok::<(), BoardError>(())
                && final(self)@ == move_result(old(self)@, start as int, disc),
            r is Err ==> final(self)@ == old(self)@,
    {
        proof {
            use_type_invariant(&*self);
        }
        let ghost b0 = self@;
        match self.get_field(start) {
            Ok(None) => {},
            Ok(_) => {
                return Err(BoardError::SquareOccupied);
            },
            Err(_) => {
                return Err(BoardError::OutOfBounds);
            },
        }
        let flips = match self.all_flips(start, disc) {
            Some(f) => f,
            None => {
                return Err(BoardError::InvalidMove);
            },
        };
        let idxs = move_to_vec(&flips);
        let ghost fl = all_flips_of(b0, start as int, disc);
        proof {
            lemma_all_flips_cells(b0, start as int, disc);
        }
        self.set_field(start, disc)?;
        proof {
            assert(fl.take(0) =~= Seq::<usize>::empty());
            assert(self@ =~= Seq::new(
                64,
                |j: int|
                    if j == start as int || fl.take(0).contains(j as usize) {
                        Some(disc)
                    } else {
                        b0[j]
                    },
            ));
        }
        let mut i: usize = 0;
        while i < idxs.len()
            invariant
                i <= idxs@.len(),
                self@ == Seq::new(
                    64,
                    |j: int|
                        if j == start as int || fl.take(i as int).contains(j as usize) {
                            Some(disc)
                        } else {
                            b0[j]
                        },
                ),
            decreases idxs@.len() - i,
        {
            let cell = idxs[i];
            proof {
                assert(0 <= all_flips_of(b0, start as int, disc)[i as int] < 64);
            }
            match self.set_field(cell, disc) {
                Ok(_) => {},
                Err(_) => {
                    proof {
                        assert(false);
                    }
                    return Err(BoardError::OutOfBounds);
                },
            }
            proof {
                let t = fl.take(i as int + 1);
                assert(t =~= fl.take(i as int).push(fl[i as int]));
                assert(t.contains(fl[i as int])) by {
                    assert(t[i as int] == fl[i as int]);
                }
                assert forall|x: usize| t.contains(x) implies (fl.take(i as int).contains(x) || x
                    == fl[i as int]) by {
                    let m = choose|m: int| 0 <= m < t.len() && t[m] == x;
                    if m < i as int {
                        assert(fl.take(i as int)[m] == x);
                    }
                }
                assert forall|x: usize| fl.take(i as int).contains(x) implies t.contains(x) by {
                    let m = choose|m: int| 0 <= m < fl.take(i as int).len() && fl.take(i as int)[m]
                        == x;
                    assert(t[m] == x);
                }
                assert(self@ =~= Seq::new(
                    64,
                    |j: int|
                        if j == start as int || fl.take(i as int + 1).contains(j as usize) {
                            Some(disc)
                        } else {
                            b0[j]
                        },
                ));
            }
            i += 1;
        }
        proof {
            assert(fl.take(fl.len() as int) =~= fl);
            assert(self@ =~= move_result(b0, start as int, disc));
        }
        Ok(())
    }

    /// Whether a move by `disc` at `start` is currently legal: the cell is on
    /// the board, empty, and at least one direction captures something. Never
    /// errs: an out-of-bounds index simply gives `false`.
    pub fn is_valid_move(&self, start: usize, disc: Disc) -> (r: bool)
        ensures
            r == is_legal_move(self@, start as int, disc),
    {
        match self.get_field(start) {
            Ok(None) => {},
            _ => {
                return false;
            },
        }
        self.all_flips(start, disc).is_some()
    }

    /// How many cells currently hold `disc`.
    #[verifier::loop_isolation(false)]
    pub fn count_discs(&self, disc: Disc) -> (r: usize)
        ensures
            r == disc_count(self@, disc),
    {
        proof {
            use_type_invariant(&*self);
        }
        let mut count: usize = 0;
        let mut i: usize = 0;
        while i < 64
            invariant
                i <= 64,
                count <= i,
                count == count_up_to(self@, disc, i as int),
            decreases 64 - i,
        {
            let held = match self.squares[i] {
                Some(d) => d == disc,
                None => false,
            };
            if held {
                count += 1;
            }
            i += 1;
        }
        count
    }

    /// All currently legal moves for `disc`, as cell indices in increasing
    /// order.
    #[verifier::loop_isolation(false)]
    pub fn valid_moves(&self, disc: Disc) -> (r: Vec<usize>)
        ensures
            r@ == legal_moves(self@, disc),
    {
        let mut moves: Vec<usize> = Vec::new();
        let mut i: usize = 0;
        proof {
            assert(moves@ =~= legal_up_to(self@, disc, 0));
        }
        while i < 64
            invariant
                i <= 64,
                moves@ == legal_up_to(self@, disc, i as int),
            decreases 64 - i,
        {
            if self.is_valid_move(i, disc) {
                moves.push(i);
            }
            i += 1;
        }
        moves
    }
}

} // verus!
