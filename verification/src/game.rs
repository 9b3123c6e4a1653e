use vstd::prelude::*;

verus! {

/// The four corners of a cell on the roulette table, seen from that cell.
#[derive(Clone, Copy, Debug)]
pub enum CornerType {
    BottomLeft,
    BottomRight,
    TopLeft,
    TopRight,
}

/// The four neighbours of a cell that a two-number line bet can reach.
#[derive(Clone, Copy, Debug)]
pub enum LineType {
    Over,
    Under,
    Left,
    Right,
}

/// A bet on the outcome of a roulette spin.
///
/// The table holds the numbers 1..=36 in rows of three (`1 2 3`, `4 5 6`, ...),
/// plus a single zero. A `Line` names two neighbouring cells and a `Corner`
/// the four cells around a corner; the order in which their numbers are
/// written does not matter (see the `PartialEq` impl).
#[derive(Clone, Copy, Debug)]
#[allow(inconsistent_fields)]
pub enum GameResult {
    Exact { num: u32 },
    Even,
    Odd,
    Range1to18,
    Range19to36,
    Range1to12,
    Range13to24,
    Range25to36,
    Range2to1First,
    Range2to1Second,
    Range2to1Third,
    Red,
    Black,
    Line { nums: (u32, u32) },
    Corner { nums: (u32, u32, u32, u32) },
}

// ---------------------------------------------------------------------------
// The model of the table
// ---------------------------------------------------------------------------

/// How often `x` occurs among the four numbers of `q`.
pub open spec fn count4(q: (u32, u32, u32, u32), x: u32) -> int {
    (if q.0 == x { 1int } else { 0int }) + (if q.1 == x { 1int } else { 0int }) + (if q.2 == x {
        1int
    } else {
        0int
    }) + (if q.3 == x { 1int } else { 0int })
}

/// Two quadruples hold the same numbers, counted with multiplicity.
pub open spec fn same_cells(a: (u32, u32, u32, u32), b: (u32, u32, u32, u32)) -> bool {
    forall|x: u32| #![trigger count4(a, x)] #![trigger count4(b, x)] count4(a, x) == count4(b, x)
}

/// Two pairs hold the same numbers, in either order.
pub open spec fn same_pair(a: (u32, u32), b: (u32, u32)) -> bool {
    (a.0 == b.0 && a.1 == b.1) || (a.0 == b.1 && a.1 == b.0)
}

/// Two bets are the same bet: lines and corners regardless of the order of their numbers.
pub open spec fn same_bet(g: GameResult, h: GameResult) -> bool {
    match (g, h) {
        (GameResult::Line { nums: a }, GameResult::Line { nums: b }) => same_pair(a, b),
        (GameResult::Corner { nums: a }, GameResult::Corner { nums: b }) => same_cells(a, b),
        _ => g == h,
    }
}

/// Cell `b` lies right of cell `a` in the same row, or directly below it.
pub open spec fn adjacent(a: u32, b: u32) -> bool {
    &&& 1 <= a
    &&& b <= 36
    &&& (b == a + 3 || (b == a + 1 && a % 3 != 0))
}

/// A line bet covers two neighbouring cells.
pub open spec fn valid_line(p: (u32, u32)) -> bool {
    adjacent(p.0, p.1) || adjacent(p.1, p.0)
}

/// `n` is the smallest cell of a two-by-two square on the table.
pub open spec fn corner_anchor(n: u32) -> bool {
    1 <= n && n + 4 <= 36 && n % 3 != 0
}

/// The four cells of the square whose smallest cell is `n`.
pub open spec fn square(n: u32) -> (u32, u32, u32, u32) {
    (n, (n + 1) as u32, (n + 3) as u32, (n + 4) as u32)
}

/// A corner bet covers the four cells of a square on the table.
pub open spec fn valid_corner(q: (u32, u32, u32, u32)) -> bool {
    exists|n: u32| corner_anchor(n) && #[trigger] same_cells(q, square(n))
}

/// A bet that can be placed on the table.
pub open spec fn valid_bet(g: GameResult) -> bool {
    match g {
        GameResult::Exact { num } => num <= 36,
        GameResult::Line { nums } => valid_line(nums),
        GameResult::Corner { nums } => valid_corner(nums),
        _ => true,
    }
}

/// The red numbers of the table.
pub open spec fn is_red(r: u32) -> bool {
    r == 1 || r == 3 || r == 5 || r == 7 || r == 9 || r == 12 || r == 14 || r == 16 || r == 18
        || r == 19 || r == 21 || r == 23 || r == 25 || r == 27 || r == 30 || r == 32 || r == 34
        || r == 36
}

/// Bet `g` wins when the ball lands on `r`.
pub open spec fn covers(g: GameResult, r: u32) -> bool {
    match g {
        GameResult::Exact { num } => num == r,
        GameResult::Even => r != 0 && r % 2 == 0,
        GameResult::Odd => r % 2 == 1,
        GameResult::Range1to18 => 1 <= r <= 18,
        GameResult::Range19to36 => 19 <= r <= 36,
        GameResult::Range1to12 => 1 <= r <= 12,
        GameResult::Range13to24 => 13 <= r <= 24,
        GameResult::Range25to36 => 25 <= r <= 36,
        GameResult::Range2to1First => r % 3 == 1,
        GameResult::Range2to1Second => r % 3 == 2,
        GameResult::Range2to1Third => r != 0 && r % 3 == 0,
        GameResult::Red => is_red(r),
        GameResult::Black => 1 <= r <= 36 && !is_red(r),
        GameResult::Line { nums } => nums.0 == r || nums.1 == r,
        GameResult::Corner { nums } => count4(nums, r) > 0,
    }
}

/// Some element of `s` is the same bet as `g`.
pub open spec fn includes(s: Seq<GameResult>, g: GameResult) -> bool {
    exists|i: int| 0 <= i < s.len() && #[trigger] same_bet(s[i], g)
}

/// What a winning bet returns, as a multiple of its stake.
pub open spec fn payout_multiple(g: GameResult) -> u32 {
    match g {
        GameResult::Exact { .. } => 36,
        GameResult::Line { .. } => 18,
        GameResult::Corner { .. } => 9,
        GameResult::Range1to12 | GameResult::Range13to24 | GameResult::Range25to36
        | GameResult::Range2to1First | GameResult::Range2to1Second
        | GameResult::Range2to1Third => 3,
        _ => 2,
    }
}

/// The corner that `corner_result` builds.
pub open spec fn corner_of(w: u32, corner: CornerType) -> GameResult {
    match corner {
        CornerType::BottomLeft => GameResult::Corner {
            nums: (w, (w + 3) as u32, (w - 1) as u32, (w + 2) as u32),
        },
        CornerType::BottomRight => GameResult::Corner {
            nums: (w, (w + 3) as u32, (w + 1) as u32, (w + 4) as u32),
        },
        CornerType::TopLeft => GameResult::Corner {
            nums: (w, (w - 1) as u32, (w - 3) as u32, (w - 4) as u32),
        },
        CornerType::TopRight => GameResult::Corner {
            nums: (w, (w + 1) as u32, (w - 3) as u32, (w - 2) as u32),
        },
    }
}

/// The numbers of `corner_of(w, corner)` stay within `u32`.
pub open spec fn corner_fits(w: u32, corner: CornerType) -> bool {
    match corner {
        CornerType::BottomLeft => 1 <= w && w + 3 <= u32::MAX,
        CornerType::BottomRight => w + 4 <= u32::MAX,
        CornerType::TopLeft => 4 <= w,
        CornerType::TopRight => 3 <= w && w + 1 <= u32::MAX,
    }
}

/// The line that `line_result` builds.
pub open spec fn line_of(w: u32, line: LineType) -> GameResult {
    match line {
        LineType::Over => GameResult::Line { nums: (w, (w - 3) as u32) },
        LineType::Under => GameResult::Line { nums: (w, (w + 3) as u32) },
        LineType::Left => GameResult::Line { nums: (w, (w + 1) as u32) },
        LineType::Right => GameResult::Line { nums: (w, (w - 1) as u32) },
    }
}

/// The numbers of `line_of(w, line)` stay within `u32`.
pub open spec fn line_fits(w: u32, line: LineType) -> bool {
    match line {
        LineType::Over => 3 <= w,
        LineType::Under => w + 3 <= u32::MAX,
        LineType::Left => w + 1 <= u32::MAX,
        LineType::Right => 1 <= w,
    }
}

// ---------------------------------------------------------------------------
// Equality, validity and payout of a bet
// ---------------------------------------------------------------------------

fn count4_exec(q: (u32, u32, u32, u32), x: u32) -> (c: u32)
    ensures
        c == count4(q, x),
{
    let mut c: u32 = 0;
    if q.0 == x {
        c = c + 1;
    }
    if q.1 == x {
        c = c + 1;
    }
    if q.2 == x {
        c = c + 1;
    }
    if q.3 == x {
        c = c + 1;
    }
    c
}

fn same_cells_exec(a: (u32, u32, u32, u32), b: (u32, u32, u32, u32)) -> (r: bool)
    ensures
        r == same_cells(a, b),
{
    let r = count4_exec(a, a.0) == count4_exec(b, a.0) && count4_exec(a, a.1) == count4_exec(b, a.1)
        && count4_exec(a, a.2) == count4_exec(b, a.2) && count4_exec(a, a.3) == count4_exec(b, a.3)
        && count4_exec(a, b.0) == count4_exec(b, b.0) && count4_exec(a, b.1) == count4_exec(b, b.1)
        && count4_exec(a, b.2) == count4_exec(b, b.2) && count4_exec(a, b.3) == count4_exec(
        b,
        b.3,
    );
    proof {
        if r {
            assert forall|x: u32| #[trigger] count4(a, x) == count4(b, x) by {
                if x != a.0 && x != a.1 && x != a.2 && x != a.3 && x != b.0 && x != b.1 && x != b.2
                    && x != b.3 {
                    assert(count4(a, x) == 0);
                    assert(count4(b, x) == 0);
                }
            }
        } else {
            if same_cells(a, b) {
                assert(count4(a, a.0) == count4(b, a.0));
                assert(count4(a, a.1) == count4(b, a.1));
                assert(count4(a, a.2) == count4(b, a.2));
                assert(count4(a, a.3) == count4(b, a.3));
                assert(count4(a, b.0) == count4(b, b.0));
                assert(count4(a, b.1) == count4(b, b.1));
                assert(count4(a, b.2) == count4(b, b.2));
                assert(count4(a, b.3) == count4(b, b.3));
            }
        }
    }
    r
}

/// A number identifying each kind of bet.
spec fn kind(g: GameResult) -> u32 {
    match g {
        GameResult::Exact { .. } => 0,
        GameResult::Even => 1,
        GameResult::Odd => 2,
        GameResult::Range1to18 => 3,
        GameResult::Range19to36 => 4,
        GameResult::Range1to12 => 5,
        GameResult::Range13to24 => 6,
        GameResult::Range25to36 => 7,
        GameResult::Range2to1First => 8,
        GameResult::Range2to1Second => 9,
        GameResult::Range2to1Third => 10,
        GameResult::Red => 11,
        GameResult::Black => 12,
        GameResult::Line { .. } => 13,
        GameResult::Corner { .. } => 14,
    }
}

fn kind_exec(g: &GameResult) -> (k: u32)
    ensures
        k == kind(*g),
{
    match g {
        GameResult::Exact { .. } => 0,
        GameResult::Even => 1,
        GameResult::Odd => 2,
        GameResult::Range1to18 => 3,
        GameResult::Range19to36 => 4,
        GameResult::Range1to12 => 5,
        GameResult::Range13to24 => 6,
        GameResult::Range25to36 => 7,
        GameResult::Range2to1First => 8,
        GameResult::Range2to1Second => 9,
        GameResult::Range2to1Third => 10,
        GameResult::Red => 11,
        GameResult::Black => 12,
        GameResult::Line { .. } => 13,
        GameResult::Corner { .. } => 14,
    }
}

impl PartialEq for GameResult {
    fn eq(&self, other: &Self) -> (r: bool) {
        match (self, other) {
            (GameResult::Exact { num: a }, GameResult::Exact { num: b }) => *a == *b,
            (GameResult::Line { nums: a }, GameResult::Line { nums: b }) => (a.0 == b.0 && a.1
                == b.1) || (a.0 == b.1 && a.1 == b.0),
            (GameResult::Corner { nums: a }, GameResult::Corner { nums: b }) => same_cells_exec(
                *a,
                *b,
            ),
            _ => {
                let same_kind = kind_exec(self) == kind_exec(other);
                proof {
                    if same_kind {
                        assert(*self == *other);
                    }
                }
                same_kind
            },
        }
    }
}

impl vstd::std_specs::cmp::PartialEqSpecImpl for GameResult {
    open spec fn obeys_eq_spec() -> bool {
        true
    }

    open spec fn eq_spec(&self, other: &GameResult) -> bool {
        same_bet(*self, *other)
    }
}

fn adjacent_exec(a: u32, b: u32) -> (r: bool)
    ensures
        r == adjacent(a, b),
{
    1 <= a && a <= 36 && b <= 36 && (b == a + 3 || (b == a + 1 && a % 3 != 0))
}

fn corner_anchor_exec(n: u32) -> (r: bool)
    ensures
        r == corner_anchor(n),
{
    1 <= n && n <= 32 && n % 3 != 0
}

/// Whether `q` is the square with smallest cell `n`.
fn square_at(q: (u32, u32, u32, u32), n: u32) -> (r: bool)
    ensures
        r == (corner_anchor(n) && same_cells(q, square(n))),
{
    corner_anchor_exec(n) && same_cells_exec(q, (n, n + 1, n + 3, n + 4))
}

impl GameResult {
    /// Whether this bet can be placed on the table.
    pub fn validate(&self) -> (r: bool)
        ensures
            r == valid_bet(*self),
    {
        match self {
            GameResult::Exact { num } => *num <= 36,
            GameResult::Line { nums } => adjacent_exec(nums.0, nums.1) || adjacent_exec(
                nums.1,
                nums.0,
            ),
            GameResult::Corner { nums } => {
                let q = *nums;
                let r = square_at(q, q.0) || square_at(q, q.1) || square_at(q, q.2) || square_at(
                    q,
                    q.3,
                );
                proof {
                    if valid_corner(q) {
                        let n = choose|n: u32| corner_anchor(n) && #[trigger] same_cells(q, square(n));
                        assert(count4(square(n), n) >= 1);
                        assert(count4(q, n) >= 1);
                    }
                }
                r
            },
            _ => true,
        }
    }

    /// What this bet returns when it wins, as a multiple of its stake.
    pub fn payout(&self) -> (m: u32)
        ensures
            m == payout_multiple(*self),
    {
        match self {
            GameResult::Exact { .. } => 36,
            GameResult::Line { .. } => 18,
            GameResult::Corner { .. } => 9,
            GameResult::Range1to12 | GameResult::Range13to24 | GameResult::Range25to36
            | GameResult::Range2to1First | GameResult::Range2to1Second
            | GameResult::Range2to1Third => 3,
            _ => 2,
        }
    }
}

// ---------------------------------------------------------------------------
// Building the winning bets of a spin
// ---------------------------------------------------------------------------

/// The corner bet of kind `corner` that holds cell `winner`.
pub fn corner_result(winner: u32, corner: CornerType) -> (r: GameResult)
    requires
        corner_fits(winner, corner),
    ensures
        r == corner_of(winner, corner),
{
    match corner {
        CornerType::BottomLeft => GameResult::Corner {
            nums: (winner, winner + 3, winner - 1, winner + 2),
        },
        CornerType::BottomRight => GameResult::Corner {
            nums: (winner, winner + 3, winner + 1, winner + 4),
        },
        CornerType::TopLeft => GameResult::Corner {
            nums: (winner, winner - 1, winner - 3, winner - 4),
        },
        CornerType::TopRight => GameResult::Corner {
            nums: (winner, winner + 1, winner - 3, winner - 2),
        },
    }
}

/// The line bet of kind `line` that holds cell `winner`.
pub fn line_result(winner: u32, line: LineType) -> (r: GameResult)
    requires
        line_fits(winner, line),
    ensures
        r == line_of(winner, line),
{
    match line {
        LineType::Over => GameResult::Line { nums: (winner, winner - 3) },
        LineType::Under => GameResult::Line { nums: (winner, winner + 3) },
        LineType::Left => GameResult::Line { nums: (winner, winner + 1) },
        LineType::Right => GameResult::Line { nums: (winner, winner - 1) },
    }
}


// ---------------------------------------------------------------------------
// The winning bets of a spin: how they are assembled, and why they are right
// ---------------------------------------------------------------------------

/// The even-or-odd bet that wins on `r`.
pub open spec fn parity_bet(r: u32) -> GameResult {
    if r % 2 == 0 { GameResult::Even } else { GameResult::Odd }
}

/// The low-or-high bet that wins on `r`.
pub open spec fn half_bet(r: u32) -> GameResult {
    if r >= 19 { GameResult::Range19to36 } else { GameResult::Range1to18 }
}

/// The dozen bet that wins on `r`.
pub open spec fn dozen_bet(r: u32) -> GameResult {
    if r <= 12 {
        GameResult::Range1to12
    } else if r <= 24 {
        GameResult::Range13to24
    } else {
        GameResult::Range25to36
    }
}

/// The colour bet that wins on `r`.
pub open spec fn color_bet(r: u32) -> GameResult {
    if is_red(r) { GameResult::Red } else { GameResult::Black }
}

/// The first bets listed for a non-zero `r`: the number, its parity and its half.
pub open spec fn head_bets(r: u32) -> Seq<GameResult> {
    seq![GameResult::Exact { num: r }, parity_bet(r), half_bet(r)]
}

/// The column bet of `r`, then its corners and its lines within the row, in listing order.
pub open spec fn column_bets(r: u32) -> Seq<GameResult> {
    let bl = corner_of(r, CornerType::BottomLeft);
    let br = corner_of(r, CornerType::BottomRight);
    let tl = corner_of(r, CornerType::TopLeft);
    let tr = corner_of(r, CornerType::TopRight);
    let left = line_of(r, LineType::Left);
    let right = line_of(r, LineType::Right);
    if r % 3 == 0 {
        if r == 36 {
            seq![GameResult::Range2to1Third, tl, right]
        } else if r == 3 {
            seq![GameResult::Range2to1Third, bl, right]
        } else {
            seq![GameResult::Range2to1Third, bl, tl, right]
        }
    } else if r % 3 == 1 {
        if r == 34 {
            seq![GameResult::Range2to1First, tr, left]
        } else if r == 1 {
            seq![GameResult::Range2to1First, br, left]
        } else {
            seq![GameResult::Range2to1First, br, tr, left]
        }
    } else {
        if r == 2 {
            seq![GameResult::Range2to1Second, bl, br, right, left]
        } else if r == 35 {
            seq![GameResult::Range2to1Second, tr, tl, right, left]
        } else {
            seq![GameResult::Range2to1Second, tr, tl, bl, br, right, left]
        }
    }
}

/// The lines of `r` that reach into the row above or below, in listing order.
pub open spec fn row_bets(r: u32) -> Seq<GameResult> {
    if r <= 3 {
        seq![line_of(r, LineType::Under)]
    } else if r >= 34 {
        seq![line_of(r, LineType::Over)]
    } else {
        seq![line_of(r, LineType::Over), line_of(r, LineType::Under)]
    }
}

/// The last bets listed for a non-zero `r`: its dozen and its colour.
pub open spec fn tail_bets(r: u32) -> Seq<GameResult> {
    seq![dozen_bet(r), color_bet(r)]
}

/// The winning bets of `r` in the order `return_winning_numbers` lists them.
pub open spec fn winning_numbers(r: u32) -> Seq<GameResult> {
    if r == 0 {
        seq![GameResult::Exact { num: 0 }]
    } else {
        head_bets(r) + column_bets(r) + row_bets(r) + tail_bets(r)
    }
}

/// Every element of `s` is a valid bet that wins on `r`.
spec fn all_win(s: Seq<GameResult>, r: u32) -> bool {
    forall|i: int| 0 <= i < s.len() ==> valid_bet(#[trigger] s[i]) && covers(s[i], r)
}

proof fn lemma_all_win_concat(a: Seq<GameResult>, b: Seq<GameResult>, r: u32)
    requires
        all_win(a, r),
        all_win(b, r),
    ensures
        all_win(a + b, r),
{
    assert forall|i: int| 0 <= i < (a + b).len() implies valid_bet(#[trigger] (a + b)[i]) && covers(
        (a + b)[i],
        r,
    ) by {
        if i < a.len() {
            assert((a + b)[i] == a[i]);
        } else {
            assert((a + b)[i] == b[i - a.len()]);
        }
    }
}

proof fn lemma_includes_concat(a: Seq<GameResult>, b: Seq<GameResult>, g: GameResult)
    requires
        includes(a, g) || includes(b, g),
    ensures
        includes(a + b, g),
{
    if includes(a, g) {
        let i = choose|i: int| 0 <= i < a.len() && #[trigger] same_bet(a[i], g);
        assert((a + b)[i] == a[i]);
    } else {
        let i = choose|i: int| 0 <= i < b.len() && #[trigger] same_bet(b[i], g);
        assert((a + b)[a.len() + i] == b[i]);
    }
}

/// A corner of kind `corner` at `w` is the square anchored at `n`.
proof fn lemma_corner_is_square(w: u32, corner: CornerType, n: u32)
    requires
        corner_anchor(n),
        corner_fits(w, corner),
        match corner {
            CornerType::BottomLeft => n == w - 1,
            CornerType::BottomRight => n == w,
            CornerType::TopLeft => n == w - 4,
            CornerType::TopRight => n == w - 3,
        },
    ensures
        corner_of(w, corner) matches GameResult::Corner { nums } && same_cells(nums, square(n)),
        valid_bet(corner_of(w, corner)),
        covers(corner_of(w, corner), w),
{
    if let GameResult::Corner { nums: q } = corner_of(w, corner) {
        assert forall|x: u32| #[trigger] count4(q, x) == count4(square(n), x) by {}
        assert(same_cells(q, square(n)));
    }
}

proof fn lemma_column_bets_win(r: u32)
    requires
        1 <= r <= 36,
    ensures
        all_win(column_bets(r), r),
{
    let s = column_bets(r);
    if r % 3 == 0 {
        if r != 36 {
            lemma_corner_is_square(r, CornerType::BottomLeft, (r - 1) as u32);
        }
        if r != 3 {
            lemma_corner_is_square(r, CornerType::TopLeft, (r - 4) as u32);
        }
    } else if r % 3 == 1 {
        if r != 34 {
            lemma_corner_is_square(r, CornerType::BottomRight, r);
        }
        if r != 1 {
            lemma_corner_is_square(r, CornerType::TopRight, (r - 3) as u32);
        }
    } else {
        if r != 2 {
            lemma_corner_is_square(r, CornerType::TopRight, (r - 3) as u32);
            lemma_corner_is_square(r, CornerType::TopLeft, (r - 4) as u32);
        }
        if r != 35 {
            lemma_corner_is_square(r, CornerType::BottomLeft, (r - 1) as u32);
            lemma_corner_is_square(r, CornerType::BottomRight, r);
        }
    }
    assert(all_win(s, r));
}

/// Every bet that `return_winning_numbers` lists is valid and wins on `r`.
proof fn lemma_winning_numbers_win(r: u32)
    requires
        r <= 36,
    ensures
        all_win(winning_numbers(r), r),
{
    if r != 0 {
        lemma_column_bets_win(r);
        assert(all_win(head_bets(r), r));
        assert(all_win(row_bets(r), r));
        assert(all_win(tail_bets(r), r));
        lemma_all_win_concat(head_bets(r), column_bets(r), r);
        lemma_all_win_concat(head_bets(r) + column_bets(r), row_bets(r), r);
        lemma_all_win_concat(head_bets(r) + column_bets(r) + row_bets(r), tail_bets(r), r);
    }
}

proof fn lemma_includes_at(s: Seq<GameResult>, i: int, g: GameResult)
    requires
        0 <= i < s.len(),
        same_bet(s[i], g),
    ensures
        includes(s, g),
{
}

/// Whether `column_bets(r)` holds the corner of kind `t` at `r`.
spec fn has_corner(r: u32, t: CornerType) -> bool {
    match t {
        CornerType::BottomLeft => (r % 3 == 0 && r != 36) || (r % 3 == 2 && r != 35),
        CornerType::BottomRight => (r % 3 == 1 && r != 34) || (r % 3 == 2 && r != 35),
        CornerType::TopLeft => (r % 3 == 0 && r != 3) || (r % 3 == 2 && r != 2),
        CornerType::TopRight => (r % 3 == 1 && r != 1) || (r % 3 == 2 && r != 2),
    }
}

proof fn lemma_column_has_corner(r: u32, t: CornerType, g: GameResult)
    requires
        1 <= r <= 36,
        has_corner(r, t),
        same_bet(corner_of(r, t), g),
    ensures
        includes(column_bets(r), g),
{
    let c = column_bets(r);
    let x = corner_of(r, t);
    if r % 3 == 0 {
        if r == 36 {
            lemma_includes_at(c, 1, g);
        } else if r == 3 {
            lemma_includes_at(c, 1, g);
        } else {
            match t {
                CornerType::BottomLeft => lemma_includes_at(c, 1, g),
                _ => lemma_includes_at(c, 2, g),
            }
        }
    } else if r % 3 == 1 {
        if r == 34 {
            lemma_includes_at(c, 1, g);
        } else if r == 1 {
            lemma_includes_at(c, 1, g);
        } else {
            match t {
                CornerType::BottomRight => lemma_includes_at(c, 1, g),
                _ => lemma_includes_at(c, 2, g),
            }
        }
    } else {
        if r == 2 {
            match t {
                CornerType::BottomLeft => lemma_includes_at(c, 1, g),
                _ => lemma_includes_at(c, 2, g),
            }
        } else if r == 35 {
            match t {
                CornerType::TopRight => lemma_includes_at(c, 1, g),
                _ => lemma_includes_at(c, 2, g),
            }
        } else {
            match t {
                CornerType::TopRight => lemma_includes_at(c, 1, g),
                CornerType::TopLeft => lemma_includes_at(c, 2, g),
                CornerType::BottomLeft => lemma_includes_at(c, 3, g),
                CornerType::BottomRight => lemma_includes_at(c, 4, g),
            }
        }
    }
}

/// A valid corner bet that holds `r` is listed among the column bets of `r`.
proof fn lemma_corner_complete(r: u32, g: GameResult)
    requires
        1 <= r <= 36,
        g is Corner,
        valid_bet(g),
        covers(g, r),
    ensures
        includes(column_bets(r), g),
{
    if let GameResult::Corner { nums: q } = g {
        let n = choose|n: u32| corner_anchor(n) && #[trigger] same_cells(q, square(n));
        assert(count4(q, r) == count4(square(n), r));
        let t = if r == n {
            CornerType::BottomRight
        } else if r == n + 1 {
            CornerType::BottomLeft
        } else if r == n + 3 {
            CornerType::TopRight
        } else {
            CornerType::TopLeft
        };
        lemma_corner_is_square(r, t, n);
        if let GameResult::Corner { nums: p } = corner_of(r, t) {
            assert forall|x: u32| #[trigger] count4(p, x) == count4(q, x) by {
                assert(count4(p, x) == count4(square(n), x));
                assert(count4(q, x) == count4(square(n), x));
            }
            assert(same_cells(p, q));
        }
        lemma_column_has_corner(r, t, g);
    }
}

/// A valid line bet that holds `r` is listed among the column or row bets of `r`.
proof fn lemma_line_complete(r: u32, g: GameResult)
    requires
        1 <= r <= 36,
        g is Line,
        valid_bet(g),
        covers(g, r),
    ensures
        includes(column_bets(r) + row_bets(r), g),
{
    if let GameResult::Line { nums: p } = g {
        let c = column_bets(r);
        let w = row_bets(r);
        let o = if p.0 == r { p.1 } else { p.0 };
        assert(same_pair(p, (r, o)));
        if o == r + 3 {
            if r <= 3 {
                lemma_includes_at(w, 0, g);
            } else {
                lemma_includes_at(w, 1, g);
            }
        } else if o + 3 == r {
            lemma_includes_at(w, 0, g);
        } else if o == r + 1 {
            lemma_includes_at(c, c.len() - 1, g);
        } else {
            if r % 3 == 0 {
                lemma_includes_at(c, c.len() - 1, g);
            } else {
                lemma_includes_at(c, c.len() - 2, g);
            }
        }
        lemma_includes_concat(c, w, g);
    }
}

/// Every valid bet that wins on `r` is among the bets `return_winning_numbers` lists.
proof fn lemma_winning_numbers_complete(r: u32, g: GameResult)
    requires
        r <= 36,
        valid_bet(g),
        covers(g, r),
    ensures
        includes(winning_numbers(r), g),
{
    let s = winning_numbers(r);
    if r == 0 {
        lemma_includes_at(s, 0, g);
    } else {
        let h = head_bets(r);
        let c = column_bets(r);
        let w = row_bets(r);
        let t = tail_bets(r);
        match g {
            GameResult::Exact { .. } => lemma_includes_at(h, 0, g),
            GameResult::Even | GameResult::Odd => lemma_includes_at(h, 1, g),
            GameResult::Range1to18 | GameResult::Range19to36 => lemma_includes_at(h, 2, g),
            GameResult::Range2to1First | GameResult::Range2to1Second
            | GameResult::Range2to1Third => lemma_includes_at(c, 0, g),
            GameResult::Range1to12 | GameResult::Range13to24
            | GameResult::Range25to36 => lemma_includes_at(t, 0, g),
            GameResult::Red | GameResult::Black => lemma_includes_at(t, 1, g),
            GameResult::Line { .. } => lemma_line_complete(r, g),
            GameResult::Corner { .. } => lemma_corner_complete(r, g),
        }
        if includes(c, g) {
            lemma_includes_concat(c, w, g);
        }
        if includes(h, g) || includes(c + w, g) {
            lemma_includes_concat(h, c + w, g);
            assert(h + c + w =~= h + (c + w));
        }
        lemma_includes_concat(h + c + w, t, g);
    }
}

/// The bets that win when the ball lands on `result`.
///
/// The list holds exactly the valid bets that cover `result`: every bet in
/// it can be placed and wins, every bet that can be placed and wins is in it
/// (up to the order of the numbers of a line or a corner), and no bet is
/// listed twice.
pub fn return_winning_numbers(result: u32) -> (winners: Vec<GameResult>)
    requires
        result <= 36,
    ensures
        forall|i: int|
            0 <= i < winners.len() ==> valid_bet(#[trigger] winners@[i]) && covers(
                winners@[i],
                result,
            ),
        forall|g: GameResult| valid_bet(g) && covers(g, result) ==> includes(winners@, g),
        no_repeats(winners@),
        winners@ == winning_numbers(result),
{
    let mut winners: Vec<GameResult> = Vec::new();

    // exact number
    winners.push(GameResult::Exact { num: result });

    if result == 0 {
        proof {
            assert(winners@ =~= winning_numbers(result));
            lemma_winning_numbers_facts(result, winners@);
        }
        return winners;
    }
    // odd or even

    if result % 2 == 0 {
        winners.push(GameResult::Even);
    } else {
        winners.push(GameResult::Odd);
    }

    // upper or lower
    if result >= 19 {
        winners.push(GameResult::Range19to36);
    } else {
        winners.push(GameResult::Range1to18);
    }
    assert(winners@ =~= head_bets(result));

    // corners and lines
    push_column_bets(&mut winners, result);

    // under/over lines
    push_row_bets(&mut winners, result);
    assert(winners@ =~= head_bets(result) + column_bets(result) + row_bets(result));

    // 1-12/13-24/25-36
    if result <= 12 {
        winners.push(GameResult::Range1to12);
    } else if result <= 24 {
        winners.push(GameResult::Range13to24);
    } else {
        winners.push(GameResult::Range25to36);
    }

    // red or black
    match result {
        1 | 3 | 5 | 7 | 9 | 12 | 14 | 16 | 18 | 19 | 21 | 23 | 25 | 27 | 30 | 32 | 34 | 36 => {
            winners.push(GameResult::Red)
        },
        _ => { winners.push(GameResult::Black) },
    }
    proof {
        assert(winners@ =~= winning_numbers(result));
        lemma_winning_numbers_facts(result, winners@);
    }
    winners
}

proof fn lemma_winning_numbers_facts(r: u32, s: Seq<GameResult>)
    requires
        r <= 36,
        s == winning_numbers(r),
    ensures
        forall|i: int| 0 <= i < s.len() ==> valid_bet(#[trigger] s[i]) && covers(s[i], r),
        forall|g: GameResult| valid_bet(g) && covers(g, r) ==> includes(s, g),
        no_repeats(s),
{
    lemma_winning_numbers_win(r);
    lemma_winning_numbers_no_repeats(r);
    assert forall|g: GameResult| valid_bet(g) && covers(g, r) implies includes(s, g) by {
        lemma_winning_numbers_complete(r, g);
    }
}

/// Appends the column bet, and the corner and line bets that stay inside a row, of `result`.
fn push_column_bets(winners: &mut Vec<GameResult>, result: u32)
    requires
        1 <= result <= 36,
    ensures
        final(winners)@ == old(winners)@ + column_bets(result),
{
    let ghost start = winners@;
    if result % 3 == 0 {
        winners.push(GameResult::Range2to1Third);
        if result != 36 {
            winners.push(corner_result(result, CornerType::BottomLeft));
        }
        if result != 3 {
            winners.push(corner_result(result, CornerType::TopLeft));
        }
        winners.push(line_result(result, LineType::Right));
    } else if result % 3 == 1 {
        winners.push(GameResult::Range2to1First);
        if result != 34 {
            winners.push(corner_result(result, CornerType::BottomRight));
        }
        if result != 1 {
            winners.push(corner_result(result, CornerType::TopRight));
        }
        winners.push(line_result(result, LineType::Left));
    } else {
        winners.push(GameResult::Range2to1Second);
        if result != 2 {
            winners.push(corner_result(result, CornerType::TopRight));
            winners.push(corner_result(result, CornerType::TopLeft));
        }
        if result != 35 {
            winners.push(corner_result(result, CornerType::BottomLeft));
            winners.push(corner_result(result, CornerType::BottomRight));
        }
        winners.push(line_result(result, LineType::Right));
        winners.push(line_result(result, LineType::Left));
    }
    assert(winners@ =~= start + column_bets(result));
}

/// Appends the line bets of `result` that reach into the row above or below.
fn push_row_bets(winners: &mut Vec<GameResult>, result: u32)
    requires
        1 <= result <= 36,
    ensures
        final(winners)@ == old(winners)@ + row_bets(result),
{
    let ghost start = winners@;
    if result <= 3 {
        winners.push(line_result(result, LineType::Under));
    } else if result >= 34 {
        winners.push(line_result(result, LineType::Over));
    } else {
        winners.push(line_result(result, LineType::Over));
        winners.push(line_result(result, LineType::Under));
    }
    assert(winners@ =~= start + row_bets(result));
}

/// No two elements of `s` are the same bet.
pub open spec fn no_repeats(s: Seq<GameResult>) -> bool {
    forall|i: int, j: int| 0 <= i < j < s.len() ==> !same_bet(#[trigger] s[i], #[trigger] s[j])
}

/// No element of `a` is the same bet as an element of `b`.
spec fn apart(a: Seq<GameResult>, b: Seq<GameResult>) -> bool {
    forall|i: int, j: int|
        0 <= i < a.len() && 0 <= j < b.len() ==> !same_bet(#[trigger] a[i], #[trigger] b[j])
}

proof fn lemma_no_repeats_concat(a: Seq<GameResult>, b: Seq<GameResult>)
    requires
        no_repeats(a),
        no_repeats(b),
        apart(a, b),
    ensures
        no_repeats(a + b),
{
    let s = a + b;
    assert forall|i: int, j: int| 0 <= i < j < s.len() implies !same_bet(#[trigger] s[i], #[trigger] s[j]) by {
        if j < a.len() {
            assert(s[i] == a[i] && s[j] == a[j]);
        } else if i >= a.len() {
            assert(s[i] == b[i - a.len()] && s[j] == b[j - a.len()]);
        } else {
            assert(s[i] == a[i] && s[j] == b[j - a.len()]);
        }
    }
}

proof fn lemma_apart_concat(a: Seq<GameResult>, b: Seq<GameResult>, c: Seq<GameResult>)
    requires
        apart(a, c),
        apart(b, c),
    ensures
        apart(a + b, c),
{
    assert forall|i: int, j: int| 0 <= i < (a + b).len() && 0 <= j < c.len() implies !same_bet(
        #[trigger] (a + b)[i],
        #[trigger] c[j],
    ) by {
        if i < a.len() {
            assert((a + b)[i] == a[i]);
        } else {
            assert((a + b)[i] == b[i - a.len()]);
        }
    }
}

/// Bets of different kinds are never the same bet.
proof fn lemma_kinds_apart(a: Seq<GameResult>, b: Seq<GameResult>)
    requires
        forall|i: int, j: int|
            0 <= i < a.len() && 0 <= j < b.len() ==> kind(#[trigger] a[i]) != kind(#[trigger] b[j]),
    ensures
        apart(a, b),
{
    assert forall|i: int, j: int| 0 <= i < a.len() && 0 <= j < b.len() implies !same_bet(
        #[trigger] a[i],
        #[trigger] b[j],
    ) by {
        assert(kind(a[i]) != kind(b[j]));
    }
}

/// Two different corners of the same cell are different bets.
proof fn lemma_corners_differ(r: u32, t1: CornerType, t2: CornerType)
    requires
        1 <= r <= 36,
        corner_fits(r, t1),
        corner_fits(r, t2),
        t1 != t2,
    ensures
        !same_bet(corner_of(r, t1), corner_of(r, t2)),
{
    // Each corner holds one cell that no other corner of `r` holds.
    let u = match t1 {
        CornerType::BottomLeft => (r + 2) as u32,
        CornerType::BottomRight => (r + 4) as u32,
        CornerType::TopLeft => (r - 4) as u32,
        CornerType::TopRight => (r - 2) as u32,
    };
    if let (GameResult::Corner { nums: p }, GameResult::Corner { nums: q }) = (
        corner_of(r, t1),
        corner_of(r, t2),
    ) {
        assert(count4(p, u) != count4(q, u));
    }
}

proof fn lemma_column_bets_no_repeats(r: u32)
    requires
        1 <= r <= 36,
    ensures
        no_repeats(column_bets(r)),
{
    let c = column_bets(r);
    let ts = seq![CornerType::BottomLeft, CornerType::BottomRight, CornerType::TopLeft, CornerType::TopRight];
    assert forall|a: int, b: int| 0 <= a < 4 && 0 <= b < 4 && a != b && has_corner(r, #[trigger] ts[a]) && has_corner(r, #[trigger] ts[b])
        implies !same_bet(corner_of(r, ts[a]), corner_of(r, ts[b])) by {
        lemma_corners_differ(r, ts[a], ts[b]);
    }
    assert forall|i: int, j: int| 0 <= i < j < c.len() implies !same_bet(#[trigger] c[i], #[trigger] c[j]) by {
        if r % 3 == 0 {
            if r != 36 && r != 3 && i == 1 && j == 2 {
                assert(!same_bet(corner_of(r, ts[0]), corner_of(r, ts[2])));
            }
        } else if r % 3 == 1 {
            if r != 34 && r != 1 && i == 1 && j == 2 {
                assert(!same_bet(corner_of(r, ts[1]), corner_of(r, ts[3])));
            }
        } else if r == 2 {
            if i == 1 && j == 2 {
                assert(!same_bet(corner_of(r, ts[0]), corner_of(r, ts[1])));
            }
        } else if r == 35 {
            if i == 1 && j == 2 {
                assert(!same_bet(corner_of(r, ts[3]), corner_of(r, ts[2])));
            }
        } else if 1 <= i < j <= 4 {
            // the order is TopRight, TopLeft, BottomLeft, BottomRight
            let order = seq![3int, 2int, 0int, 1int];
            assert(!same_bet(corner_of(r, ts[order[i - 1]]), corner_of(r, ts[order[j - 1]])));
        }
    }
}

/// The bets `return_winning_numbers` lists are pairwise different.
proof fn lemma_winning_numbers_no_repeats(r: u32)
    requires
        r <= 36,
    ensures
        no_repeats(winning_numbers(r)),
{
    if r != 0 {
        let h = head_bets(r);
        let c = column_bets(r);
        let w = row_bets(r);
        let t = tail_bets(r);
        lemma_column_bets_no_repeats(r);
        assert(no_repeats(h));
        assert(no_repeats(w));
        assert(no_repeats(t));
        lemma_kinds_apart(h, c);
        lemma_kinds_apart(h, w);
        lemma_kinds_apart(h, t);
        lemma_kinds_apart(c, t);
        lemma_kinds_apart(w, t);
        assert(apart(c, w));
        lemma_no_repeats_concat(h, c);
        lemma_apart_concat(h, c, w);
        lemma_no_repeats_concat(h + c, w);
        lemma_apart_concat(h, c, t);
        lemma_apart_concat(h + c, w, t);
        lemma_no_repeats_concat(h + c + w, t);
    }
}

// ---------------------------------------------------------------------------
// Laws of bets
// ---------------------------------------------------------------------------

/// What each kind of bet returns, as a multiple of its stake: an exact number
/// 36, a line 18, a corner 9, each of the three columns and of the three
/// dozens 3, and each even-money bet (red, black, even, odd, low, high) 2.
/// So a bet returns 36 divided by how many of the numbers 1..=36 it covers.
pub proof fn lemma_payout_multiples(num: u32, pair: (u32, u32), quad: (u32, u32, u32, u32))
    ensures
        payout_multiple(GameResult::Exact { num }) == 36,
        payout_multiple(GameResult::Line { nums: pair }) == 18,
        payout_multiple(GameResult::Corner { nums: quad }) == 9,
        payout_multiple(GameResult::Range2to1First) == 3,
        payout_multiple(GameResult::Range2to1Second) == 3,
        payout_multiple(GameResult::Range2to1Third) == 3,
        payout_multiple(GameResult::Range1to12) == 3,
        payout_multiple(GameResult::Range13to24) == 3,
        payout_multiple(GameResult::Range25to36) == 3,
        payout_multiple(GameResult::Red) == 2,
        payout_multiple(GameResult::Black) == 2,
        payout_multiple(GameResult::Even) == 2,
        payout_multiple(GameResult::Odd) == 2,
        payout_multiple(GameResult::Range1to18) == 2,
        payout_multiple(GameResult::Range19to36) == 2,
{
}

/// Bet equality is an equivalence: reflexive, symmetric and transitive.
pub proof fn lemma_same_bet_equivalence(g: GameResult, h: GameResult, k: GameResult)
    ensures
        same_bet(g, g),
        same_bet(g, h) ==> same_bet(h, g),
        same_bet(g, h) && same_bet(h, k) ==> same_bet(g, k),
{
    if let (GameResult::Corner { nums: a }, GameResult::Corner { nums: b }, GameResult::Corner { nums: c }) = (g, h, k) {
        if same_bet(g, h) && same_bet(h, k) {
            assert forall|x: u32| #[trigger] count4(a, x) == count4(c, x) by {
                assert(count4(a, x) == count4(b, x));
                assert(count4(b, x) == count4(c, x));
            }
        }
    }
}

/// Equal bets are judged alike: both or neither can be placed, both or
/// neither win on any number, and they pay the same multiple.
pub proof fn lemma_same_bet_alike(g: GameResult, h: GameResult, r: u32)
    requires
        same_bet(g, h),
    ensures
        valid_bet(g) == valid_bet(h),
        covers(g, r) == covers(h, r),
        payout_multiple(g) == payout_multiple(h),
{
    if let (GameResult::Corner { nums: a }, GameResult::Corner { nums: b }) = (g, h) {
        assert(count4(a, r) == count4(b, r));
        if valid_corner(a) {
            let n = choose|n: u32| corner_anchor(n) && #[trigger] same_cells(a, square(n));
            assert forall|x: u32| #[trigger] count4(b, x) == count4(square(n), x) by {
                assert(count4(a, x) == count4(b, x));
            }
            assert(same_cells(b, square(n)));
        }
        if valid_corner(b) {
            let n = choose|n: u32| corner_anchor(n) && #[trigger] same_cells(b, square(n));
            assert forall|x: u32| #[trigger] count4(a, x) == count4(square(n), x) by {
                assert(count4(a, x) == count4(b, x));
            }
            assert(same_cells(a, square(n)));
        }
    }
}

} // verus!
