use vstd::prelude::*;

use crate::pos_set::{PosSet, Position};

verus! {

/// Chebyshev adjacency: `q` is one of the up to eight cells that touch `p`,
/// `p` itself excluded. No wraparound: the coordinates are compared as
/// mathematical integers.
pub open spec fn adjacent(p: Position, q: Position) -> bool {
    &&& q != p
    &&& p.0 as int - 1 <= q.0 as int
    &&& q.0 as int <= p.0 as int + 1
    &&& p.1 as int - 1 <= q.1 as int
    &&& q.1 as int <= p.1 as int + 1
}

/// What opening a fresh cell uncovers: a mine, or the number of mines on
/// the adjacent cells.
#[derive(Debug, PartialEq, Eq, Structural)]
pub enum OpeningResult {
    Mine,
    NoMine(u8),
}

/// The configuration faults that make a board impossible to construct.
#[derive(Debug, PartialEq, Eq, Structural)]
pub enum ConfigError {
    ZeroWidth,
    ZeroHeight,
    ZeroMines,
    TooManyMines,
}

/// The whole state of one Minesweeper game.
#[derive(Debug)]
pub struct Minesweeper {
    pub width: u16,
    pub height: u16,
    pub open_positions: PosSet,
    pub mines: PosSet,
    pub flagged_positions: PosSet,
    pub game_over: bool,
}

impl Minesweeper {
    /// Well-formedness: positive dimensions, well-formed member sets, and no
    /// cell both open and flagged. Every public operation preserves it.
    pub open spec fn wf(self) -> bool {
        &&& self.width >= 1
        &&& self.height >= 1
        &&& self.open_positions.wf()
        &&& self.mines.wf()
        &&& self.flagged_positions.wf()
        &&& self.open_positions@.disjoint(self.flagged_positions@)
    }

    pub open spec fn in_bounds(self, p: Position) -> bool {
        p.0 < self.width && p.1 < self.height
    }

    /// The in-bounds cells adjacent to `p`: eight for interior cells, five on
    /// an edge, three in a corner.
    pub open spec fn spec_neighbours(self, p: Position) -> Set<Position> {
        Set::new(|q: Position| self.in_bounds(q) && adjacent(p, q))
    }

    /// The number of mines on cells adjacent to `p`.
    pub open spec fn spec_mines_around(self, p: Position) -> int {
        self.mines@.intersect(self.spec_neighbours(p)).len() as int
    }

    /// `open` and `open_position` do work on `p` exactly when this holds.
    pub open spec fn spec_can_open(self, p: Position) -> bool {
        &&& !self.open_positions@.contains(p)
        &&& !self.flagged_positions@.contains(p)
        &&& !self.game_over
    }

    pub fn can_be_opened(&self, position: &Position) -> (r: bool)
        ensures
            r == self.spec_can_open(*position),
    {
        !self.open_positions.contains(position) && !self.flagged_positions.contains(position)
            && !self.game_over
    }

    /// The in-bounds neighbours of `pos`, as a set. `pos` may lie outside the
    /// grid; cells outside the grid are never included.
    pub fn neighbours(&self, pos: Position) -> (r: PosSet)
        ensures
            r@ == self.spec_neighbours(pos),
            r.wf(),
    {
        let (x, y) = pos;
        let mut r = PosSet::new();
        if x >= 1 && y >= 1 && x - 1 < self.width && y - 1 < self.height {
            r.insert((x - 1, y - 1));
        }
        if y >= 1 && x < self.width && y - 1 < self.height {
            r.insert((x, y - 1));
        }
        if x < u16::MAX && y >= 1 && x + 1 < self.width && y - 1 < self.height {
            r.insert((x + 1, y - 1));
        }
        if x >= 1 && x - 1 < self.width && y < self.height {
            r.insert((x - 1, y));
        }
        if x < u16::MAX && x + 1 < self.width && y < self.height {
            r.insert((x + 1, y));
        }
        if x >= 1 && y < u16::MAX && x - 1 < self.width && y + 1 < self.height {
            r.insert((x - 1, y + 1));
        }
        if y < u16::MAX && x < self.width && y + 1 < self.height {
            r.insert((x, y + 1));
        }
        if x < u16::MAX && y < u16::MAX && x + 1 < self.width && y + 1 < self.height {
            r.insert((x + 1, y + 1));
        }
        proof {
            assert forall|q: Position| self.spec_neighbours(pos).contains(q) implies r@.contains(
                q,
            ) by {
                assert(q.0 as int == x as int - 1 || q.0 as int == x as int || q.0 as int == x
                    as int + 1);
                assert(q.1 as int == y as int - 1 || q.1 as int == y as int || q.1 as int == y
                    as int + 1);
            }
            assert(r@ =~= self.spec_neighbours(pos));
        }
        r
    }

    /// The count of mines on the up to eight in-bounds cells adjacent to
    /// `pos`, `pos` itself excluded; always between 0 and 8.
    pub fn mines_around(&self, pos: Position) -> (r: u8)
        ensures
            r as int == self.spec_mines_around(pos),
            r <= 8,
    {
        let (x, y) = pos;
        let mut count: u8 = 0;
        if x >= 1 && y >= 1 && x - 1 < self.width && y - 1 < self.height && self.mines.contains(
            &(x - 1, y - 1),
        ) {
            count += 1;
        }
        if y >= 1 && x < self.width && y - 1 < self.height && self.mines.contains(&(x, y - 1)) {
            count += 1;
        }
        if x < u16::MAX && y >= 1 && x + 1 < self.width && y - 1 < self.height
            && self.mines.contains(&(x + 1, y - 1)) {
            count += 1;
        }
        if x >= 1 && x - 1 < self.width && y < self.height && self.mines.contains(&(x - 1, y)) {
            count += 1;
        }
        if x < u16::MAX && x + 1 < self.width && y < self.height && self.mines.contains(
            &(x + 1, y),
        ) {
            count += 1;
        }
        if x >= 1 && y < u16::MAX && x - 1 < self.width && y + 1 < self.height
            && self.mines.contains(&(x - 1, y + 1)) {
            count += 1;
        }
        if y < u16::MAX && x < self.width && y + 1 < self.height && self.mines.contains(
            &(x, y + 1),
        ) {
            count += 1;
        }
        if x < u16::MAX && y < u16::MAX && x + 1 < self.width && y + 1 < self.height
            && self.mines.contains(&(x + 1, y + 1)) {
            count += 1;
        }
        proof {
            self.lemma_mines_around_peel(pos, count as int);
        }
        count
    }

    /// Counts the intersection of the mine set with the neighbour set by
    /// peeling the up to eight candidate cells off it one by one.
    proof fn lemma_mines_around_peel(self, pos: Position, count: int)
        requires
            count == Self::peel_indicator(self, pos, (pos.0 as int - 1, pos.1 as int - 1))
                + Self::peel_indicator(self, pos, (pos.0 as int, pos.1 as int - 1))
                + Self::peel_indicator(self, pos, (pos.0 as int + 1, pos.1 as int - 1))
                + Self::peel_indicator(self, pos, (pos.0 as int - 1, pos.1 as int))
                + Self::peel_indicator(self, pos, (pos.0 as int + 1, pos.1 as int))
                + Self::peel_indicator(self, pos, (pos.0 as int - 1, pos.1 as int + 1))
                + Self::peel_indicator(self, pos, (pos.0 as int, pos.1 as int + 1))
                + Self::peel_indicator(self, pos, (pos.0 as int + 1, pos.1 as int + 1)),
        ensures
            count == self.spec_mines_around(pos),
    {
        broadcast use vstd::set::group_set_axioms;

        self.mines.lemma_finite();
        let s = self.mines@.intersect(self.spec_neighbours(pos));
        Self::lemma_eight_candidate_len(s, pos);
        assert(Self::set_indicator(s, (pos.0 as int - 1, pos.1 as int - 1)) == Self::peel_indicator(
            self,
            pos,
            (pos.0 as int - 1, pos.1 as int - 1),
        ));
        assert(Self::set_indicator(s, (pos.0 as int, pos.1 as int - 1)) == Self::peel_indicator(
            self,
            pos,
            (pos.0 as int, pos.1 as int - 1),
        ));
        assert(Self::set_indicator(s, (pos.0 as int + 1, pos.1 as int - 1)) == Self::peel_indicator(
            self,
            pos,
            (pos.0 as int + 1, pos.1 as int - 1),
        ));
        assert(Self::set_indicator(s, (pos.0 as int - 1, pos.1 as int)) == Self::peel_indicator(
            self,
            pos,
            (pos.0 as int - 1, pos.1 as int),
        ));
        assert(Self::set_indicator(s, (pos.0 as int + 1, pos.1 as int)) == Self::peel_indicator(
            self,
            pos,
            (pos.0 as int + 1, pos.1 as int),
        ));
        assert(Self::set_indicator(s, (pos.0 as int - 1, pos.1 as int + 1)) == Self::peel_indicator(
            self,
            pos,
            (pos.0 as int - 1, pos.1 as int + 1),
        ));
        assert(Self::set_indicator(s, (pos.0 as int, pos.1 as int + 1)) == Self::peel_indicator(
            self,
            pos,
            (pos.0 as int, pos.1 as int + 1),
        ));
        assert(Self::set_indicator(s, (pos.0 as int + 1, pos.1 as int + 1)) == Self::peel_indicator(
            self,
            pos,
            (pos.0 as int + 1, pos.1 as int + 1),
        ));
    }

    /// The length of any finite set of cells adjacent to `pos` is the sum of
    /// eight membership indicators, one per candidate offset: the set is
    /// counted by peeling the candidates off it one by one.
    proof fn lemma_eight_candidate_len(s: Set<Position>, pos: Position)
        requires
            s.finite(),
            forall|q: Position| #[trigger] s.contains(q) ==> adjacent(pos, q),
        ensures
            s.len() as int == Self::set_indicator(s, (pos.0 as int - 1, pos.1 as int - 1))
                + Self::set_indicator(s, (pos.0 as int, pos.1 as int - 1)) + Self::set_indicator(
                s,
                (pos.0 as int + 1, pos.1 as int - 1),
            ) + Self::set_indicator(s, (pos.0 as int - 1, pos.1 as int)) + Self::set_indicator(
                s,
                (pos.0 as int + 1, pos.1 as int),
            ) + Self::set_indicator(s, (pos.0 as int - 1, pos.1 as int + 1)) + Self::set_indicator(
                s,
                (pos.0 as int, pos.1 as int + 1),
            ) + Self::set_indicator(s, (pos.0 as int + 1, pos.1 as int + 1)),
    {
        broadcast use vstd::set::group_set_axioms;

        let n0 = s;
        let c1 = (pos.0 as int - 1, pos.1 as int - 1);
        let c2 = (pos.0 as int, pos.1 as int - 1);
        let c3 = (pos.0 as int + 1, pos.1 as int - 1);
        let c4 = (pos.0 as int - 1, pos.1 as int);
        let c5 = (pos.0 as int + 1, pos.1 as int);
        let c6 = (pos.0 as int - 1, pos.1 as int + 1);
        let c7 = (pos.0 as int, pos.1 as int + 1);
        let c8 = (pos.0 as int + 1, pos.1 as int + 1);
        let n1 = Self::peel(n0, c1);
        let n2 = Self::peel(n1, c2);
        let n3 = Self::peel(n2, c3);
        let n4 = Self::peel(n3, c4);
        let n5 = Self::peel(n4, c5);
        let n6 = Self::peel(n5, c6);
        let n7 = Self::peel(n6, c7);
        let n8 = Self::peel(n7, c8);
        assert(n8 =~= Set::<Position>::empty()) by {
            assert forall|q: Position| !n8.contains(q) by {
                if n0.contains(q) {
                    assert(adjacent(pos, q));
                }
            }
        }
        assert(n1.len() + Self::set_indicator(n0, c1) == n0.len());
        assert(n2.len() + Self::set_indicator(n1, c2) == n1.len());
        assert(n3.len() + Self::set_indicator(n2, c3) == n2.len());
        assert(n4.len() + Self::set_indicator(n3, c4) == n3.len());
        assert(n5.len() + Self::set_indicator(n4, c5) == n4.len());
        assert(n6.len() + Self::set_indicator(n5, c6) == n5.len());
        assert(n7.len() + Self::set_indicator(n6, c7) == n6.len());
        assert(n8.len() + Self::set_indicator(n7, c8) == n7.len());
        assert(Self::set_indicator(n1, c2) == Self::set_indicator(n0, c2));
        assert(Self::set_indicator(n2, c3) == Self::set_indicator(n0, c3));
        assert(Self::set_indicator(n3, c4) == Self::set_indicator(n0, c4));
        assert(Self::set_indicator(n4, c5) == Self::set_indicator(n0, c5));
        assert(Self::set_indicator(n5, c6) == Self::set_indicator(n0, c6));
        assert(Self::set_indicator(n6, c7) == Self::set_indicator(n0, c7));
        assert(Self::set_indicator(n7, c8) == Self::set_indicator(n0, c8));
    }

    /// The set with the cell at the integer coordinates `c` removed, if such
    /// a cell exists.
    spec fn peel(s: Set<Position>, c: (int, int)) -> Set<Position> {
        if 0 <= c.0 <= u16::MAX && 0 <= c.1 <= u16::MAX {
            s.remove((c.0 as u16, c.1 as u16))
        } else {
            s
        }
    }

    /// 1 if the cell at the integer coordinates `c` exists and is in `s`.
    spec fn set_indicator(s: Set<Position>, c: (int, int)) -> int {
        if 0 <= c.0 <= u16::MAX && 0 <= c.1 <= u16::MAX && s.contains((c.0 as u16, c.1 as u16)) {
            1
        } else {
            0
        }
    }

    /// 1 if the cell at the integer coordinates `c` exists, lies on the
    /// board, and holds a mine.
    spec fn peel_indicator(self, pos: Position, c: (int, int)) -> int {
        if 0 <= c.0 <= u16::MAX && 0 <= c.1 <= u16::MAX && self.in_bounds((c.0 as u16, c.1 as u16))
            && self.mines@.contains((c.0 as u16, c.1 as u16)) {
            1
        } else {
            0
        }
    }

    /// Builds a board with `mines_count` mines placed by rejection sampling:
    /// draw a cell uniformly at random, retry while it is already mined.
    /// The parameter constraints are the caller's duty here; `construct`
    /// checks them and reports a `ConfigError` instead.
    pub fn new(width: u16, height: u16, mines_count: u16) -> (r: Minesweeper)
        requires
            width > 0,
            height > 0,
            mines_count > 0,
            (mines_count as int) < width as int * height as int,
        ensures
            r.wf(),
            r.width == width,
            r.height == height,
            r.mines@.len() == mines_count as int,
            forall|p: Position| #[trigger] r.mines@.contains(p) ==> p.0 < width && p.1 < height,
            r.open_positions@ == Set::<Position>::empty(),
            r.flagged_positions@ == Set::<Position>::empty(),
            !r.game_over,
    {
        let mut mines = PosSet::new();
        let mut fuel: u64 = u64::MAX;
        while mines.len() < mines_count as usize && fuel > 0
            invariant
                mines.wf(),
                mines@.finite(),
                mines@.len() <= mines_count as int,
                width > 0,
                height > 0,
                forall|p: Position| #[trigger] mines@.contains(p) ==> p.0 < width && p.1 < height,
            decreases fuel,
        {
            let x = random_below(width);
            let y = random_below(height);
            mines.insert((x, y));
            fuel = fuel - 1;
            proof {
                mines.lemma_finite();
                broadcast use vstd::set::group_set_axioms;

            }
        }
        // Rejection sampling is given an astronomically large retry budget; if
        // it were ever exhausted, a sweep fills the remaining mines into the
        // first free cells, so that construction provably completes.
        if mines.len() < mines_count as usize {
            let mut y: u16 = 0;
            while y < height
                invariant
                    mines.wf(),
                    mines@.finite(),
                    mines@.len() <= mines_count as int,
                    width > 0,
                    height > 0,
                    y <= height,
                    forall|p: Position| #[trigger] mines@.contains(p) ==> p.0 < width && p.1
                        < height,
                    mines@.len() == mines_count as int || (forall|p: Position|
                        p.0 < width && p.1 < y ==> #[trigger] mines@.contains(p)),
                decreases height - y,
            {
                let mut x: u16 = 0;
                while x < width
                    invariant
                        mines.wf(),
                        mines@.finite(),
                        mines@.len() <= mines_count as int,
                        width > 0,
                        height > 0,
                        x <= width,
                        y < height,
                        forall|p: Position| #[trigger] mines@.contains(p) ==> p.0 < width && p.1
                            < height,
                        mines@.len() == mines_count as int || (forall|p: Position|
                            (p.0 < width && p.1 < y) || (p.1 == y && p.0 < x)
                                ==> #[trigger] mines@.contains(p)),
                    decreases width - x,
                {
                    if mines.len() < mines_count as usize && !mines.contains(&(x, y)) {
                        mines.insert((x, y));
                        proof {
                            mines.lemma_finite();
                            broadcast use vstd::set::group_set_axioms;

                        }
                    }
                    x = x + 1;
                }
                y = y + 1;
            }
            proof {
                if mines@.len() < mines_count as int {
                    assert(grid_set(width as int, height as int).subset_of(mines@));
                    lemma_grid_size(width as int, height as int);
                    mines.lemma_finite();
                    vstd::set_lib::lemma_len_subset(grid_set(width as int, height as int), mines@);
                    assert(false);
                }
            }
        }
        Minesweeper {
            width,
            height,
            open_positions: PosSet::new(),
            mines,
            flagged_positions: PosSet::new(),
            game_over: false,
        }
    }

    /// Checked construction: validates the configuration and reports which
    /// constraint fails, instead of demanding validity from the caller.
    pub fn construct(width: u16, height: u16, mines_count: u16) -> (r: Result<
        Minesweeper,
        ConfigError,
    >)
        ensures
            width == 0 ==> r == Err::<Minesweeper, ConfigError>(ConfigError::ZeroWidth),
            width > 0 && height == 0 ==> r == Err::<Minesweeper, ConfigError>(
                ConfigError::ZeroHeight,
            ),
            width > 0 && height > 0 && mines_count == 0 ==> r == Err::<Minesweeper, ConfigError>(
                ConfigError::ZeroMines,
            ),
            width > 0 && height > 0 && mines_count > 0 && mines_count as int >= width as int
                * height as int ==> r == Err::<Minesweeper, ConfigError>(ConfigError::TooManyMines),
            width > 0 && height > 0 && mines_count > 0 && (mines_count as int) < width as int
                * height as int ==> {
                &&& r is Ok
                &&& r->Ok_0.wf()
                &&& r->Ok_0.width == width
                &&& r->Ok_0.height == height
                &&& r->Ok_0.mines@.len() == mines_count as int
                &&& r->Ok_0.mines@.len() < width as int * height as int
                &&& (forall|p: Position| #[trigger] r->Ok_0.mines@.contains(p) ==> r->Ok_0.in_bounds(p))
                &&& r->Ok_0.open_positions@ == Set::<Position>::empty()
                &&& r->Ok_0.flagged_positions@ == Set::<Position>::empty()
                &&& !r->Ok_0.game_over
            },
    {
        if width == 0 {
            return Err(ConfigError::ZeroWidth);
        }
        if height == 0 {
            return Err(ConfigError::ZeroHeight);
        }
        if mines_count == 0 {
            return Err(ConfigError::ZeroMines);
        }
        proof {
            assert((width as int) * (height as int) <= 65535 * 65535) by (nonlinear_arith)
                requires
                    width as int <= 65535 && height as int <= 65535 && width >= 1 && height >= 1,
            ;
        }
        if (mines_count as u32) >= (width as u32) * (height as u32) {
            return Err(ConfigError::TooManyMines);
        }
        Ok(Self::new(width, height, mines_count))
    }

    /// The flag set after `toggle_flag` on `p`: unchanged when the game is
    /// over, when `p` lies outside the grid, or when `p` is already open;
    /// otherwise `p` leaves the set if it was flagged and joins it if not.
    pub open spec fn spec_toggle(self, p: Position) -> Set<Position> {
        if self.game_over || !self.in_bounds(p) || self.open_positions@.contains(p) {
            self.flagged_positions@
        } else if self.flagged_positions@.contains(p) {
            self.flagged_positions@.remove(p)
        } else {
            self.flagged_positions@.insert(p)
        }
    }

    /// Puts a flag on `position` or takes it away. A no-op once the game is
    /// over; out-of-grid and already-open cells are rejected as no-ops too,
    /// so a flag can never block a cell that is already revealed.
    pub fn toggle_flag(&mut self, position: Position)
        requires
            old(self).wf(),
        ensures
            final(self).wf(),
            final(self).width == old(self).width,
            final(self).height == old(self).height,
            final(self).open_positions@ == old(self).open_positions@,
            final(self).mines@ == old(self).mines@,
            final(self).game_over == old(self).game_over,
            final(self).flagged_positions@ == old(self).spec_toggle(position),
    {
        if !self.game_over && position.0 < self.width && position.1 < self.height
            && !self.open_positions.contains(&position) {
            if self.flagged_positions.contains(&position) {
                self.flagged_positions.remove(&position);
            } else {
                self.flagged_positions.insert(position);
            }
        }
    }

    /// Reveals `position` if it is neither open nor flagged and the game is
    /// not over, and reports what was under it; `None` otherwise. Unlike
    /// `open`, this does not cascade into the neighbours.
    pub fn open_position(&mut self, position: Position) -> (r: Option<OpeningResult>)
        requires
            old(self).wf(),
        ensures
            final(self).wf(),
            final(self).width == old(self).width,
            final(self).height == old(self).height,
            final(self).mines@ == old(self).mines@,
            final(self).flagged_positions@ == old(self).flagged_positions@,
            final(self).game_over == old(self).game_over,
            !old(self).spec_can_open(position) ==> r is None && final(self).open_positions@ == old(
                self,
            ).open_positions@,
            old(self).spec_can_open(position) ==> final(self).open_positions@ == old(
                self,
            ).open_positions@.insert(position),
            old(self).spec_can_open(position) && old(self).mines@.contains(position) ==> r == Some(
                OpeningResult::Mine,
            ),
            old(self).spec_can_open(position) && !old(self).mines@.contains(position) ==> r == Some(
                OpeningResult::NoMine(old(self).spec_mines_around(position) as u8),
            ) && 0 <= old(self).spec_mines_around(position) <= 8,
    {
        if !self.can_be_opened(&position) {
            return None;
        }
        self.open_positions.insert(position);
        if self.mines.contains(&position) {
            return Some(OpeningResult::Mine);
        }
        proof {
            assert(self.spec_neighbours(position) =~= old(self).spec_neighbours(position));
            assert(self.mines@.intersect(self.spec_neighbours(position)) =~= old(
                self,
            ).mines@.intersect(old(self).spec_neighbours(position)));
        }
        let mines_around = self.mines_around(position);
        Some(OpeningResult::NoMine(mines_around))
    }

    /// A hidden, unflagged, in-bounds cell: the cascade of `open` may reveal
    /// it.
    pub open spec fn spec_openable(self, q: Position) -> bool {
        &&& self.in_bounds(q)
        &&& !self.open_positions@.contains(q)
        &&& !self.flagged_positions@.contains(q)
    }

    /// An in-bounds cell that holds no mine and has no mine adjacent; the
    /// cascade of `open` expands through such cells and stops elsewhere.
    pub open spec fn is_zero_cell(self, q: Position) -> bool {
        &&& self.in_bounds(q)
        &&& !self.mines@.contains(q)
        &&& self.spec_mines_around(q) == 0
    }

    /// The cascade that starts at `p` can reveal `q` within `n` steps: there
    /// is a chain of adjacent openable cells from `p` to `q`, all of them
    /// zero cells except possibly `q` itself.
    pub open spec fn reach(self, p: Position, q: Position, n: nat) -> bool
        decreases n,
    {
        if q == p {
            self.spec_openable(p)
        } else if n == 0 {
            false
        } else {
            self.spec_openable(q) && exists|r: Position|
                #[trigger] adjacent(r, q) && self.is_zero_cell(r) && self.reach(
                    p,
                    r,
                    (n - 1) as nat,
                )
        }
    }

    /// Everything that opening the zero cell `p` reveals: the connected
    /// region of openable zero cells around `p`, together with the openable
    /// cells on that region's border, and nothing beyond the border.
    pub open spec fn reveals(self, p: Position) -> Set<Position> {
        Set::new(|q: Position| exists|n: nat| self.reach(p, q, n))
    }

    /// The state the cascade maintains: `b` is the board as `open` found it,
    /// `cur` the board in the middle of the cascade, `pending` the zero cells
    /// whose neighbours are still to be visited, `pos` the cell the cascade
    /// started from.
    spec fn flood_inv(
        b: Minesweeper,
        cur: Minesweeper,
        pending: Seq<Position>,
        pos: Position,
    ) -> bool {
        &&& b.wf()
        &&& !b.game_over
        &&& b.is_zero_cell(pos)
        &&& b.spec_openable(pos)
        &&& cur.width == b.width
        &&& cur.height == b.height
        &&& cur.mines@ == b.mines@
        &&& cur.flagged_positions@ == b.flagged_positions@
        &&& cur.game_over == b.game_over
        &&& cur.open_positions.wf()
        &&& cur.mines.wf()
        &&& cur.flagged_positions.wf()
        &&& b.open_positions@.subset_of(cur.open_positions@)
        &&& cur.open_positions@.contains(pos)
        &&& (forall|q: Position|
            #[trigger] cur.open_positions@.contains(q) && !b.open_positions@.contains(q)
                ==> b.reveals(pos).contains(q))
        &&& (forall|i: int|
            0 <= i < pending.len() ==> b.is_zero_cell(#[trigger] pending[i])
                && cur.open_positions@.contains(pending[i]) && !b.open_positions@.contains(
                pending[i],
            ))
        &&& (forall|z: Position, r: Position|
            (#[trigger] cur.open_positions@.contains(z) && !b.open_positions@.contains(z)
                && b.is_zero_cell(z) && !pending.contains(z) && #[trigger] adjacent(z, r)
                && b.spec_openable(r)) ==> cur.open_positions@.contains(r))
    }

    /// The cascade's termination measure: nine points for every cell still
    /// hidden, one for every pending zero cell.
    spec fn flood_measure(b: Minesweeper, cur: Minesweeper, pending: Seq<Position>) -> int {
        9 * grid_set(b.width as int, b.height as int).difference(cur.open_positions@).len() as int
            + pending.len() as int
    }

    /// One step of the cascade: reveal the cell `cand` next to the pending
    /// zero cell `q` if it is openable, and queue it if it is a zero cell
    /// itself.
    fn flood_visit(
        &mut self,
        cand: Position,
        stack: &mut Vec<Position>,
        Ghost(b): Ghost<Minesweeper>,
        Ghost(pos): Ghost<Position>,
        Ghost(q): Ghost<Position>,
    )
        requires
            Self::flood_inv(b, *old(self), old(stack)@.push(q), pos),
            b.is_zero_cell(q),
            adjacent(q, cand),
        ensures
            Self::flood_inv(b, *final(self), final(stack)@.push(q), pos),
            b.spec_openable(cand) ==> final(self).open_positions@.contains(cand),
            old(self).open_positions@.subset_of(final(self).open_positions@),
            Self::flood_measure(b, *final(self), final(stack)@) <= Self::flood_measure(
                b,
                *old(self),
                old(stack)@,
            ),
    {
        proof {
            broadcast use vstd::seq_lib::lemma_seq_contains_after_push;
            broadcast use vstd::set::group_set_axioms;

        }
        if cand.0 < self.width && cand.1 < self.height && self.can_be_opened(&cand) {
            self.open_positions.insert(cand);
            proof {
                // The revealed cell is reachable: extend the chain that ends
                // at `q` by one step.
                assert(old(self).open_positions@.contains(q) && !b.open_positions@.contains(q))
                    by {
                    assert(old(stack)@.push(q)[old(stack)@.len() as int] == q);
                }
                assert(b.reveals(pos).contains(q));
                let n = choose|n: nat| b.reach(pos, q, n);
                assert(b.spec_openable(cand));
                if cand != pos {
                    assert(b.reach(pos, cand, n + 1));
                }
                assert(b.reveals(pos).contains(cand));
            }
            let c = self.mines_around(cand);
            proof {
                assert(self.spec_neighbours(cand) =~= b.spec_neighbours(cand));
                assert(self.mines@.intersect(self.spec_neighbours(cand)) =~= b.mines@.intersect(
                    b.spec_neighbours(cand),
                ));
            }
            if c == 0 {
                proof {
                    b.lemma_no_mines_when_zero(q, cand);
                }
                stack.push(cand);
            }
            proof {
                // The hidden-cell count drops by one: the revealed cell was a
                // hidden grid cell.
                let grid = grid_set(b.width as int, b.height as int);
                lemma_grid_size(b.width as int, b.height as int);
                vstd::set_lib::lemma_len_subset(grid.difference(old(self).open_positions@), grid);
                assert(grid.difference(self.open_positions@) =~= grid.difference(
                    old(self).open_positions@,
                ).remove(cand));
                assert(grid.difference(old(self).open_positions@).contains(cand));
                // The completeness clause survives: the revealed cell is
                // either queued (when it is a zero cell) or exempt.
                assert forall|z: Position, r: Position|
                    (#[trigger] self.open_positions@.contains(z) && !b.open_positions@.contains(z)
                        && b.is_zero_cell(z) && !final(stack)@.push(q).contains(z)
                        && #[trigger] adjacent(z, r) && b.spec_openable(r)) implies self
                    .open_positions@.contains(r) by {
                    if z == cand {
                        assert(b.spec_mines_around(cand) != 0);
                    } else {
                        assert(old(self).open_positions@.contains(z));
                        assert(!old(stack)@.push(q).contains(z));
                        assert(old(self).open_positions@.contains(r));
                    }
                }
                // The queue still holds revealed zero cells only: old entries
                // keep their place, then possibly the new cell, then `q`.
                let p_old = old(stack)@.push(q);
                let p_new = stack@.push(q);
                assert forall|i: int| 0 <= i < p_new.len() implies b.is_zero_cell(#[trigger] p_new[i])
                    && self.open_positions@.contains(p_new[i]) && !b.open_positions@.contains(
                    p_new[i],
                ) by {
                    if i < old(stack)@.len() {
                        assert(p_new[i] == old(stack)@[i]);
                        assert(p_old[i] == old(stack)@[i]);
                        assert(b.is_zero_cell(p_old[i]));
                        assert(old(self).open_positions@.contains(p_old[i]));
                        assert(!b.open_positions@.contains(p_old[i]));
                    } else if i < stack@.len() {
                        assert(p_new[i] == cand);
                    } else {
                        assert(p_new[i] == q);
                        assert(p_old[old(stack)@.len() as int] == q);
                    }
                }
            }
        }
    }

    /// Reveals `position`. A no-op when the game is over, the cell is
    /// flagged or already open, or the cell lies outside the grid. Opening a
    /// mine ends the game and reveals that one cell alone; opening a cell
    /// with no adjacent mines reveals the whole connected region of zero
    /// cells around it plus that region's border, and nothing beyond; any
    /// other cell is revealed alone.
    pub fn open(&mut self, position: Position)
        requires
            old(self).wf(),
        ensures
            final(self).wf(),
            final(self).width == old(self).width,
            final(self).height == old(self).height,
            final(self).mines@ == old(self).mines@,
            final(self).flagged_positions@ == old(self).flagged_positions@,
            !(old(self).spec_can_open(position) && old(self).in_bounds(position)) ==> final(self).open_positions@ == old(self).open_positions@ && final(self).game_over == old(
                self,
            ).game_over,
            old(self).spec_can_open(position) && old(self).in_bounds(position) && old(
                self,
            ).mines@.contains(position) ==> final(self).open_positions@ == old(
                self,
            ).open_positions@.insert(position) && final(self).game_over,
            old(self).spec_can_open(position) && old(self).in_bounds(position) && !old(
                self,
            ).mines@.contains(position) && old(self).spec_mines_around(position) != 0 ==> final(self).open_positions@ == old(self).open_positions@.insert(position) && final(self).game_over == old(self).game_over,
            old(self).spec_can_open(position) && old(self).in_bounds(position) && !old(
                self,
            ).mines@.contains(position) && old(self).spec_mines_around(position) == 0 ==> final(self).open_positions@ == old(self).open_positions@.union(old(self).reveals(position))
                && final(self).game_over == old(self).game_over,
    {
        let ghost b = *old(self);
        if !(position.0 < self.width && position.1 < self.height) {
            return ;
        }
        let result = self.open_position(position);
        match result {
            None => {},
            Some(OpeningResult::Mine) => {
                self.open_positions.insert(position);
                self.game_over = true;
                proof {
                    assert(self.open_positions@ =~= b.open_positions@.insert(position));
                }
            },
            Some(OpeningResult::NoMine(mines_around)) => {
                if mines_around == 0 {
                    let mut stack: Vec<Position> = Vec::new();
                    stack.push(position);
                    proof {
                        assert(b.spec_mines_around(position) == 0);
                        assert(b.reach(position, position, 0));
                        assert(b.reveals(position).contains(position));
                        assert(stack@[0] == position);
                        assert(Self::flood_inv(b, *self, stack@, position));
                    }
                    while stack.len() > 0
                        invariant
                            Self::flood_inv(b, *self, stack@, position),
                        decreases Self::flood_measure(b, *self, stack@),
                    {
                        let ghost s0 = stack@;
                        let q = stack.pop().unwrap();
                        proof {
                            assert(s0 =~= stack@.push(q));
                            assert(Self::flood_inv(b, *self, stack@.push(q), position));
                            assert(b.is_zero_cell(q)) by {
                                assert(s0[s0.len() - 1] == q);
                            }
                        }
                        let (qx, qy) = q;
                        if qx >= 1 && qy >= 1 {
                            self.flood_visit(
                                (qx - 1, qy - 1),
                                &mut stack,
                                Ghost(b),
                                Ghost(position),
                                Ghost(q),
                            );
                        }
                        if qy >= 1 {
                            self.flood_visit(
                                (qx, qy - 1),
                                &mut stack,
                                Ghost(b),
                                Ghost(position),
                                Ghost(q),
                            );
                        }
                        if qx < u16::MAX && qy >= 1 {
                            self.flood_visit(
                                (qx + 1, qy - 1),
                                &mut stack,
                                Ghost(b),
                                Ghost(position),
                                Ghost(q),
                            );
                        }
                        if qx >= 1 {
                            self.flood_visit(
                                (qx - 1, qy),
                                &mut stack,
                                Ghost(b),
                                Ghost(position),
                                Ghost(q),
                            );
                        }
                        if qx < u16::MAX {
                            self.flood_visit(
                                (qx + 1, qy),
                                &mut stack,
                                Ghost(b),
                                Ghost(position),
                                Ghost(q),
                            );
                        }
                        if qx >= 1 && qy < u16::MAX {
                            self.flood_visit(
                                (qx - 1, qy + 1),
                                &mut stack,
                                Ghost(b),
                                Ghost(position),
                                Ghost(q),
                            );
                        }
                        if qy < u16::MAX {
                            self.flood_visit(
                                (qx, qy + 1),
                                &mut stack,
                                Ghost(b),
                                Ghost(position),
                                Ghost(q),
                            );
                        }
                        if qx < u16::MAX && qy < u16::MAX {
                            self.flood_visit(
                                (qx + 1, qy + 1),
                                &mut stack,
                                Ghost(b),
                                Ghost(position),
                                Ghost(q),
                            );
                        }
                        proof {
                            broadcast use vstd::seq_lib::lemma_seq_contains_after_push;

                            assert forall|z: Position, r: Position|
                                (#[trigger] self.open_positions@.contains(z)
                                    && !b.open_positions@.contains(z) && b.is_zero_cell(z)
                                    && !stack@.contains(z) && #[trigger] adjacent(z, r)
                                    && b.spec_openable(r)) implies self.open_positions@.contains(
                                r,
                            ) by {
                                if z == q {
                                    assert(r.0 as int == qx as int - 1 || r.0 as int == qx as int
                                        || r.0 as int == qx as int + 1);
                                    assert(r.1 as int == qy as int - 1 || r.1 as int == qy as int
                                        || r.1 as int == qy as int + 1);
                                } else {
                                    assert(!stack@.push(q).contains(z));
                                }
                            }
                            assert forall|i: int|
                                0 <= i < stack@.len() implies b.is_zero_cell(#[trigger] stack@[i])
                                && self.open_positions@.contains(stack@[i])
                                && !b.open_positions@.contains(stack@[i]) by {
                                assert(stack@.push(q)[i] == stack@[i]);
                            }
                            assert(Self::flood_inv(b, *self, stack@, position));
                        }
                    }
                    proof {
                        assert forall|q2: Position|
                            b.reveals(position).contains(q2) implies self.open_positions@.contains(
                            q2,
                        ) by {
                            let n = choose|n: nat| b.reach(position, q2, n);
                            Self::lemma_flood_reached(b, self.open_positions@, position, q2, n);
                        }
                        assert(self.open_positions@ =~= b.open_positions@.union(
                            b.reveals(position),
                        ));
                        assert forall|z: Position|
                            #[trigger] self.open_positions@.contains(z) implies !self
                            .flagged_positions@.contains(z) by {
                            if !b.open_positions@.contains(z) {
                                let n = choose|n: nat| b.reach(position, z, n);
                                assert(b.spec_openable(z));
                            }
                        }
                    }
                }
            },
        }
    }

    /// Every cell the finished cascade owes is revealed: induction over the
    /// length of the chain that reaches it.
    proof fn lemma_flood_reached(
        b: Minesweeper,
        opened: Set<Position>,
        pos: Position,
        q: Position,
        n: nat,
    )
        requires
            opened.contains(pos),
            b.open_positions@.subset_of(opened),
            forall|z: Position, r: Position|
                (#[trigger] opened.contains(z) && !b.open_positions@.contains(z)
                    && b.is_zero_cell(z) && #[trigger] adjacent(z, r) && b.spec_openable(r))
                    ==> opened.contains(r),
            b.reach(pos, q, n),
        ensures
            opened.contains(q),
        decreases n,
    {
        if q != pos {
            let r = choose|r: Position|
                #[trigger] adjacent(r, q) && b.is_zero_cell(r) && b.reach(pos, r, (n - 1) as nat);
            Self::lemma_flood_reached(b, opened, pos, r, (n - 1) as nat);
            assert(b.spec_openable(r));
            assert(opened.contains(q));
        }
    }

    /// How many neighbours an in-bounds cell has: three in a corner, five on
    /// a non-corner edge, eight in the interior.
    pub proof fn lemma_neighbour_class_counts(self, p: Position)
        requires
            self.in_bounds(p),
        ensures
            self.spec_neighbours(p).finite(),
            ((p.0 == 0 || p.0 as int + 1 == self.width as int) && (p.1 == 0 || p.1 as int + 1
                == self.height as int) && self.width >= 2 && self.height >= 2)
                ==> self.spec_neighbours(p).len() == 3,
            ((p.0 == 0 || p.0 as int + 1 == self.width as int) && 0 < p.1 && p.1 as int + 1
                < self.height as int && self.width >= 2) ==> self.spec_neighbours(p).len() == 5,
            (0 < p.0 && p.0 as int + 1 < self.width as int && (p.1 == 0 || p.1 as int + 1
                == self.height as int) && self.height >= 2) ==> self.spec_neighbours(p).len() == 5,
            (0 < p.0 && p.0 as int + 1 < self.width as int && 0 < p.1 && p.1 as int + 1
                < self.height as int) ==> self.spec_neighbours(p).len() == 8,
    {
        broadcast use vstd::set::group_set_axioms;

        let s = self.spec_neighbours(p);
        lemma_grid_size(self.width as int, self.height as int);
        assert(s.subset_of(grid_set(self.width as int, self.height as int)));
        vstd::set_lib::lemma_len_subset(s, grid_set(self.width as int, self.height as int));
        Self::lemma_eight_candidate_len(s, p);
    }

    /// A cell with no adjacent mines has no mine on any in-bounds neighbour.
    pub proof fn lemma_no_mines_when_zero(self, p: Position, q: Position)
        requires
            self.spec_mines_around(p) == 0,
            adjacent(p, q),
            self.in_bounds(q),
        ensures
            !self.mines@.contains(q),
    {
        broadcast use vstd::set::group_set_axioms;

        self.mines.lemma_finite();
        let n = self.mines@.intersect(self.spec_neighbours(p));
        if self.mines@.contains(q) {
            assert(n.contains(q));
        }
    }
}

/// All cells of a `w` by `h` grid.
spec fn grid_set(w: int, h: int) -> Set<Position> {
    Set::new(|q: Position| (q.0 as int) < w && (q.1 as int) < h)
}

/// Row-major numbering stays on the grid: an index below `w * h` divided by
/// the row length `w` names a row below `h`.
proof fn lemma_div_in_grid_range(i: int, w: int, h: int)
    requires
        w >= 1,
        0 <= i,
        i < w * h,
    ensures
        0 <= i / w < h,
{
    broadcast use vstd::arithmetic::div_mod::lemma_fundamental_div_mod;
    broadcast use vstd::arithmetic::div_mod::lemma_mod_division_less_than_divisor;

    assert(0 <= i % w < w);
    assert(i == w * (i / w) + (i % w));
    assert(w * (i / w) >= 0 ==> i / w >= 0) by (nonlinear_arith)
        requires
            w >= 1,
    ;
    assert(w * (i / w) < w * h ==> i / w < h) by (nonlinear_arith)
        requires
            w >= 1,
    ;
}

/// A `w` by `h` grid has exactly `w * h` cells: the cells are in bijection
/// with the integers below `w * h`, by row-major numbering.
proof fn lemma_grid_size(w: int, h: int)
    requires
        1 <= w <= u16::MAX,
        1 <= h <= u16::MAX,
    ensures
        grid_set(w, h).finite(),
        grid_set(w, h).len() == w * h,
{
    broadcast use vstd::arithmetic::div_mod::lemma_fundamental_div_mod;
    broadcast use vstd::arithmetic::div_mod::lemma_mod_division_less_than_divisor;

    let f = |i: int| (((i % w) as u16, (i / w) as u16));
    let rng = vstd::set_lib::set_int_range(0, w * h);
    assert(0 <= w * h) by (nonlinear_arith)
        requires
            w >= 1 && h >= 1,
    ;
    vstd::set_lib::lemma_int_range(0, w * h);
    assert forall|i: int, j: int|
        rng.contains(i) && rng.contains(j) && #[trigger] f(i) == #[trigger] f(j) implies i == j by {
        assert(0 <= i % w < w);
        assert(0 <= j % w < w);
        lemma_div_in_grid_range(i, w, h);
        lemma_div_in_grid_range(j, w, h);
        assert(i % w == j % w && i / w == j / w);
        assert(i == w * (i / w) + (i % w));
        assert(j == w * (j / w) + (j % w));
    }
    assert(vstd::relations::injective_on(f, rng));
    assert forall|q: Position| grid_set(w, h).contains(q) implies rng.map(f).contains(q) by {
        let i = (q.1 as int) * w + (q.0 as int);
        vstd::arithmetic::div_mod::lemma_fundamental_div_mod_converse(
            i,
            w,
            q.1 as int,
            q.0 as int,
        );
        assert(i < w * h) by (nonlinear_arith)
            requires
                (q.1 as int) <= h - 1 && (q.0 as int) <= w - 1 && w >= 1 && i == (q.1 as int) * w
                    + (q.0 as int),
        ;
        assert(i >= 0) by (nonlinear_arith)
            requires
                (q.1 as int) >= 0 && (q.0 as int) >= 0 && w >= 1 && i == (q.1 as int) * w + (
                q.0 as int),
        ;
        assert(rng.contains(i) && f(i) == q);
    }
    assert forall|q: Position| rng.map(f).contains(q) implies grid_set(w, h).contains(q) by {
        let i = choose|i: int| rng.contains(i) && f(i) == q;
        assert(0 <= i % w < w);
        lemma_div_in_grid_range(i, w, h);
    }
    assert(rng.map(f) =~= grid_set(w, h));
    vstd::set_lib::lemma_map_size(rng, rng.map(f), f);
}

/// Relies on rand: `rand::rng()` hands out the thread's generator, and
/// `RngExt::random_range` over `0..bound` draws a value uniformly below
/// `bound`. It panics only on an empty range, which `bound > 0` rules out.
#[verifier::external_body]
fn random_below(bound: u16) -> (r: u16)
    requires
        bound > 0,
    ensures
        r < bound,
{
    rand::RngExt::random_range(&mut rand::rng(), 0..bound)
}

} // verus!
