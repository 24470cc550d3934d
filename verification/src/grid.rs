use vstd::prelude::*;

use crate::rng;

verus! {

/// Denominator of every probability parameter: a chance `p` means an event
/// that fires with probability `p / CHANCE_DENOM`, so `p == 0` never fires
/// and `p == CHANCE_DENOM` always fires.
pub const CHANCE_DENOM: usize = 1000000;

/// A fair coin: half of `CHANCE_DENOM`.
pub const EVEN_CHANCE: usize = 500000;

/// How many random slots a reproducing cell probes for an Empty one before
/// giving up for the tick.
pub const REPRODUCE_TRIES: usize = 10;

/// The occupant of one grid position.
#[derive(Clone, Copy, Debug, PartialEq, Eq, Structural)]
pub enum Cell {
    Empty,
    /// Will pair with a neighbouring Female.
    Male,
    /// Will pair with a neighbouring Male.
    Female,
    /// Hunts Males and Females.
    Predator,
}

impl Cell {
    /// A non-Empty cell value.
    pub open spec fn is_occupant(self) -> bool {
        self != Cell::Empty
    }
}

/// Simulation parameters, fixed for a grid's lifetime. Each field is a
/// probability numerator over `CHANCE_DENOM`.
#[derive(Clone, Copy)]
pub struct GridConfig {
    /// Chance of a predator dying on its turn.
    pub predator_death_chance: usize,

    /// Chance of a predator reproducing after consuming prey.
    pub predator_reproduce_chance: usize,

    /// Chance of a regular cell randomly dying.
    pub death_chance: usize,

    /// Chance of a regular cell reproducing.
    pub reproduce_chance: usize,

    /// Initial chance of a position spawning an occupant.
    pub spawn_chance: usize,

    /// Chance of a spawned occupant being a predator.
    pub predator_spawn_chance: usize,
}

impl GridConfig {
    /// Every probability lies in [0, 1], i.e. its numerator is at most the
    /// denominator.
    pub open spec fn wf(&self) -> bool {
        &&& self.predator_death_chance <= CHANCE_DENOM
        &&& self.predator_reproduce_chance <= CHANCE_DENOM
        &&& self.death_chance <= CHANCE_DENOM
        &&& self.reproduce_chance <= CHANCE_DENOM
        &&& self.spawn_chance <= CHANCE_DENOM
        &&& self.predator_spawn_chance <= CHANCE_DENOM
    }
}

/// Whether a relocation of `cell` into a slot holding `dest` is refused: a
/// destination outside the board is no slot at all, nothing displaces a
/// Predator, and only a Predator displaces a live Male or Female.
pub open spec fn move_blocked(cell: Cell, dest: Option<Cell>) -> bool {
    ||| dest is None
    ||| dest == Some(Cell::Predator)
    ||| cell != Cell::Predator && (dest == Some(Cell::Male) || dest == Some(Cell::Female))
}

/// Draw one Bernoulli trial: true with probability `p / CHANCE_DENOM`. At the
/// extreme parameters the outcome is certain.
fn chance(generator: &mut rand::rngs::ThreadRng, p: usize) -> (r: bool)
    ensures
        p == 0 ==> r == false,
        p >= CHANCE_DENOM ==> r == true,
{
    let draw = rng::rand_below(generator, CHANCE_DENOM);
    draw < p
}

/// Leftmost (or topmost) column of the 3x3 neighbourhood block around
/// coordinate `c`, clamped at 0.
pub open spec fn block_lo(c: int) -> int {
    if c <= 1 {
        0
    } else {
        c - 1
    }
}

/// One past the rightmost (or bottommost) column of the 3x3 neighbourhood
/// block around coordinate `c`, clamped at the grid size.
pub open spec fn block_hi(c: int, size: int) -> int {
    if c + 2 <= size {
        c + 2
    } else {
        size
    }
}

/// Width of the clamped neighbourhood block along one axis.
pub open spec fn block_width(c: int, size: int) -> int {
    let w = block_hi(c, size) - block_lo(c);
    if w < 0 {
        0
    } else {
        w
    }
}

/// The state a cell pairs with: a Female pairs with a Male and conversely;
/// Empty slots and Predators pair with nothing.
pub open spec fn partner_of(c: Cell) -> Option<Cell> {
    match c {
        Cell::Female => Some(Cell::Male),
        Cell::Male => Some(Cell::Female),
        _ => None,
    }
}

/// Whether `(cx, cy)` is scanned strictly before position `(x, y)` in a
/// row-major walk of the board.
pub open spec fn scanned_before(cx: int, cy: int, x: int, y: int) -> bool {
    cy < y || (cy == y && cx < x)
}

/// A parameter set under which no rule of a tick ever creates an occupant.
pub open spec fn no_reproduction(config: GridConfig) -> bool {
    config.reproduce_chance == 0 && config.predator_reproduce_chance == 0
}

/// Strict row-major order on coordinates: `a` is scanned strictly before `b`
/// when rows are walked top to bottom and each row left to right.
pub open spec fn row_major_before(a: (usize, usize), b: (usize, usize)) -> bool {
    scanned_before(a.0 as int, a.1 as int, b.0 as int, b.1 as int)
}

/// A square board of cells together with the simulation parameters.
pub struct Grid {
    /// All cells, row-major: `cells[y][x]`.
    cells: Vec<Vec<Cell>>,

    /// Grid dimension (the board is `grid_size` by `grid_size`).
    grid_size: usize,

    /// Simulation parameters; never mutated after construction.
    pub config: GridConfig,
}

impl Grid {
    /// The grid dimension.
    pub closed spec fn spec_size(&self) -> int {
        self.grid_size as int
    }

    /// The simulation parameters the grid was built with.
    pub closed spec fn spec_config(&self) -> GridConfig {
        self.config
    }

    /// Structural well-formedness: a positive dimension, a square board, and
    /// valid probabilities.
    pub closed spec fn wf(&self) -> bool {
        &&& self.grid_size >= 1
        &&& self.cells@.len() == self.grid_size
        &&& forall|y: int|
            0 <= y < self.cells@.len() ==> (#[trigger] self.cells@[y])@.len() == self.grid_size
        &&& self.config.wf()
    }

    /// Whether `(x, y)` addresses a slot of the board.
    pub closed spec fn in_bounds(&self, x: int, y: int) -> bool {
        0 <= x < self.grid_size && 0 <= y < self.grid_size
    }

    /// The occupant of the slot at `(x, y)`.
    pub closed spec fn cell_at(&self, x: int, y: int) -> Cell {
        self.cells@[y]@[x]
    }

    /// Whether every slot of the board is Empty.
    pub open spec fn all_empty(&self) -> bool {
        forall|x: int, y: int| self.in_bounds(x, y) ==> #[trigger] self.cell_at(x, y) == Cell::Empty
    }

    /// Whether `(cx, cy)` lies in the clamped 3x3 block around `(x, y)`,
    /// excluding `(x, y)` itself. Such a coordinate is always in bounds.
    pub open spec fn is_neighbour(&self, x: int, y: int, cx: int, cy: int) -> bool {
        &&& block_lo(x) <= cx < block_hi(x, self.spec_size())
        &&& block_lo(y) <= cy < block_hi(y, self.spec_size())
        &&& !(cx == x && cy == y)
    }

    /// How many neighbours `(x, y)` has: the area of the clamped block, minus
    /// the centre when the centre itself lies on the board.
    pub open spec fn neighbour_count(&self, x: int, y: int) -> int {
        block_width(x, self.spec_size()) * block_width(y, self.spec_size()) - if self.in_bounds(
            x,
            y,
        ) {
            1int
        } else {
            0int
        }
    }

    /// Mid-scan bookkeeping of a tick's write buffer: a slot not yet scanned
    /// that held a Predator in the snapshot `prev` still holds it, since no
    /// rule writes over a standing Predator.
    spec fn predators_standing(&self, prev: &Grid, x: int, y: int) -> bool {
        forall|cx: int, cy: int|
            prev.in_bounds(cx, cy) && #[trigger] prev.cell_at(cx, cy) == Cell::Predator
                && !scanned_before(cx, cy, x, y) ==> self.cell_at(cx, cy) == Cell::Predator
    }

    /// Mid-scan bookkeeping of a tick's write buffer: a slot not yet scanned
    /// that held a Male or Female in the snapshot `prev` still holds some
    /// occupant, since only a Predator may displace them.
    spec fn mates_standing(&self, prev: &Grid, x: int, y: int) -> bool {
        forall|cx: int, cy: int|
            prev.in_bounds(cx, cy) && ((#[trigger] prev.cell_at(cx, cy)) == Cell::Male
                || prev.cell_at(cx, cy) == Cell::Female) && !scanned_before(cx, cy, x, y)
                ==> self.cell_at(cx, cy).is_occupant()
    }

    /// Mid-scan bookkeeping of a tick's write buffer under certain predator
    /// death: every scanned slot that held a Predator in the snapshot `prev`
    /// has been emptied.
    spec fn predators_culled_upto(&self, prev: &Grid, x: int, y: int) -> bool {
        forall|cx: int, cy: int|
            prev.in_bounds(cx, cy) && #[trigger] prev.cell_at(cx, cy) == Cell::Predator
                && scanned_before(cx, cy, x, y) ==> self.cell_at(cx, cy) == Cell::Empty
    }

    /// Every slot that held a Predator in `prev` is Empty here: what a tick
    /// guarantees when predator death is certain.
    pub open spec fn predators_culled(&self, prev: &Grid) -> bool {
        forall|x: int, y: int|
            prev.in_bounds(x, y) && #[trigger] prev.cell_at(x, y) == Cell::Predator
                ==> self.cell_at(x, y) == Cell::Empty
    }

    /// Whether no slot of the board holds a Predator.
    pub open spec fn predator_free(&self) -> bool {
        forall|x: int, y: int|
            self.in_bounds(x, y) ==> #[trigger] self.cell_at(x, y) != Cell::Predator
    }

    /// Whether the occupant at `(x, y)` has a mate on a neighbouring slot.
    pub open spec fn has_mate(&self, x: int, y: int) -> bool {
        exists|cx: int, cy: int|
            self.is_neighbour(x, y, cx, cy) && Some(#[trigger] self.cell_at(cx, cy)) == partner_of(
                self.cell_at(x, y),
            )
    }

    /// Every slot whose occupant in the snapshot `prev` was a Male or Female
    /// with a neighbouring mate still holds some occupant: such a parent
    /// stays in place for the tick, and at worst a Predator has taken its
    /// slot.
    pub open spec fn mated_slots_occupied(&self, prev: &Grid) -> bool {
        forall|x: int, y: int|
            prev.in_bounds(x, y) && ((#[trigger] prev.cell_at(x, y)) == Cell::Male
                || prev.cell_at(x, y) == Cell::Female) && prev.has_mate(x, y) ==> self.cell_at(
                x,
                y,
            ).is_occupant()
    }

    /// Under a predator-free snapshot `prev`, every mated Male or Female
    /// stays exactly in place for the tick: a reproducing parent does not
    /// move, and nothing else may write over it.
    pub open spec fn mated_parents_stay(&self, prev: &Grid) -> bool {
        forall|x: int, y: int|
            prev.in_bounds(x, y) && ((#[trigger] prev.cell_at(x, y)) == Cell::Male
                || prev.cell_at(x, y) == Cell::Female) && prev.has_mate(x, y) ==> self.cell_at(
                x,
                y,
            ) == prev.cell_at(x, y)
    }

    /// Two grids hold the same board: same dimension, same parameters, and
    /// the same occupant in every slot.
    pub open spec fn same_board(&self, other: &Grid) -> bool {
        &&& self.spec_size() == other.spec_size()
        &&& self.spec_config() == other.spec_config()
        &&& forall|x: int, y: int|
            self.in_bounds(x, y) ==> #[trigger] self.cell_at(x, y) == other.cell_at(x, y)
    }

    /// The board as a mathematical sequence of rows.
    pub closed spec fn board(&self) -> Seq<Seq<Cell>> {
        self.cells@.map_values(|row: Vec<Cell>| row@)
    }

    /// Total number of Male, Female and Predator cells on the board.
    pub closed spec fn occupants(&self) -> int {
        board_occupants(self.board())
    }

    /// The occupant at `(x, y)`, or `None` out of bounds: what `get` returns.
    pub open spec fn spec_get(&self, x: int, y: int) -> Option<Cell> {
        if self.in_bounds(x, y) {
            Some(self.cell_at(x, y))
        } else {
            None
        }
    }

    /// The occupant at `(x, y)`, or `None` when the coordinate is out of
    /// bounds. Never panics, whatever the coordinate.
    pub fn get(&self, x: usize, y: usize) -> (r: Option<Cell>)
        ensures
            self.wf() ==> r == self.spec_get(x as int, y as int),
    {
        if y < self.cells.len() {
            let row: &Vec<Cell> = &self.cells[y];
            if x < row.len() {
                Some(row[x])
            } else {
                None
            }
        } else {
            None
        }
    }

    /// Overwrite the slot at `(x, y)` with `to`; a no-op when the coordinate
    /// is out of bounds. Never panics, whatever the coordinate.
    pub fn set(&mut self, x: usize, y: usize, to: Cell)
        ensures
            old(self).wf() ==> {
                &&& final(self).wf()
                &&& final(self).spec_size() == old(self).spec_size()
                &&& final(self).spec_config() == old(self).spec_config()
                &&& forall|cx: int, cy: int|
                    old(self).in_bounds(cx, cy) ==> #[trigger] final(self).cell_at(cx, cy) == (
                    if cx == x as int && cy == y as int {
                        to
                    } else {
                        old(self).cell_at(cx, cy)
                    })
            },
    {
        if y < self.cells.len() {
            if x < self.cells[y].len() {
                self.cells[y][x] = to;
            }
        }
    }

    /// A uniformly chosen neighbour coordinate of `(x, y)`: one of the up to
    /// 8 slots of the clamped 3x3 block around it, never `(x, y)` itself
    /// unless the board is a single slot and bounds force it.
    pub fn random_adjacent_target(
        &self,
        generator: &mut rand::rngs::ThreadRng,
        x: usize,
        y: usize,
    ) -> (r: (usize, usize))
        requires
            self.wf(),
            self.in_bounds(x as int, y as int),
        ensures
            block_lo(x as int) <= r.0 < block_hi(x as int, self.spec_size()),
            block_lo(y as int) <= r.1 < block_hi(y as int, self.spec_size()),
            self.in_bounds(r.0 as int, r.1 as int),
            self.spec_size() >= 2 ==> !(r.0 == x && r.1 == y),
    {
        let size = self.grid_size;
        let x_prev_ok = x >= 1;
        let x_next_ok = x + 1 < size;
        let y_prev_ok = y >= 1;
        let y_next_ok = y + 1 < size;
        let mut candidates: Vec<(usize, usize)> = Vec::new();
        if y_prev_ok {
            if x_prev_ok {
                candidates.push((x - 1, y - 1));
            }
            candidates.push((x, y - 1));
            if x_next_ok {
                candidates.push((x + 1, y - 1));
            }
        }
        if x_prev_ok {
            candidates.push((x - 1, y));
        }
        if x_next_ok {
            candidates.push((x + 1, y));
        }
        if y_next_ok {
            if x_prev_ok {
                candidates.push((x - 1, y + 1));
            }
            candidates.push((x, y + 1));
            if x_next_ok {
                candidates.push((x + 1, y + 1));
            }
        }
        proof {
            assert(forall|i: int|
                0 <= i < candidates@.len() ==> {
                    &&& block_lo(x as int) <= (#[trigger] candidates@[i]).0 < block_hi(
                        x as int,
                        self.spec_size(),
                    )
                    &&& block_lo(y as int) <= candidates@[i].1 < block_hi(
                        y as int,
                        self.spec_size(),
                    )
                    &&& !(candidates@[i].0 == x && candidates@[i].1 == y)
                });
        }
        if candidates.len() == 0 {
            proof {
                assert(self.spec_size() < 2);
            }
            (x, y)
        } else {
            let k = rng::rand_below(generator, candidates.len());
            candidates[k]
        }
    }

    /// The board equals `prev` with `cell` written at `to` and `from`
    /// cleared, the write at `to` winning when the two coincide; slots that
    /// `prev` does not have are not spoken of.
    pub open spec fn is_move_of(
        &self,
        prev: &Grid,
        cell: Cell,
        from: (usize, usize),
        to: (usize, usize),
    ) -> bool {
        forall|cx: int, cy: int|
            prev.in_bounds(cx, cy) ==> #[trigger] self.cell_at(cx, cy) == (if cx == to.0 as int
                && cy == to.1 as int {
                cell
            } else if cx == from.0 as int && cy == from.1 as int {
                Cell::Empty
            } else {
                prev.cell_at(cx, cy)
            })
    }

    /// Conditional relocation of `cell` from `from` to `to`: a no-op when
    /// the destination is out of bounds or holds a Predator, or when a
    /// non-Predator would displace a live Male or Female; otherwise `from`
    /// becomes Empty and `to` becomes `cell`, so no occupant is ever lost
    /// except prey displaced by a Predator. Never panics, whatever the
    /// coordinates.
    pub fn move_cell(&mut self, cell: Cell, from: (usize, usize), to: (usize, usize))
        ensures
            old(self).wf() ==> {
                &&& final(self).wf()
                &&& final(self).spec_size() == old(self).spec_size()
                &&& final(self).spec_config() == old(self).spec_config()
                &&& move_blocked(cell, old(self).spec_get(to.0 as int, to.1 as int))
                    ==> final(self).same_board(old(self))
                &&& !move_blocked(cell, old(self).spec_get(to.0 as int, to.1 as int))
                    ==> final(self).is_move_of(old(self), cell, from, to)
            },
    {
        let cell_to = self.get(to.0, to.1);
        let blocked = match cell_to {
            None => true,
            Some(Cell::Predator) => true,
            Some(Cell::Female) | Some(Cell::Male) => cell != Cell::Predator,
            Some(Cell::Empty) => false,
        };
        if blocked {
            return;
        }
        self.set(from.0, from.1, Cell::Empty);
        self.set(to.0, to.1, cell);
    }

    /// Append the neighbour entry for the in-bounds coordinate `(cx, cy)`.
    fn push_neighbour(&self, end: &mut Vec<((usize, usize), Cell)>, cx: usize, cy: usize)
        requires
            self.wf(),
            self.in_bounds(cx as int, cy as int),
        ensures
            final(end)@ == old(end)@.push(((cx, cy), self.cell_at(cx as int, cy as int))),
    {
        let c = self.get(cx, cy).unwrap();
        end.push(((cx, cy), c));
    }

    /// The list of neighbours of `(x, y)`: every coordinate of the clamped
    /// 3x3 block except `(x, y)` itself, in row-major scan order, each paired
    /// with its occupant. Never panics, whatever the coordinate.
    #[verifier::rlimit(100)]
    pub fn get_neighbours(&self, x: usize, y: usize) -> (r: Vec<((usize, usize), Cell)>)
        requires
            self.wf(),
        ensures
            r@.len() == self.neighbour_count(x as int, y as int),
            forall|i: int|
                0 <= i < r@.len() ==> {
                    &&& self.is_neighbour(
                        x as int,
                        y as int,
                        (#[trigger] r@[i]).0.0 as int,
                        r@[i].0.1 as int,
                    )
                    &&& r@[i].1 == self.cell_at(r@[i].0.0 as int, r@[i].0.1 as int)
                },
            forall|cx: int, cy: int|
                #[trigger] self.is_neighbour(x as int, y as int, cx, cy) ==> exists|i: int|
                    0 <= i < r@.len() && (#[trigger] r@[i]).0.0 == cx && r@[i].0.1 == cy,
            forall|i: int, j: int|
                0 <= i < j < r@.len() ==> row_major_before(
                    (#[trigger] r@[i]).0,
                    (#[trigger] r@[j]).0,
                ),
    {
        let mut end: Vec<((usize, usize), Cell)> = Vec::new();
        let size = self.grid_size;
        // The clamped block around (x, y) holds exactly the coordinates of
        // {x-1, x, x+1} x {y-1, y, y+1} that lie on the board.
        let x_prev_ok = x >= 1 && x - 1 < size;
        let x_here_ok = x < size;
        let x_next_ok = x < size && x + 1 < size;
        let y_prev_ok = y >= 1 && y - 1 < size;
        let y_here_ok = y < size;
        let y_next_ok = y < size && y + 1 < size;
        if y_prev_ok {
            if x_prev_ok {
                self.push_neighbour(&mut end, x - 1, y - 1);
            }
            if x_here_ok {
                self.push_neighbour(&mut end, x, y - 1);
            }
            if x_next_ok {
                self.push_neighbour(&mut end, x + 1, y - 1);
            }
        }
        if y_here_ok {
            if x_prev_ok {
                self.push_neighbour(&mut end, x - 1, y);
            }
            if x_next_ok {
                self.push_neighbour(&mut end, x + 1, y);
            }
        }
        if y_next_ok {
            if x_prev_ok {
                self.push_neighbour(&mut end, x - 1, y + 1);
            }
            if x_here_ok {
                self.push_neighbour(&mut end, x, y + 1);
            }
            if x_next_ok {
                self.push_neighbour(&mut end, x + 1, y + 1);
            }
        }
        proof {
            broadcast use vstd::seq_lib::group_seq_properties;

            assert forall|cx: int, cy: int|
                #[trigger] self.is_neighbour(x as int, y as int, cx, cy) implies exists|i: int|
                0 <= i < end@.len() && (#[trigger] end@[i]).0.0 == cx && end@[i].0.1 == cy by {
                let e = (((cx as usize), (cy as usize)), self.cell_at(cx, cy));
                assert(end@.contains(e));
                let i = choose|i: int| 0 <= i < end@.len() && end@[i] == e;
                assert(end@[i].0.0 == cx && end@[i].0.1 == cy);
            }
            let ghost wx = block_width(x as int, size as int);
            let ghost wy = block_width(y as int, size as int);
            let ghost ix1: int = if x_prev_ok { 1 } else { 0 };
            let ghost ix2: int = if x_here_ok { 1 } else { 0 };
            let ghost ix3: int = if x_next_ok { 1 } else { 0 };
            let ghost iy1: int = if y_prev_ok { 1 } else { 0 };
            let ghost iy2: int = if y_here_ok { 1 } else { 0 };
            let ghost iy3: int = if y_next_ok { 1 } else { 0 };
            assert(wx == ix1 + ix2 + ix3);
            assert(wy == iy1 + iy2 + iy3);
            assert(wx * wy == iy1 * wx + iy2 * wx + iy3 * wx) by (nonlinear_arith)
                requires
                    wy == iy1 + iy2 + iy3,
            ;
            assert(end@.len() == (if y_prev_ok {
                ix1 + ix2 + ix3
            } else {
                0int
            }) + (if y_here_ok {
                ix1 + ix3
            } else {
                0int
            }) + (if y_next_ok {
                ix1 + ix2 + ix3
            } else {
                0int
            }));
            assert(end@.len() == self.neighbour_count(x as int, y as int));
        }
        end
    }

    /// The coordinate of the first entry of `neighbours` whose occupant
    /// equals `input`, scanning in list order; `None` when no entry matches.
    pub fn neighbours_contain(
        neighbours: &Vec<((usize, usize), Cell)>,
        input: Cell,
    ) -> (r: Option<(usize, usize)>)
        ensures
            match r {
                Some(c) => exists|i: int|
                    0 <= i < neighbours@.len() && (#[trigger] neighbours@[i]).1 == input
                        && neighbours@[i].0 == c && (forall|j: int|
                        0 <= j < i ==> (#[trigger] neighbours@[j]).1 != input),
                None => forall|i: int|
                    0 <= i < neighbours@.len() ==> (#[trigger] neighbours@[i]).1 != input,
            },
    {
        let mut k: usize = 0;
        while k < neighbours.len()
            invariant
                k <= neighbours@.len(),
                forall|j: int| 0 <= j < k ==> (#[trigger] neighbours@[j]).1 != input,
            decreases neighbours@.len() - k,
        {
            let entry = neighbours[k];
            if entry.1 == input {
                return Some(entry.0);
            }
            k += 1;
        }
        None
    }

    /// Where a predator at `prey` jumps to attack: the coordinate of a
    /// neighbouring Female if one exists, else of a neighbouring Male, else
    /// `None` when there is nothing to attack.
    #[verifier::rlimit(100)]
    pub fn prey_jump(grid: &Self, prey: (usize, usize)) -> (r: Option<(usize, usize)>)
        requires
            grid.wf(),
        ensures
            match r {
                Some(c) => {
                    &&& grid.is_neighbour(prey.0 as int, prey.1 as int, c.0 as int, c.1 as int)
                    &&& (grid.cell_at(c.0 as int, c.1 as int) == Cell::Female || grid.cell_at(
                        c.0 as int,
                        c.1 as int,
                    ) == Cell::Male)
                    &&& (grid.cell_at(c.0 as int, c.1 as int) == Cell::Male ==> forall|
                        cx: int,
                        cy: int,
                    |
                        grid.is_neighbour(prey.0 as int, prey.1 as int, cx, cy)
                            ==> #[trigger] grid.cell_at(cx, cy) != Cell::Female)
                    &&& forall|cx: int, cy: int|
                        grid.is_neighbour(prey.0 as int, prey.1 as int, cx, cy) && scanned_before(
                            cx,
                            cy,
                            c.0 as int,
                            c.1 as int,
                        ) ==> #[trigger] grid.cell_at(cx, cy) != grid.cell_at(
                            c.0 as int,
                            c.1 as int,
                        )
                },
                None => forall|cx: int, cy: int|
                    grid.is_neighbour(prey.0 as int, prey.1 as int, cx, cy) ==> (
                    #[trigger] grid.cell_at(cx, cy) != Cell::Female && grid.cell_at(cx, cy)
                        != Cell::Male),
            },
    {
        let neighbours = grid.get_neighbours(prey.0, prey.1);
        if let Some(female) = Self::neighbours_contain(&neighbours, Cell::Female) {
            proof {
                lemma_first_match_is_least(
                    grid,
                    prey.0 as int,
                    prey.1 as int,
                    neighbours@,
                    Cell::Female,
                    female,
                );
            }
            Some(female)
        } else if let Some(male) = Self::neighbours_contain(&neighbours, Cell::Male) {
            proof {
                lemma_first_match_is_least(
                    grid,
                    prey.0 as int,
                    prey.1 as int,
                    neighbours@,
                    Cell::Male,
                    male,
                );
            }
            Some(male)
        } else {
            None
        }
    }

    /// Where the occupant at `cell` finds a mate: for a Female the first
    /// neighbouring Male, for a Male the first neighbouring Female, and
    /// `None` for an Empty slot or a Predator.
    #[verifier::rlimit(100)]
    pub fn can_reproduce(grid: &Self, cell: (usize, usize)) -> (r: Option<(usize, usize)>)
        requires
            grid.wf(),
            grid.in_bounds(cell.0 as int, cell.1 as int),
        ensures
            match r {
                Some(c) => {
                    &&& grid.is_neighbour(cell.0 as int, cell.1 as int, c.0 as int, c.1 as int)
                    &&& Some(grid.cell_at(c.0 as int, c.1 as int)) == partner_of(
                        grid.cell_at(cell.0 as int, cell.1 as int),
                    )
                    &&& forall|cx: int, cy: int|
                        grid.is_neighbour(cell.0 as int, cell.1 as int, cx, cy) && scanned_before(
                            cx,
                            cy,
                            c.0 as int,
                            c.1 as int,
                        ) ==> Some(#[trigger] grid.cell_at(cx, cy)) != partner_of(
                            grid.cell_at(cell.0 as int, cell.1 as int),
                        )
                },
                None => forall|cx: int, cy: int|
                    grid.is_neighbour(cell.0 as int, cell.1 as int, cx, cy)
                        ==> Some(#[trigger] grid.cell_at(cx, cy)) != partner_of(
                        grid.cell_at(cell.0 as int, cell.1 as int),
                    ),
            },
    {
        let neighbours = grid.get_neighbours(cell.0, cell.1);
        let this_cell = grid.get(cell.0, cell.1).unwrap();
        match this_cell {
            Cell::Female => {
                let found = Self::neighbours_contain(&neighbours, Cell::Male);
                proof {
                    match found {
                        Some(c) => lemma_first_match_is_least(
                            grid,
                            cell.0 as int,
                            cell.1 as int,
                            neighbours@,
                            Cell::Male,
                            c,
                        ),
                        None => (),
                    }
                }
                found
            },
            Cell::Male => {
                let found = Self::neighbours_contain(&neighbours, Cell::Female);
                proof {
                    match found {
                        Some(c) => lemma_first_match_is_least(
                            grid,
                            cell.0 as int,
                            cell.1 as int,
                            neighbours@,
                            Cell::Female,
                            c,
                        ),
                        None => (),
                    }
                }
                found
            },
            _ => None,
        }
    }

    /// Build a `grid_size` by `grid_size` grid: each slot independently
    /// spawns an occupant with probability `spawn_chance`; a spawned occupant
    /// is a Predator with probability `predator_spawn_chance`, else a Male or
    /// Female with even odds.
    #[verifier::loop_isolation(false)]
    pub fn new(grid_size: usize, config: GridConfig) -> (r: Grid)
        requires
            grid_size >= 1,
            config.wf(),
        ensures
            r.wf(),
            r.spec_size() == grid_size,
            r.spec_config() == config,
            config.spawn_chance == 0 ==> r.all_empty(),
            config.spawn_chance == CHANCE_DENOM ==> forall|x: int, y: int|
                r.in_bounds(x, y) ==> (#[trigger] r.cell_at(x, y)).is_occupant(),
            config.predator_spawn_chance == 0 ==> forall|x: int, y: int|
                r.in_bounds(x, y) ==> #[trigger] r.cell_at(x, y) != Cell::Predator,
            config.spawn_chance == CHANCE_DENOM && config.predator_spawn_chance == CHANCE_DENOM
                ==> forall|x: int, y: int|
                r.in_bounds(x, y) ==> #[trigger] r.cell_at(x, y) == Cell::Predator,
    {
        let mut generator = rng::thread_rng_handle();
        let mut cells: Vec<Vec<Cell>> = Vec::new();
        let mut y: usize = 0;
        while y < grid_size
            invariant
                y <= grid_size,
                cells@.len() == y,
                forall|j: int| 0 <= j < y ==> (#[trigger] cells@[j])@.len() == grid_size,
                config.spawn_chance == 0 ==> forall|j: int, i: int|
                    0 <= j < y && 0 <= i < grid_size ==> #[trigger] cells@[j]@[i] == Cell::Empty,
                config.spawn_chance == CHANCE_DENOM ==> forall|j: int, i: int|
                    0 <= j < y && 0 <= i < grid_size ==> (#[trigger] cells@[j]@[i]).is_occupant(),
                config.predator_spawn_chance == 0 ==> forall|j: int, i: int|
                    0 <= j < y && 0 <= i < grid_size ==> #[trigger] cells@[j]@[i]
                        != Cell::Predator,
                config.spawn_chance == CHANCE_DENOM && config.predator_spawn_chance
                    == CHANCE_DENOM ==> forall|j: int, i: int|
                    0 <= j < y && 0 <= i < grid_size ==> #[trigger] cells@[j]@[i]
                        == Cell::Predator,
            decreases grid_size - y,
        {
            let mut inner: Vec<Cell> = Vec::new();
            let mut x: usize = 0;
            while x < grid_size
                invariant
                    x <= grid_size,
                    inner@.len() == x,
                    config.spawn_chance == 0 ==> forall|i: int|
                        0 <= i < x ==> #[trigger] inner@[i] == Cell::Empty,
                    config.spawn_chance == CHANCE_DENOM ==> forall|i: int|
                        0 <= i < x ==> (#[trigger] inner@[i]).is_occupant(),
                    config.predator_spawn_chance == 0 ==> forall|i: int|
                        0 <= i < x ==> #[trigger] inner@[i] != Cell::Predator,
                    config.spawn_chance == CHANCE_DENOM && config.predator_spawn_chance
                        == CHANCE_DENOM ==> forall|i: int|
                        0 <= i < x ==> #[trigger] inner@[i] == Cell::Predator,
                decreases grid_size - x,
            {
                let cell = if chance(&mut generator, config.spawn_chance) {
                    if chance(&mut generator, config.predator_spawn_chance) {
                        Cell::Predator
                    } else {
                        if chance(&mut generator, EVEN_CHANCE) {
                            Cell::Male
                        } else {
                            Cell::Female
                        }
                    }
                } else {
                    Cell::Empty
                };
                inner.push(cell);
                x += 1;
            }
            cells.push(inner);
            y += 1;
        }
        Grid { cells, grid_size, config }
    }

    /// A slot-for-slot copy of the board, used as the write buffer of a tick.
    #[verifier::loop_isolation(false)]
    fn duplicate(&self) -> (r: Grid)
        requires
            self.wf(),
        ensures
            r.wf(),
            r.same_board(self),
    {
        let mut cells: Vec<Vec<Cell>> = Vec::new();
        let mut y: usize = 0;
        while y < self.grid_size
            invariant
                y <= self.grid_size,
                cells@.len() == y,
                forall|j: int| 0 <= j < y ==> (#[trigger] cells@[j])@.len() == self.grid_size,
                forall|j: int, i: int|
                    0 <= j < y && 0 <= i < self.spec_size() ==> #[trigger] cells@[j]@[i]
                        == self.cell_at(i, j),
            decreases self.spec_size() - y,
        {
            let mut inner: Vec<Cell> = Vec::new();
            let mut x: usize = 0;
            while x < self.grid_size
                invariant
                    x <= self.grid_size,
                    y < self.grid_size,
                    inner@.len() == x,
                    forall|i: int| 0 <= i < x ==> #[trigger] inner@[i] == self.cell_at(i, y as int),
                decreases self.spec_size() - x,
            {
                let c = self.get(x, y).unwrap();
                inner.push(c);
                x += 1;
            }
            cells.push(inner);
            y += 1;
        }
        Grid { cells, grid_size: self.grid_size, config: self.config }
    }

    /// One simulation tick: every decision reads this grid as an immutable
    /// snapshot, and every write lands in a separate successor grid, so that
    /// no cell is evaluated twice in one tick and no two cells' decisions
    /// observe each other's same-tick writes.
    ///
    /// Per occupant of the snapshot: a Predator first risks death, then
    /// jumps onto neighbouring prey (preferring a Female) and may leave a
    /// new Predator on its vacated slot, else wanders to a random adjacent
    /// slot; a Male or Female with a neighbouring mate may spawn a new Male
    /// or Female (even odds) on a randomly probed slot that the snapshot
    /// shows Empty, probing at most `REPRODUCE_TRIES` times and staying in
    /// place, else wanders to a random adjacent slot the snapshot shows
    /// Empty.
    #[verifier::loop_isolation(false)]
    #[verifier::rlimit(100)]
    pub fn advance(&self) -> (r: Grid)
        requires
            self.wf(),
        ensures
            r.wf(),
            r.spec_size() == self.spec_size(),
            r.spec_config() == self.spec_config(),
            self.all_empty() ==> r.same_board(self),
            self.spec_config().predator_death_chance == CHANCE_DENOM ==> r.predators_culled(self),
            no_reproduction(self.spec_config()) ==> r.occupants() <= self.occupants(),
            no_reproduction(self.spec_config()) && self.predator_free() ==> r.occupants()
                == self.occupants(),
            r.mated_slots_occupied(self),
            self.predator_free() ==> r.mated_parents_stay(self),
    {
        let mut generator = rng::thread_rng_handle();
        let mut next = self.duplicate();
        proof {
            lemma_same_board_occupants(&next, self);
        }
        let size = self.grid_size;
        let mut y: usize = 0;
        while y < size
            invariant
                y <= size,
                next.wf(),
                next.spec_size() == self.spec_size(),
                next.spec_config() == self.spec_config(),
                self.all_empty() ==> next.same_board(self),
                next.predators_standing(self, 0, y as int),
                next.mates_standing(self, 0, y as int),
                self.spec_config().predator_death_chance == CHANCE_DENOM
                    ==> next.predators_culled_upto(self, 0, y as int),
                no_reproduction(self.spec_config()) ==> next.occupants() <= self.occupants(),
                no_reproduction(self.spec_config()) && self.predator_free() ==> next.occupants()
                    == self.occupants(),
                next.mated_slots_occupied(self),
                self.predator_free() ==> next.mated_parents_stay(self),
            decreases size - y,
        {
            let mut x: usize = 0;
            while x < size
                invariant
                    x <= size,
                    y < size,
                    next.wf(),
                    next.spec_size() == self.spec_size(),
                    next.spec_config() == self.spec_config(),
                    self.all_empty() ==> next.same_board(self),
                    next.predators_standing(self, x as int, y as int),
                    next.mates_standing(self, x as int, y as int),
                    self.spec_config().predator_death_chance == CHANCE_DENOM
                        ==> next.predators_culled_upto(self, x as int, y as int),
                    no_reproduction(self.spec_config()) ==> next.occupants() <= self.occupants(),
                    no_reproduction(self.spec_config()) && self.predator_free()
                        ==> next.occupants() == self.occupants(),
                    next.mated_slots_occupied(self),
                    self.predator_free() ==> next.mated_parents_stay(self),
                decreases size - x,
            {
                let this_cell = self.get(x, y).unwrap();
                match this_cell {
                    Cell::Predator => {
                        if chance(&mut generator, self.config.predator_death_chance) {
                            let ghost next0 = next;
                            next.set(x, y, Cell::Empty);
                            proof {
                                lemma_write_occupants(
                                    &next0,
                                    &next,
                                    x as int,
                                    y as int,
                                    Cell::Empty,
                                );
                            }
                        } else if let Some(move_to) = Self::prey_jump(self, (x, y)) {
                            let ghost next0 = next;
                            next.move_cell(Cell::Predator, (x, y), move_to);
                            proof {
                                if move_blocked(
                                    Cell::Predator,
                                    next0.spec_get(move_to.0 as int, move_to.1 as int),
                                ) {
                                    lemma_same_board_occupants(&next, &next0);
                                } else {
                                    lemma_move_occupants(
                                        &next0,
                                        &next,
                                        Cell::Predator,
                                        (x, y),
                                        move_to,
                                    );
                                }
                            }
                            if chance(&mut generator, self.config.predator_reproduce_chance) {
                                next.set(x, y, Cell::Predator);
                            }
                        } else {
                            let move_to = self.random_adjacent_target(&mut generator, x, y);
                            let ghost next0 = next;
                            next.move_cell(Cell::Predator, (x, y), move_to);
                            proof {
                                if move_blocked(
                                    Cell::Predator,
                                    next0.spec_get(move_to.0 as int, move_to.1 as int),
                                ) {
                                    lemma_same_board_occupants(&next, &next0);
                                } else {
                                    assert(!(move_to.0 == x && move_to.1 == y));
                                    lemma_move_occupants(
                                        &next0,
                                        &next,
                                        Cell::Predator,
                                        (x, y),
                                        move_to,
                                    );
                                }
                            }
                        }
                    },
                    Cell::Female | Cell::Male => {
                        if let Some(_partner) = Self::can_reproduce(self, (x, y)) {
                            if chance(&mut generator, self.config.reproduce_chance) {
                                proof {
                                    assert(self.spec_config().reproduce_chance != 0);
                                }
                                let mut tries: usize = 0;
                                while tries < REPRODUCE_TRIES
                                    invariant
                                        next.wf(),
                                        next.spec_size() == self.spec_size(),
                                        next.spec_config() == self.spec_config(),
                                        self.all_empty() ==> next.same_board(self),
                                        next.predators_standing(self, x as int, y as int),
                                        next.mates_standing(self, x as int, y as int),
                                        self.spec_config().predator_death_chance == CHANCE_DENOM
                                            ==> next.predators_culled_upto(
                                            self,
                                            x as int,
                                            y as int,
                                        ),
                                        no_reproduction(self.spec_config()) ==> next.occupants()
                                            <= self.occupants(),
                                        no_reproduction(self.spec_config())
                                            && self.predator_free() ==> next.occupants()
                                            == self.occupants(),
                                        next.mated_slots_occupied(self),
                                        self.predator_free() ==> next.mated_parents_stay(self),
                                    decreases REPRODUCE_TRIES - tries,
                                {
                                    let move_to = self.random_adjacent_target(
                                        &mut generator,
                                        x,
                                        y,
                                    );
                                    let cell = self.get(move_to.0, move_to.1).unwrap();
                                    if cell == Cell::Empty {
                                        if chance(&mut generator, EVEN_CHANCE) {
                                            next.set(move_to.0, move_to.1, Cell::Female);
                                        } else {
                                            next.set(move_to.0, move_to.1, Cell::Male);
                                        }
                                        break;
                                    }
                                    tries += 1;
                                }
                            }
                        } else {
                            let move_to = self.random_adjacent_target(&mut generator, x, y);
                            let cell = self.get(move_to.0, move_to.1).unwrap();
                            if cell == Cell::Empty {
                                let ghost next0 = next;
                                next.move_cell(this_cell, (x, y), move_to);
                                proof {
                                    assert(!(move_to.0 == x && move_to.1 == y));
                                    if move_blocked(
                                        this_cell,
                                        next0.spec_get(move_to.0 as int, move_to.1 as int),
                                    ) {
                                        lemma_same_board_occupants(&next, &next0);
                                    } else {
                                        lemma_move_occupants(
                                            &next0,
                                            &next,
                                            this_cell,
                                            (x, y),
                                            move_to,
                                        );
                                    }
                                }
                            }
                        }
                    },
                    Cell::Empty => {},
                }
                x += 1;
            }
            y += 1;
        }
        next
    }

    /// Read-only access to the whole board, row-major, for rendering.
    pub fn get_cells(&self) -> (r: &Vec<Vec<Cell>>)
        ensures
            self.wf() ==> {
                &&& r@.len() == self.spec_size()
                &&& forall|y: int|
                    0 <= y < r@.len() ==> (#[trigger] r@[y])@.len() == self.spec_size()
                &&& forall|x: int, y: int|
                    self.in_bounds(x, y) ==> #[trigger] r@[y]@[x] == self.cell_at(x, y)
            },
    {
        &self.cells
    }
}

/// Number of occupants (non-Empty values) in one row of cells.
pub closed spec fn row_occupants(row: Seq<Cell>) -> int
    decreases row.len(),
{
    if row.len() <= 0 {
        0
    } else {
        row_occupants(row.drop_last()) + (if row.last().is_occupant() {
            1int
        } else {
            0int
        })
    }
}

/// Number of occupants on a whole board, row by row.
pub closed spec fn board_occupants(rows: Seq<Seq<Cell>>) -> int
    decreases rows.len(),
{
    if rows.len() <= 0 {
        0
    } else {
        board_occupants(rows.drop_last()) + row_occupants(rows.last())
    }
}

/// Updating one slot of a row changes its occupant count exactly by the
/// difference between the new value and the old one.
proof fn lemma_row_occupants_update(row: Seq<Cell>, i: int, c: Cell)
    requires
        0 <= i < row.len(),
    ensures
        row_occupants(row.update(i, c)) == row_occupants(row) - (if row[i].is_occupant() {
            1int
        } else {
            0int
        }) + (if c.is_occupant() {
            1int
        } else {
            0int
        }),
    decreases row.len(),
{
    let urow = row.update(i, c);
    if i == row.len() - 1 {
        assert(urow.drop_last() =~= row.drop_last());
        assert(urow.last() == c);
    } else {
        lemma_row_occupants_update(row.drop_last(), i, c);
        assert(urow.drop_last() =~= row.drop_last().update(i, c));
        assert(urow.last() == row.last());
    }
}

/// Replacing one row of a board changes its occupant count exactly by the
/// difference between the new row and the old one.
proof fn lemma_board_occupants_update(rows: Seq<Seq<Cell>>, j: int, newrow: Seq<Cell>)
    requires
        0 <= j < rows.len(),
    ensures
        board_occupants(rows.update(j, newrow)) == board_occupants(rows) - row_occupants(rows[j])
            + row_occupants(newrow),
    decreases rows.len(),
{
    let urows = rows.update(j, newrow);
    if j == rows.len() - 1 {
        assert(urows.drop_last() =~= rows.drop_last());
        assert(urows.last() == newrow);
    } else {
        lemma_board_occupants_update(rows.drop_last(), j, newrow);
        assert(urows.drop_last() =~= rows.drop_last().update(j, newrow));
        assert(urows.last() == rows.last());
    }
}

/// In a neighbour list as `get_neighbours` returns it (complete and in
/// row-major order), the first entry holding `target` sits at the
/// row-major-least neighbour coordinate holding it: no neighbour scanned
/// before that coordinate holds `target`.
#[verifier::rlimit(100)]
proof fn lemma_first_match_is_least(
    g: &Grid,
    x: int,
    y: int,
    ns: Seq<((usize, usize), Cell)>,
    target: Cell,
    c: (usize, usize),
)
    requires
        forall|i: int|
            0 <= i < ns.len() ==> {
                &&& g.is_neighbour(x, y, (#[trigger] ns[i]).0.0 as int, ns[i].0.1 as int)
                &&& ns[i].1 == g.cell_at(ns[i].0.0 as int, ns[i].0.1 as int)
            },
        forall|cx: int, cy: int|
            #[trigger] g.is_neighbour(x, y, cx, cy) ==> exists|i: int|
                0 <= i < ns.len() && (#[trigger] ns[i]).0.0 == cx && ns[i].0.1 == cy,
        forall|i: int, j: int|
            0 <= i < j < ns.len() ==> row_major_before((#[trigger] ns[i]).0, (#[trigger] ns[j]).0),
        exists|i: int|
            0 <= i < ns.len() && (#[trigger] ns[i]).1 == target && ns[i].0 == c && (forall|j: int|
                0 <= j < i ==> (#[trigger] ns[j]).1 != target),
    ensures
        forall|cx: int, cy: int|
            g.is_neighbour(x, y, cx, cy) && scanned_before(cx, cy, c.0 as int, c.1 as int)
                ==> #[trigger] g.cell_at(cx, cy) != target,
{
    let i = choose|i: int|
        0 <= i < ns.len() && (#[trigger] ns[i]).1 == target && ns[i].0 == c && (forall|j: int|
            0 <= j < i ==> (#[trigger] ns[j]).1 != target);
    assert forall|cx: int, cy: int|
        g.is_neighbour(x, y, cx, cy) && scanned_before(
            cx,
            cy,
            c.0 as int,
            c.1 as int,
        ) implies #[trigger] g.cell_at(cx, cy) != target by {
        let j = choose|j: int| 0 <= j < ns.len() && (#[trigger] ns[j]).0.0 == cx && ns[j].0.1 == cy;
        if j > i {
            assert(row_major_before(ns[i].0, ns[j].0));
            assert(false);
        }
        assert(j < i);
        assert(ns[j].1 != target);
        assert(g.cell_at(cx, cy) == ns[j].1);
    };
}

/// How the closed coordinate predicate reads over the grid dimension, for
/// callers outside this module: a coordinate is on the board exactly when
/// both components lie below the dimension, so the predicate transfers
/// between any two grids of equal dimension.
pub broadcast proof fn lemma_in_bounds_iff(g: &Grid, x: int, y: int)
    ensures
        #[trigger] g.in_bounds(x, y) <==> (0 <= x < g.spec_size() && 0 <= y < g.spec_size()),
{
}

/// For a coordinate of a well-formed grid, the neighbour count is exactly 8
/// in the interior, exactly 3 in a corner, and exactly 5 on a non-corner
/// edge.
pub proof fn lemma_neighbour_counts(g: &Grid, x: int, y: int)
    requires
        g.wf(),
        g.in_bounds(x, y),
    ensures
        1 <= x <= g.spec_size() - 2 && 1 <= y <= g.spec_size() - 2 ==> g.neighbour_count(x, y)
            == 8,
        g.spec_size() >= 2 && (x == 0 || x == g.spec_size() - 1) && (y == 0 || y == g.spec_size()
            - 1) ==> g.neighbour_count(x, y) == 3,
        g.spec_size() >= 2 && (x == 0 || x == g.spec_size() - 1) && 1 <= y <= g.spec_size() - 2
            ==> g.neighbour_count(x, y) == 5,
        g.spec_size() >= 2 && (y == 0 || y == g.spec_size() - 1) && 1 <= x <= g.spec_size() - 2
            ==> g.neighbour_count(x, y) == 5,
{
    let n = g.spec_size();
    let wx = block_width(x, n);
    let wy = block_width(y, n);
    if 1 <= x <= n - 2 {
        assert(wx == 3);
    }
    if n >= 2 && (x == 0 || x == n - 1) {
        assert(wx == 2);
    }
    if 1 <= y <= n - 2 {
        assert(wy == 3);
    }
    if n >= 2 && (y == 0 || y == n - 1) {
        assert(wy == 2);
    }
    assert(wx == 2 && wy == 2 ==> wx * wy == 4);
    assert(wx == 2 && wy == 3 ==> wx * wy == 6);
    assert(wx == 3 && wy == 2 ==> wx * wy == 6);
    assert(wx == 3 && wy == 3 ==> wx * wy == 9);
}

/// A row of nothing but Empty holds no occupant.
proof fn lemma_row_occupants_zero(row: Seq<Cell>)
    requires
        forall|i: int| 0 <= i < row.len() ==> #[trigger] row[i] == Cell::Empty,
    ensures
        row_occupants(row) == 0,
    decreases row.len(),
{
    if row.len() > 0 {
        lemma_row_occupants_zero(row.drop_last());
    }
}

/// How a well-formed grid's row sequence reflects its slots.
proof fn lemma_board_facts(g: &Grid)
    requires
        g.wf(),
    ensures
        g.board().len() == g.spec_size(),
        forall|j: int|
            0 <= j < g.board().len() ==> (#[trigger] g.board()[j]).len() == g.spec_size(),
        forall|i: int, j: int|
            g.in_bounds(i, j) ==> #[trigger] g.board()[j][i] == g.cell_at(i, j),
{
    assert(g.board().len() == g.cells@.len());
    assert forall|j: int|
        0 <= j < g.board().len() implies (#[trigger] g.board()[j]).len() == g.spec_size() by {
        assert(g.board()[j] == g.cells@[j]@);
    }
    assert forall|i: int, j: int|
        g.in_bounds(i, j) implies #[trigger] g.board()[j][i] == g.cell_at(i, j) by {
        assert(g.board()[j] == g.cells@[j]@);
    }
}

/// A grid of nothing but Empty slots holds no occupant at all.
pub proof fn lemma_all_empty_occupants(g: &Grid)
    requires
        g.wf(),
        g.all_empty(),
    ensures
        g.occupants() == 0,
{
    lemma_board_facts(g);
    lemma_board_occupants_zero(g.board());
}

/// A board of rows of nothing but Empty holds no occupant.
proof fn lemma_board_occupants_zero(rows: Seq<Seq<Cell>>)
    requires
        forall|j: int, i: int|
            0 <= j < rows.len() && 0 <= i < rows[j].len() ==> #[trigger] rows[j][i] == Cell::Empty,
    ensures
        board_occupants(rows) == 0,
    decreases rows.len(),
{
    if rows.len() > 0 {
        lemma_board_occupants_zero(rows.drop_last());
        lemma_row_occupants_zero(rows.last());
    }
}

/// Two well-formed grids holding the same board hold the same number of
/// occupants.
pub proof fn lemma_same_board_occupants(a: &Grid, b: &Grid)
    requires
        a.wf(),
        b.wf(),
        a.same_board(b),
    ensures
        a.occupants() == b.occupants(),
{
    lemma_board_facts(a);
    lemma_board_facts(b);
    assert forall|j: int| 0 <= j < a.board().len() implies a.board()[j] =~= b.board()[j] by {
        assert forall|i: int|
            0 <= i < a.board()[j].len() implies a.board()[j][i] == b.board()[j][i] by {
            assert(a.cell_at(i, j) == b.cell_at(i, j));
        }
    }
    assert(a.board() =~~= b.board());
}

/// Occupancy accounting for one slot write: overwriting the slot at `(x, y)`
/// with `c` changes the occupant total exactly by the difference between the
/// new value and the displaced one, and touches no other slot's share.
pub proof fn lemma_write_occupants(prev: &Grid, next: &Grid, x: int, y: int, c: Cell)
    requires
        prev.wf(),
        next.wf(),
        next.spec_size() == prev.spec_size(),
        prev.in_bounds(x, y),
        next.cell_at(x, y) == c,
        forall|cx: int, cy: int|
            prev.in_bounds(cx, cy) && !(cx == x && cy == y) ==> #[trigger] next.cell_at(cx, cy)
                == prev.cell_at(cx, cy),
    ensures
        next.occupants() == prev.occupants() - (if prev.cell_at(x, y).is_occupant() {
            1int
        } else {
            0int
        }) + (if c.is_occupant() {
            1int
        } else {
            0int
        }),
{
    lemma_board_facts(prev);
    lemma_board_facts(next);
    let b = prev.board();
    let urows = b.update(y, b[y].update(x, c));
    assert forall|j: int| 0 <= j < urows.len() implies next.board()[j] =~= urows[j] by {
        assert forall|i: int|
            0 <= i < urows[j].len() implies next.board()[j][i] == urows[j][i] by {
            assert(next.board()[j][i] == next.cell_at(i, j));
            assert(b[j][i] == prev.cell_at(i, j));
        }
    }
    assert(next.board() =~~= urows);
    lemma_board_occupants_update(b, y, b[y].update(x, c));
    lemma_row_occupants_update(b[y], x, c);
}

/// Occupancy accounting for one relocation of `cell` from `from` to a
/// distinct `to`: whatever the two slots held is consumed and the mover is
/// written; in particular, when the source still held the mover, the total
/// drops by one exactly when the destination held an occupant (a predator
/// consuming its prey) and is conserved otherwise.
pub proof fn lemma_move_occupants(
    prev: &Grid,
    next: &Grid,
    cell: Cell,
    from: (usize, usize),
    to: (usize, usize),
)
    requires
        prev.wf(),
        next.wf(),
        next.spec_size() == prev.spec_size(),
        prev.in_bounds(from.0 as int, from.1 as int),
        prev.in_bounds(to.0 as int, to.1 as int),
        !(from.0 == to.0 && from.1 == to.1),
        next.is_move_of(prev, cell, from, to),
    ensures
        next.occupants() == prev.occupants() - (if prev.cell_at(
            from.0 as int,
            from.1 as int,
        ).is_occupant() {
            1int
        } else {
            0int
        }) - (if prev.cell_at(to.0 as int, to.1 as int).is_occupant() {
            1int
        } else {
            0int
        }) + (if cell.is_occupant() {
            1int
        } else {
            0int
        }),
{
    lemma_board_facts(prev);
    lemma_board_facts(next);
    let b = prev.board();
    let fx = from.0 as int;
    let fy = from.1 as int;
    let tx = to.0 as int;
    let ty = to.1 as int;
    if fy == ty {
        let r1 = b[fy].update(fx, Cell::Empty).update(tx, cell);
        let urows = b.update(fy, r1);
        lemma_row_occupants_update(b[fy], fx, Cell::Empty);
        lemma_row_occupants_update(b[fy].update(fx, Cell::Empty), tx, cell);
        lemma_board_occupants_update(b, fy, r1);
        assert forall|j: int| 0 <= j < urows.len() implies next.board()[j] =~= urows[j] by {
            assert forall|i: int|
                0 <= i < urows[j].len() implies next.board()[j][i] == urows[j][i] by {
                assert(next.board()[j][i] == next.cell_at(i, j));
                assert(b[j][i] == prev.cell_at(i, j));
            }
        }
        assert(next.board() =~~= urows);
    } else {
        let bu = b.update(fy, b[fy].update(fx, Cell::Empty));
        let bu2 = bu.update(ty, bu[ty].update(tx, cell));
        lemma_row_occupants_update(b[fy], fx, Cell::Empty);
        lemma_board_occupants_update(b, fy, b[fy].update(fx, Cell::Empty));
        assert(bu[ty] == b[ty]);
        lemma_row_occupants_update(b[ty], tx, cell);
        lemma_board_occupants_update(bu, ty, bu[ty].update(tx, cell));
        assert forall|j: int| 0 <= j < bu2.len() implies next.board()[j] =~= bu2[j] by {
            assert forall|i: int|
                0 <= i < bu2[j].len() implies next.board()[j][i] == bu2[j][i] by {
                assert(next.board()[j][i] == next.cell_at(i, j));
                assert(b[j][i] == prev.cell_at(i, j));
            }
        }
        assert(next.board() =~~= bu2);
    }
}

} // verus!
