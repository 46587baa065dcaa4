//! The mathematical model of a simulation, and what one tick does to it.
//!
//! A tick is two passes. The first ages every cell and settles the energy
//! economy; it is stated cell by cell and organism by organism, for it does
//! not depend on the order in which the cells are visited. The second lets
//! cells grow, die and germinate; growth into a cell is seen by the cells
//! visited after it, so this pass is stated as the scan itself: column by
//! column, each column from its first cell to its last.

use crate::cell::{energy_loss, wrap32, Cell, SPORE_RIPING_AGE};
use crate::genome::{GenomeView, SPORE_GENE};
use crate::torus::{neighbour, turned};
use vstd::prelude::*;

verus! {

/// A simulation as a value: the light level, the grid as a sequence of
/// columns, and for each organism, by its index, its energy, its genome and
/// the organism whose spore it germinated from (none if it was placed).
pub struct World {
    pub light: i32,
    pub cells: Seq<Seq<Cell>>,
    pub energies: Seq<i32>,
    pub genomes: Seq<GenomeView>,
    pub parents: Seq<Option<usize>>,
}

impl World {
    /// Number of columns.
    pub open spec fn size_x(self) -> int {
        self.cells.len() as int
    }

    /// Number of cells in a column.
    pub open spec fn size_y(self) -> int {
        self.cells[0].len() as int
    }

    /// `(x, y)` is a position of the grid.
    pub open spec fn within(self, x: int, y: int) -> bool {
        0 <= x < self.size_x() && 0 <= y < self.size_y()
    }

    /// The genome of organism `o` is one that its parent's genome begets, if
    /// it has a parent.
    pub open spec fn descends(self, o: int) -> bool {
        self.parents[o] matches Some(parent) ==> parent < o && self.genomes[parent as int].begets(
            self.genomes[o],
        )
    }

    /// The grid is a rectangle of at least 2 by 2 cells, every occupied cell
    /// names an organism, every genome is valid, and every organism that
    /// germinated from a spore descends from the spore's organism.
    pub open spec fn wf(self) -> bool {
        &&& self.size_x() >= 2
        &&& self.size_y() >= 2
        &&& forall|x: int| 0 <= x < self.size_x() ==> (#[trigger] self.cells[x]).len() == self.size_y()
        &&& self.genomes.len() <= usize::MAX
        &&& self.energies.len() == self.genomes.len()
        &&& self.parents.len() == self.genomes.len()
        &&& forall|x: int, y: int|
            self.within(x, y) ==> (#[trigger] self.cells[x][y]).valid(self.genomes.len() as int)
        &&& forall|o: int| 0 <= o < self.genomes.len() ==> (#[trigger] self.genomes[o]).valid()
        &&& forall|o: int| 0 <= o < self.genomes.len() ==> #[trigger] self.descends(o)
    }

    /// The world of the given size and light with no organism in it.
    pub open spec fn blank(sx: int, sy: int, light: i32) -> World {
        World {
            light,
            cells: Seq::new(sx as nat, |x: int| Seq::new(sy as nat, |y: int| Cell::Empty)),
            energies: Seq::empty(),
            genomes: Seq::empty(),
            parents: Seq::empty(),
        }
    }

    /// Every cell is empty.
    pub open spec fn all_empty(self) -> bool {
        forall|x: int, y: int| self.within(x, y) ==> (#[trigger] self.cells[x][y]) is Empty
    }

    /// This world with the cell at `(x, y)` replaced.
    pub open spec fn with_cell(self, x: int, y: int, cell: Cell) -> World {
        World { cells: self.cells.update(x, self.cells[x].update(y, cell)), ..self }
    }

    /// The organism that owns the neighbour of `(x, y)` in direction `d`.
    pub open spec fn bordering(self, x: int, y: int, d: int) -> Option<usize> {
        let to = neighbour(x, y, d, self.size_x(), self.size_y());
        self.cells[to.0][to.1].owner()
    }

    /// Exactly one distinct organism borders `(x, y)`, and it is `o`.
    pub open spec fn only_neighbour(self, x: int, y: int, o: usize) -> bool {
        &&& exists|d: int| 0 <= d < 4 && #[trigger] self.bordering(x, y, d) == Some(o)
        &&& forall|d: int|
            0 <= d < 4 && (#[trigger] self.bordering(x, y, d)) is Some ==> self.bordering(x, y, d)
                == Some(o)
    }

    /// The cell at `(x, y)` is empty and `o` is the one organism that borders
    /// it: the cell lights `o`.
    pub open spec fn lights(self, x: int, y: int, o: usize) -> bool {
        self.cells[x][y] is Empty && self.only_neighbour(x, y, o)
    }

    /// This world after the light of the position `(x, y)` has been handed
    /// out: the one organism that borders it, if there is exactly one, has
    /// gained `light`.
    pub open spec fn shone(self, x: int, y: int) -> World {
        World {
            energies: Seq::new(
                self.energies.len(),
                |o: int|
                    if self.only_neighbour(x, y, o as usize) {
                        wrap32(self.energies[o] + self.light)
                    } else {
                        self.energies[o]
                    },
            ),
            ..self
        }
    }

    /// What the cell at `(x, y)` adds to the energy of organism `o` in the
    /// first pass: an empty cell that only `o` borders adds the light, a cell
    /// of `o` takes its cost, any other cell adds nothing.
    pub open spec fn cell_delta(self, x: int, y: int, o: usize) -> int {
        let cell = self.cells[x][y];
        if cell is Empty {
            if self.only_neighbour(x, y, o) {
                self.light as int
            } else {
                0
            }
        } else if cell.owner() == Some(o) {
            -energy_loss(cell.age())
        } else {
            0
        }
    }

    /// Sum of `cell_delta` over the first `n` cells of column `x`.
    pub open spec fn column_delta(self, o: usize, x: int, n: int) -> int
        decreases n,
    {
        if n <= 0 {
            0
        } else {
            self.column_delta(o, x, n - 1) + self.cell_delta(x, n - 1, o)
        }
    }

    /// Sum of `cell_delta` over the first `m` columns.
    pub open spec fn columns_delta(self, o: usize, m: int) -> int
        decreases m,
    {
        if m <= 0 {
            0
        } else {
            self.columns_delta(o, m - 1) + self.column_delta(o, m - 1, self.size_y())
        }
    }

    /// What the first pass adds to the energy of organism `o`, before wrapping.
    pub open spec fn delta(self, o: usize) -> int {
        self.columns_delta(o, self.size_x())
    }

    /// This world after the cell at `(x, y)` has gone through the first pass.
    pub open spec fn aged_at(self, x: int, y: int) -> World {
        World {
            cells: self.cells.update(x, self.cells[x].update(y, self.cells[x][y].aged())),
            energies: Seq::new(
                self.energies.len(),
                |o: int| wrap32(self.energies[o] + self.cell_delta(x, y, o as usize)),
            ),
            ..self
        }
    }

    /// This world after the first pass: every cell is one tick older and every
    /// organism has gained its light and paid for its cells.
    pub open spec fn after_aging(self) -> World {
        World {
            cells: Seq::new(
                self.size_x() as nat,
                |x: int| Seq::new(self.size_y() as nat, |y: int| self.cells[x][y].aged()),
            ),
            energies: Seq::new(
                self.energies.len(),
                |o: int| wrap32(self.energies[o] + self.delta(o as usize)),
            ),
            ..self
        }
    }

    /// This world with a new organism of genome `genome` and no energy, whose
    /// first tissue stands at `(x, y)` and faces `direction`.
    pub open spec fn founded(
        self,
        x: int,
        y: int,
        direction: u32,
        genome: GenomeView,
        parent: Option<usize>,
    ) -> World {
        World {
            light: self.light,
            cells: self.cells.update(
                x,
                self.cells[x].update(
                    y,
                    Cell::Tissue {
                        organism: self.genomes.len() as usize,
                        age: 0,
                        active_gene: 0,
                        direction,
                    },
                ),
            ),
            energies: self.energies.push(0),
            genomes: self.genomes.push(genome),
            parents: self.parents.push(parent),
        }
    }

    /// This world after the tissue at `(x, y)` has tried to grow in the
    /// relative direction `rel`. It grows only into an empty cell, and leaves
    /// there what its active gene says: nothing, a spore, or tissue with the
    /// named gene active. The new cell faces the direction it was grown in.
    pub open spec fn sprouted(self, x: int, y: int, rel: int) -> World {
        match self.cells[x][y] {
            Cell::Tissue { organism, age, active_gene, direction } => {
                let gene = self.genomes[organism as int].instruction(active_gene as int, rel);
                let d = turned(direction as int, rel);
                let to = neighbour(x, y, d, self.size_x(), self.size_y());
                if gene < SPORE_GENE || !(self.cells[to.0][to.1] is Empty) {
                    self
                } else if gene == SPORE_GENE {
                    self.with_cell(
                        to.0,
                        to.1,
                        Cell::Spore { organism, age: 0, direction: d as u32 },
                    )
                } else {
                    self.with_cell(
                        to.0,
                        to.1,
                        Cell::Tissue {
                            organism,
                            age: 0,
                            active_gene: gene as u32,
                            direction: d as u32,
                        },
                    )
                }
            },
            _ => self,
        }
    }

    /// This world after the cell at `(x, y)` has gone through the second
    /// pass. A spore or tissue whose organism has no energy left goes: a ripe
    /// spore germinates into a new organism, whose genome is the entry of
    /// `pool` under the new organism's index; any other such cell dies.
    /// Tissue with energy that is older than 0 tries to grow in its three
    /// relative directions in turn. Nothing else changes.
    pub open spec fn grown_at(self, x: int, y: int, pool: Seq<GenomeView>) -> World {
        match self.cells[x][y] {
            Cell::Empty => self,
            Cell::Spore { organism, age, direction } => {
                if self.energies[organism as int] > 0 {
                    self
                } else if age >= SPORE_RIPING_AGE {
                    self.founded(
                        x,
                        y,
                        direction,
                        pool[self.genomes.len() as int],
                        Some(organism),
                    )
                } else {
                    self.with_cell(x, y, Cell::Empty)
                }
            },
            Cell::Tissue { organism, age, .. } => {
                if self.energies[organism as int] <= 0 {
                    self.with_cell(x, y, Cell::Empty)
                } else if age > 0 {
                    self.sprouted(x, y, 0).sprouted(x, y, 1).sprouted(x, y, 2)
                } else {
                    self
                }
            },
        }
    }

    /// This world after the first `n` cells of column `x` have gone through
    /// the second pass, in order.
    pub open spec fn grown_column(self, pool: Seq<GenomeView>, x: int, n: int) -> World
        decreases n,
    {
        if n <= 0 {
            self
        } else {
            self.grown_column(pool, x, n - 1).grown_at(x, n - 1, pool)
        }
    }

    /// This world after the first `m` columns of `sy` cells have gone through
    /// the second pass, in order.
    pub open spec fn grown_columns(self, pool: Seq<GenomeView>, m: int, sy: int) -> World
        decreases m,
    {
        if m <= 0 {
            self
        } else {
            self.grown_columns(pool, m - 1, sy).grown_column(pool, m - 1, sy)
        }
    }

    /// This world after the second pass.
    pub open spec fn after_growth(self, pool: Seq<GenomeView>) -> World {
        self.grown_columns(pool, self.size_x(), self.size_y())
    }

    /// This world one tick later, where the organism founded under index `i`
    /// has the genome `pool[i]`.
    pub open spec fn tick(self, pool: Seq<GenomeView>) -> World {
        self.after_aging().after_growth(pool)
    }

    /// The color of the cell at `(x, y)`.
    pub open spec fn color_at(self, x: int, y: int) -> u32 {
        let cell = self.cells[x][y];
        match cell.owner() {
            Some(o) => cell.shown(self.genomes[o as int].color),
            None => cell.shown(0),
        }
    }

    /// The color of the pixel `(px, py)` of a window panned by `pan` pixels
    /// at `zoom` pixels to a cell: that of the cell under it, on a grid that
    /// repeats in both directions.
    pub open spec fn pixel(self, px: int, py: int, pan: (int, int), zoom: int) -> u32 {
        self.color_at(((px + pan.0) / zoom) % self.size_x(), ((py + pan.1) / zoom) % self.size_y())
    }

    /// The picture of a window of `w` by `h` pixels, row by row.
    pub open spec fn rendered(self, w: int, h: int, pan: (int, int), zoom: int) -> Seq<u32> {
        Seq::new((w * h) as nat, |i: int| self.pixel(i % w, i / w, pan, zoom))
    }
}

/// Well-formedness does not depend on the energies.
pub proof fn lemma_wf_energies(w: World, energies: Seq<i32>)
    requires
        w.wf(),
        energies.len() == w.energies.len(),
    ensures
        (World { energies, ..w }).wf(),
{
    let v = World { energies, ..w };
    assert forall|o: int| 0 <= o < v.genomes.len() implies #[trigger] v.descends(o) by {
        assert(w.descends(o));
    }
}

/// Well-formedness does not depend on the light level.
pub proof fn lemma_wf_light(w: World, light: i32)
    requires
        w.wf(),
    ensures
        (World { light, ..w }).wf(),
{
    let v = World { light, ..w };
    assert forall|o: int| 0 <= o < v.genomes.len() implies #[trigger] v.descends(o) by {
        assert(w.descends(o));
    }
}

/// Replacing a cell by a valid one keeps a world well-formed.
pub proof fn lemma_wf_with_cell(w: World, x: int, y: int, cell: Cell)
    requires
        w.wf(),
        w.within(x, y),
        cell.valid(w.genomes.len() as int),
    ensures
        w.with_cell(x, y, cell).wf(),
        w.with_cell(x, y, cell).size_x() == w.size_x(),
        w.with_cell(x, y, cell).size_y() == w.size_y(),
{
    let v = w.with_cell(x, y, cell);
    assert(w.cells[0].len() == w.size_y());
    assert forall|a: int| 0 <= a < v.size_x() implies (#[trigger] v.cells[a]).len() == v.size_y() by {
        assert(w.cells[a].len() == w.size_y());
    }
    assert forall|a: int, b: int| v.within(a, b) implies (#[trigger] v.cells[a][b]).valid(
        v.genomes.len() as int,
    ) by {
        assert(w.cells[a].len() == w.size_y());
        assert(w.cells[a][b].valid(w.genomes.len() as int));
    }
    assert forall|o: int| 0 <= o < v.genomes.len() implies #[trigger] v.descends(o) by {
        assert(w.descends(o));
    }
}

} // verus!
