//! The simulation: a grid of cells, the organisms that own them, and the
//! operations that the surrounding application calls.

use crate::bordering::{
    empty_list, held, lemma_lists_one_more, lemma_sole_borderer, list_get, list_holds, list_len,
    list_push, lists_borderers,
};
use crate::cell::{
    energy_cost, is_empty, owner_of, wrap32, Cell, BACKGROUND_COLOR, SPORE_RIPING_AGE,
};
use crate::genome::{Genome, SPORE_GENE};
use crate::scan::{
    aging, extends, growing, lemma_aging_begins, lemma_aging_ends, lemma_aging_next_column,
    lemma_aging_step, lemma_growing_begins, lemma_growing_ends, lemma_growing_next_column,
    lemma_growing_step,
};
use crate::torus::{step, turn};
use crate::world::{lemma_wf_energies, lemma_wf_light, lemma_wf_with_cell, World};
use vstd::arithmetic::div_mod::{lemma_fundamental_div_mod_converse, lemma_mod_pos_bound};
use vstd::prelude::*;

verus! {

/// Full simulation state. Organisms are kept by index: `energies` and
/// `genomes` hold the energy counter and the genome of each, and an occupied
/// cell names its organism by that index. An organism keeps its index after
/// its last cell is gone; clearing the grid forgets all organisms.
pub struct Simulation {
    /// Energy that an empty cell hands to the one organism that borders it.
    pub energy_light: i32,
    grid: Vec<Vec<Cell>>,
    size_x: usize,
    size_y: usize,
    energies: Vec<i32>,
    genomes: Vec<Genome>,
    /// For each organism, the organism whose spore it germinated from.
    parents: Ghost<Seq<Option<usize>>>,
}

impl View for Simulation {
    type V = World;

    closed spec fn view(&self) -> World {
        World {
            light: self.energy_light,
            cells: Seq::new(self.grid@.len(), |x: int| self.grid@[x]@),
            energies: self.energies@,
            genomes: Seq::new(self.genomes@.len(), |o: int| self.genomes@[o]@),
            parents: self.parents@,
        }
    }
}

impl Simulation {
    /// The state is a well-formed world, and the recorded size is its size.
    pub closed spec fn wf(&self) -> bool {
        &&& self@.wf()
        &&& self.size_x == self@.size_x()
        &&& self.size_y == self@.size_y()
    }

    /// What well-formedness says of the stored grid.
    proof fn lemma_shape(&self)
        requires
            self.wf(),
        ensures
            self.size_x >= 2,
            self.size_y >= 2,
            self.grid@.len() == self.size_x,
            forall|a: int| 0 <= a < self.size_x ==> (#[trigger] self.grid@[a])@.len() == self.size_y,
            self.energies@.len() == self.genomes@.len(),
            forall|a: int, b: int|
                0 <= a < self.size_x && 0 <= b < self.size_y ==> (#[trigger] self.grid@[a]@[b]).valid(
                    self.genomes@.len() as int,
                ),
    {
        assert forall|a: int| 0 <= a < self.size_x implies (#[trigger] self.grid@[a])@.len()
            == self.size_y by {
            assert(self@.cells[a].len() == self@.size_y());
        }
        assert forall|a: int, b: int| 0 <= a < self.size_x && 0 <= b < self.size_y implies (
        #[trigger] self.grid@[a]@[b]).valid(self.genomes@.len() as int) by {
            assert(self@.cells[a][b].valid(self@.genomes.len() as int));
        }
    }

    /// Creates a simulation of `size_x` by `size_y` empty cells.
    pub fn new(size_x: usize, size_y: usize, energy_light: i32) -> (sim: Simulation)
        requires
            size_x >= 2,
            size_y >= 2,
        ensures
            sim.wf(),
            sim@ == World::blank(size_x as int, size_y as int, energy_light),
    {
        let mut grid: Vec<Vec<Cell>> = Vec::new();
        for x in 0..size_x
            invariant
                grid@.len() == x,
                forall|i: int|
                    0 <= i < x ==> (#[trigger] grid@[i])@ == Seq::new(
                        size_y as nat,
                        |y: int| Cell::Empty,
                    ),
        {
            let mut column: Vec<Cell> = Vec::new();
            for y in 0..size_y
                invariant
                    column@.len() == y,
                    forall|j: int| 0 <= j < y ==> #[trigger] column@[j] == Cell::Empty,
            {
                column.push(Cell::Empty);
            }
            assert(column@ =~= Seq::new(size_y as nat, |y: int| Cell::Empty));
            grid.push(column);
        }
        let sim = Simulation {
            energy_light,
            grid,
            size_x,
            size_y,
            energies: Vec::new(),
            genomes: Vec::new(),
            parents: Ghost(Seq::empty()),
        };
        assert(sim@.cells =~= World::blank(size_x as int, size_y as int, energy_light).cells);
        assert(sim@.genomes =~= Seq::empty());
        sim
    }

    /// Number of columns of the grid.
    pub fn size_x(&self) -> (n: usize)
        requires
            self.wf(),
        ensures
            n == self@.size_x(),
    {
        self.size_x
    }

    /// Number of cells in a column of the grid.
    pub fn size_y(&self) -> (n: usize)
        requires
            self.wf(),
        ensures
            n == self@.size_y(),
    {
        self.size_y
    }

    /// Sets the light level, as writing `energy_light` does.
    pub fn set_light(&mut self, light: i32)
        requires
            old(self).wf(),
        ensures
            final(self).wf(),
            final(self)@ == (World { light, ..old(self)@ }),
    {
        proof {
            lemma_wf_light(self@, light);
        }
        self.energy_light = light;
        proof {
            assert(self@.cells =~= old(self)@.cells);
            assert(self@.genomes =~= old(self)@.genomes);
        }
    }

    /// The cell at `(x, y)`.
    pub fn cell(&self, x: usize, y: usize) -> (cell: Cell)
        requires
            self.wf(),
            self@.within(x as int, y as int),
        ensures
            cell == self@.cells[x as int][y as int],
    {
        self.grid[x][y]
    }

    /// Number of organisms founded since the grid was last cleared.
    pub fn organisms(&self) -> (n: usize)
        requires
            self.wf(),
        ensures
            n == self@.genomes.len(),
            n == self@.energies.len(),
    {
        self.genomes.len()
    }

    /// The energy counter of an organism.
    pub fn energy(&self, organism: usize) -> (energy: i32)
        requires
            self.wf(),
            organism < self@.energies.len(),
        ensures
            energy == self@.energies[organism as int],
    {
        self.energies[organism]
    }

    /// The genome of an organism.
    pub fn genome(&self, organism: usize) -> (genome: Genome)
        requires
            self.wf(),
            organism < self@.genomes.len(),
        ensures
            genome@ == self@.genomes[organism as int],
    {
        self.genomes[organism]
    }

    /// Founds an organism of the given genome with no energy and puts its
    /// first tissue at `(x, y)`, whatever stands there.
    fn found(
        &mut self,
        x: usize,
        y: usize,
        direction: u32,
        genome: Genome,
        Ghost(parent): Ghost<Option<usize>>,
    )
        requires
            old(self).wf(),
            old(self)@.within(x as int, y as int),
            direction < 4,
            parent matches Some(p) ==> p < old(self)@.genomes.len() && old(self)@.genomes[p as int].begets(
                genome@,
            ),
        ensures
            final(self).wf(),
            final(self)@ == old(self)@.founded(x as int, y as int, direction, genome@, parent),
            final(self)@.size_x() == old(self)@.size_x(),
            final(self)@.size_y() == old(self)@.size_y(),
    {
        proof {
            use_type_invariant(&genome);
            self.lemma_shape();
        }
        let organism = self.genomes.len();
        self.genomes.push(genome);
        self.energies.push(0);
        self.parents = Ghost(self.parents@.push(parent));
        self.grid[x][y] = Cell::Tissue { organism, age: 0, active_gene: 0, direction };
        proof {
            let before = old(self)@;
            let after = before.founded(x as int, y as int, direction, genome@, parent);
            assert(self@.genomes =~= after.genomes);
            assert(self@.cells =~= after.cells);
            assert(self@ == after);
            assert(self.genomes@.len() == self.genomes.len());
            assert forall|a: int, b: int| self@.within(a, b) implies (#[trigger] self@.cells[a][b]).valid(
                self@.genomes.len() as int,
            ) by {
                if a != x || b != y {
                    assert(self@.cells[a][b] == before.cells[a][b]);
                }
            }
            assert forall|a: int| 0 <= a < self@.size_x() implies (#[trigger] self@.cells[a]).len()
                == self@.size_y() by {
                assert(before.cells[a].len() == before.size_y());
            }
            assert forall|o: int| 0 <= o < self@.genomes.len() implies (
            #[trigger] self@.genomes[o]).valid() by {
                if o < before.genomes.len() {
                    assert(self@.genomes[o] == before.genomes[o]);
                }
            }
            assert forall|o: int| 0 <= o < self@.genomes.len() implies #[trigger] self@.descends(
                o,
            ) by {
                if o < before.genomes.len() {
                    assert(before.descends(o));
                    assert(self@.genomes[o] == before.genomes[o]);
                    assert(self@.parents[o] == before.parents[o]);
                } else {
                    assert(self@.genomes[o] == genome@);
                    assert(self@.parents[o] == parent);
                }
                match self@.parents[o] {
                    Some(p) => {
                        assert(self@.genomes[p as int] == before.genomes[p as int]);
                    },
                    None => {},
                }
            }
        }
    }

    /// Places a new organism of the given genome at `(x, y)` if that cell is
    /// empty, and says whether it did. An occupied cell is left as it is.
    pub fn place(&mut self, x: usize, y: usize, genome: Genome) -> (placed: bool)
        requires
            old(self).wf(),
            old(self)@.within(x as int, y as int),
        ensures
            final(self).wf(),
            placed == (old(self)@.cells[x as int][y as int] is Empty),
            placed ==> final(self)@ == old(self)@.founded(x as int, y as int, 0, genome@, None),
            !placed ==> final(self)@ == old(self)@,
    {
        match self.grid[x][y] {
            Cell::Empty => {
                self.found(x, y, 0, genome, Ghost(None));
                true
            },
            _ => false,
        }
    }

    /// Places a new organism with a freshly drawn genome at `(x, y)` if that
    /// cell is empty, and says whether it did. On an occupied cell nothing is
    /// drawn and nothing changes.
    pub fn generate_mold(&mut self, x: usize, y: usize) -> (placed: bool)
        requires
            old(self).wf(),
            old(self)@.within(x as int, y as int),
        ensures
            final(self).wf(),
            placed == (old(self)@.cells[x as int][y as int] is Empty),
            placed ==> final(self)@.genomes.len() == old(self)@.genomes.len() + 1,
            placed ==> final(self)@ == old(self)@.founded(
                x as int,
                y as int,
                0,
                final(self)@.genomes.last(),
                None,
            ),
            !placed ==> final(self)@ == old(self)@,
    {
        match self.grid[x][y] {
            Cell::Empty => {
                let genome = Genome::new();
                self.found(x, y, 0, genome, Ghost(None));
                true
            },
            _ => false,
        }
    }

    /// Empties every cell and forgets every organism.
    pub fn clear(&mut self)
        requires
            old(self).wf(),
        ensures
            final(self).wf(),
            final(self)@ == World::blank(old(self)@.size_x(), old(self)@.size_y(), old(self)@.light),
    {
        let size_x = self.size_x;
        let size_y = self.size_y;
        proof {
            self.lemma_shape();
        }
        for x in 0..size_x
            invariant
                self.grid@.len() == size_x,
                self.size_x == size_x,
                self.size_y == size_y,
                self.energy_light == old(self).energy_light,
                forall|a: int| 0 <= a < size_x ==> (#[trigger] self.grid@[a])@.len() == size_y,
                forall|a: int, b: int|
                    0 <= a < x && 0 <= b < size_y ==> #[trigger] self.grid@[a]@[b] == Cell::Empty,
        {
            for y in 0..size_y
                invariant
                    0 <= x < size_x,
                    self.grid@.len() == size_x,
                    self.size_x == size_x,
                    self.size_y == size_y,
                    self.energy_light == old(self).energy_light,
                    forall|a: int| 0 <= a < size_x ==> (#[trigger] self.grid@[a])@.len() == size_y,
                    forall|a: int, b: int|
                        0 <= a < x && 0 <= b < size_y ==> #[trigger] self.grid@[a]@[b]
                            == Cell::Empty,
                    forall|b: int| 0 <= b < y ==> #[trigger] self.grid@[x as int]@[b] == Cell::Empty,
            {
                self.grid[x][y] = Cell::Empty;
            }
        }
        self.energies.clear();
        self.genomes.clear();
        self.parents = Ghost(Seq::empty());
        proof {
            let blank = World::blank(old(self)@.size_x(), old(self)@.size_y(), old(self)@.light);
            assert forall|a: int| 0 <= a < self.grid@.len() implies #[trigger] self@.cells[a]
                =~= blank.cells[a] by {
                assert(self.grid@[a]@.len() == size_y);
            }
            assert(self@.cells =~= blank.cells);
            assert(self@.genomes =~= blank.genomes);
            assert(self@.energies =~= blank.energies);
            assert(self@.parents =~= blank.parents);
        }
    }

    /// If exactly one distinct organism borders `(x, y)`, gives it energy
    /// equal to the light level.
    pub fn distribute_energy(&mut self, x: usize, y: usize)
        requires
            old(self).wf(),
            old(self)@.within(x as int, y as int),
        ensures
            final(self).wf(),
            final(self)@ == old(self)@.shone(x as int, y as int),
    {
        proof {
            self.lemma_shape();
        }
        let ghost w = self@;
        let mut found = empty_list();
        for d in 0..4u32
            invariant
                self.wf(),
                *self == *old(self),
                w == self@,
                w.within(x as int, y as int),
                self.grid@.len() == self.size_x,
                forall|a: int| 0 <= a < self.size_x ==> (#[trigger] self.grid@[a])@.len() == self.size_y,
                held(found).len() <= d,
                lists_borderers(w, x as int, y as int, d as int, held(found)),
        {
            let to = step(x, y, d, self.size_x, self.size_y);
            proof {
                lemma_lists_one_more(w, x as int, y as int, d as int, held(found));
            }
            match owner_of(self.grid[to.0][to.1]) {
                Some(organism) => {
                    if !list_holds(&found, organism) {
                        list_push(&mut found, organism);
                    }
                },
                None => {},
            }
        }
        if list_len(&found) == 1 {
            let organism = list_get(&found, 0);
            proof {
                lemma_sole_borderer(w, x as int, y as int, held(found), organism);
                let e = choose|e: int|
                    0 <= e < 4 && #[trigger] w.bordering(x as int, y as int, e) == Some(organism);
                let to = crate::torus::neighbour(x as int, y as int, e, w.size_x(), w.size_y());
                assert(w.cells[to.0][to.1].valid(w.genomes.len() as int));
            }
            let energy = self.energies[organism];
            self.energies[organism] = energy.wrapping_add(self.energy_light);
        }
        proof {
            let lit = w.shone(x as int, y as int);
            assert forall|o: int| 0 <= o < w.energies.len() implies #[trigger] self@.energies[o]
                == lit.energies[o] by {
                lemma_sole_borderer(w, x as int, y as int, held(found), o as usize);
            }
            assert(self@.energies =~= lit.energies);
            assert(self@.cells =~= lit.cells);
            assert(self@.genomes =~= lit.genomes);
            assert(self@ == lit);
            lemma_wf_energies(w, lit.energies);
        }
    }

    /// Takes from an organism what a cell of the given age costs in one tick.
    fn charge(&mut self, organism: usize, age: u32)
        requires
            old(self).wf(),
            organism < old(self)@.energies.len(),
        ensures
            final(self).wf(),
            final(self)@ == (World {
                energies: old(self)@.energies.update(
                    organism as int,
                    wrap32(old(self)@.energies[organism as int] - crate::cell::energy_loss(age)),
                ),
                ..old(self)@
            }),
    {
        let energy = self.energies[organism];
        self.energies[organism] = energy.wrapping_sub(energy_cost(age));
        proof {
            assert(self@.cells =~= old(self)@.cells);
            assert(self@.genomes =~= old(self)@.genomes);
            lemma_wf_energies(old(self)@, self@.energies);
        }
    }

    /// The first pass on one cell: an occupied cell costs its organism
    /// energy and grows one tick older, an empty cell hands out its light.
    fn age_cell(&mut self, x: usize, y: usize)
        requires
            old(self).wf(),
            old(self)@.within(x as int, y as int),
        ensures
            final(self).wf(),
            final(self)@ == old(self)@.aged_at(x as int, y as int),
            final(self)@.size_x() == old(self)@.size_x(),
            final(self)@.size_y() == old(self)@.size_y(),
    {
        proof {
            self.lemma_shape();
        }
        let ghost w = self@;
        let ghost aged = w.aged_at(x as int, y as int);
        match self.grid[x][y] {
            Cell::Empty => {
                self.distribute_energy(x, y);
                proof {
                    assert(self@.energies =~= aged.energies);
                    assert(self@.cells[x as int] =~= aged.cells[x as int]);
                    assert(self@.cells =~= aged.cells);
                }
            },
            Cell::Spore { organism, age, direction } => {
                self.charge(organism, age);
                proof {
                    self.lemma_shape();
                }
                self.grid[x][y] = Cell::Spore { organism, age: age.wrapping_add(1), direction };
                proof {
                    assert(self@.energies =~= aged.energies);
                    assert(self@.cells =~= aged.cells);
                    assert(self@.genomes =~= aged.genomes);
                }
            },
            Cell::Tissue { organism, age, active_gene, direction } => {
                self.charge(organism, age);
                proof {
                    self.lemma_shape();
                }
                self.grid[x][y] = Cell::Tissue {
                    organism,
                    age: age.wrapping_add(1),
                    active_gene,
                    direction,
                };
                proof {
                    assert(self@.energies =~= aged.energies);
                    assert(self@.cells =~= aged.cells);
                    assert(self@.genomes =~= aged.genomes);
                }
            },
        }
        proof {
            assert(self@ == aged);
            lemma_wf_energies(w, aged.energies);
            lemma_wf_with_cell(
                World { energies: aged.energies, ..w },
                x as int,
                y as int,
                w.cells[x as int][y as int].aged(),
            );
        }
    }

    /// The first pass of a tick: every cell ages, every organism pays for
    /// its cells and gains the light of the empty cells that only it borders.
    pub fn age_all(&mut self)
        requires
            old(self).wf(),
        ensures
            final(self).wf(),
            final(self)@ == old(self)@.after_aging(),
            final(self)@.size_x() == old(self)@.size_x(),
            final(self)@.size_y() == old(self)@.size_y(),
            final(self)@.light == old(self)@.light,
    {
        let size_x = self.size_x;
        let size_y = self.size_y;
        let ghost start = self@;
        proof {
            lemma_aging_begins(start);
        }
        for x in 0..size_x
            invariant
                self.wf(),
                start.wf(),
                size_x == start.size_x(),
                size_y == start.size_y(),
                self@.size_x() == size_x,
                self@.size_y() == size_y,
                aging(start, self@, x as int, 0),
        {
            for y in 0..size_y
                invariant
                    self.wf(),
                    start.wf(),
                    x < size_x,
                    size_x == start.size_x(),
                    size_y == start.size_y(),
                    self@.size_x() == size_x,
                    self@.size_y() == size_y,
                    aging(start, self@, x as int, y as int),
            {
                proof {
                    lemma_aging_step(start, self@, x as int, y as int);
                }
                self.age_cell(x, y);
            }
            proof {
                lemma_aging_next_column(start, self@, x as int);
            }
        }
        proof {
            lemma_aging_ends(start, self@);
        }
    }

    /// Replaces the cell at `(x, y)`.
    fn set_cell(&mut self, x: usize, y: usize, cell: Cell)
        requires
            old(self).wf(),
            old(self)@.within(x as int, y as int),
            cell.valid(old(self)@.genomes.len() as int),
        ensures
            final(self).wf(),
            final(self)@ == old(self)@.with_cell(x as int, y as int, cell),
            final(self)@.size_x() == old(self)@.size_x(),
            final(self)@.size_y() == old(self)@.size_y(),
    {
        proof {
            self.lemma_shape();
            lemma_wf_with_cell(self@, x as int, y as int, cell);
        }
        self.grid[x][y] = cell;
        proof {
            let after = old(self)@.with_cell(x as int, y as int, cell);
            assert(self@.cells =~= after.cells);
            assert(self@.genomes =~= after.genomes);
        }
    }

    /// The tissue at `(x, y)` tries to grow in the relative direction `rel`.
    fn sprout(&mut self, x: usize, y: usize, rel: u32)
        requires
            old(self).wf(),
            old(self)@.within(x as int, y as int),
            rel < 3,
        ensures
            final(self).wf(),
            final(self)@ == old(self)@.sprouted(x as int, y as int, rel as int),
            final(self)@.size_x() == old(self)@.size_x(),
            final(self)@.size_y() == old(self)@.size_y(),
            final(self)@.light == old(self)@.light,
            final(self)@.genomes == old(self)@.genomes,
    {
        proof {
            self.lemma_shape();
        }
        match self.grid[x][y] {
            Cell::Tissue { organism, age, active_gene, direction } => {
                let gene = self.genomes[organism].instruction(active_gene as usize, rel as usize);
                if gene >= SPORE_GENE {
                    let d = turn(direction, rel);
                    let to = step(x, y, d, self.size_x, self.size_y);
                    if is_empty(self.grid[to.0][to.1]) {
                        if gene == SPORE_GENE {
                            self.set_cell(to.0, to.1, Cell::Spore { organism, age: 0, direction: d });
                        } else {
                            self.set_cell(
                                to.0,
                                to.1,
                                Cell::Tissue {
                                    organism,
                                    age: 0,
                                    active_gene: gene as u32,
                                    direction: d,
                                },
                            );
                        }
                    }
                }
            },
            _ => {},
        }
    }

    /// The second pass on one cell: a cell whose organism has no energy left
    /// dies, or germinates if it is a ripe spore; tissue with energy that is
    /// older than 0 grows. The genome of a germinating organism is drawn by
    /// `Genome::make_mutation` from that of the spore.
    fn grow_cell(&mut self, x: usize, y: usize)
        requires
            old(self).wf(),
            old(self)@.within(x as int, y as int),
        ensures
            final(self).wf(),
            extends(final(self)@.genomes, old(self)@.genomes),
            final(self)@ == old(self)@.grown_at(x as int, y as int, final(self)@.genomes),
            final(self)@.size_x() == old(self)@.size_x(),
            final(self)@.size_y() == old(self)@.size_y(),
            final(self)@.light == old(self)@.light,
    {
        proof {
            self.lemma_shape();
        }
        match self.grid[x][y] {
            Cell::Empty => {},
            Cell::Spore { organism, age, direction } => {
                if self.energies[organism] <= 0 {
                    if age >= SPORE_RIPING_AGE {
                        let child = self.genomes[organism].make_mutation();
                        self.found(x, y, direction, child, Ghost(Some(organism)));
                    } else {
                        self.set_cell(x, y, Cell::Empty);
                    }
                }
            },
            Cell::Tissue { organism, age, .. } => {
                if self.energies[organism] <= 0 {
                    self.set_cell(x, y, Cell::Empty);
                } else if age > 0 {
                    self.sprout(x, y, 0);
                    self.sprout(x, y, 1);
                    self.sprout(x, y, 2);
                }
            },
        }
    }

    /// The second pass of a tick: growth, death and germination, cell by
    /// cell in scan order.
    pub fn grow_all(&mut self)
        requires
            old(self).wf(),
        ensures
            final(self).wf(),
            final(self)@ == old(self)@.after_growth(final(self)@.genomes),
            extends(final(self)@.genomes, old(self)@.genomes),
            final(self)@.size_x() == old(self)@.size_x(),
            final(self)@.size_y() == old(self)@.size_y(),
            final(self)@.light == old(self)@.light,
    {
        let size_x = self.size_x;
        let size_y = self.size_y;
        let ghost start = self@;
        proof {
            lemma_growing_begins(start);
        }
        for x in 0..size_x
            invariant
                self.wf(),
                size_x == start.size_x(),
                size_y == start.size_y(),
                self@.size_x() == size_x,
                self@.size_y() == size_y,
                self@.light == start.light,
                extends(self@.genomes, start.genomes),
                growing(start, self@, x as int, 0),
        {
            for y in 0..size_y
                invariant
                    self.wf(),
                    x < size_x,
                    size_x == start.size_x(),
                    size_y == start.size_y(),
                    self@.size_x() == size_x,
                    self@.size_y() == size_y,
                    self@.light == start.light,
                    extends(self@.genomes, start.genomes),
                    growing(start, self@, x as int, y as int),
            {
                let ghost now = self@;
                self.grow_cell(x, y);
                proof {
                    lemma_growing_step(start, now, self@, x as int, y as int);
                }
            }
            proof {
                lemma_growing_next_column(start, self@, x as int);
            }
        }
        proof {
            lemma_growing_ends(start, self@);
        }
    }

    /// Evolves the simulation forward by one time step: the first pass, then
    /// the second. The result is the tick of the model, for the genomes that
    /// the organisms founded during the step have drawn.
    pub fn update(&mut self)
        requires
            old(self).wf(),
        ensures
            final(self).wf(),
            final(self)@ == old(self)@.tick(final(self)@.genomes),
            extends(final(self)@.genomes, old(self)@.genomes),
            final(self)@.size_x() == old(self)@.size_x(),
            final(self)@.size_y() == old(self)@.size_y(),
            final(self)@.light == old(self)@.light,
    {
        self.age_all();
        self.grow_all();
    }

    /// The color that the cell at `(x, y)` shows.
    pub fn color_at(&self, x: usize, y: usize) -> (color: u32)
        requires
            self.wf(),
            self@.within(x as int, y as int),
        ensures
            color == self@.color_at(x as int, y as int),
    {
        proof {
            self.lemma_shape();
        }
        match self.grid[x][y] {
            Cell::Empty => BACKGROUND_COLOR,
            Cell::Spore { organism, age, .. } => {
                let color = self.genomes[organism].color();
                if age >= SPORE_RIPING_AGE {
                    !color
                } else {
                    color
                }
            },
            Cell::Tissue { organism, .. } => self.genomes[organism].color(),
        }
    }

    /// Renders the state of the simulation into a buffer of one packed color
    /// for each pixel of the window, row by row.
    pub fn render(
        &self,
        buffer: &mut Vec<u32>,
        window_size: (usize, usize),
        pan_offset: (usize, usize),
        zoom: usize,
    )
        requires
            self.wf(),
            zoom >= 1,
            old(buffer)@.len() == window_size.0 * window_size.1,
        ensures
            final(buffer)@ == self@.rendered(
                window_size.0 as int,
                window_size.1 as int,
                (pan_offset.0 as int, pan_offset.1 as int),
                zoom as int,
            ),
    {
        let width = window_size.0;
        let height = window_size.1;
        let ghost pan = (pan_offset.0 as int, pan_offset.1 as int);
        proof {
            self.lemma_shape();
        }
        let mut index: usize = 0;
        let mut py: usize = 0;
        assert(index == py * width) by (nonlinear_arith)
            requires
                index == 0,
                py == 0,
        ;
        while py < height
            invariant
                self.wf(),
                self.size_x >= 1,
                self.size_y >= 1,
                zoom >= 1,
                py <= height,
                pan == (pan_offset.0 as int, pan_offset.1 as int),
                buffer@.len() == width * height,
                index == py * width,
                forall|k: int|
                    0 <= k < index ==> #[trigger] buffer@[k] == self@.pixel(
                        k % (width as int),
                        k / (width as int),
                        pan,
                        zoom as int,
                    ),
            decreases height - py,
        {
            let y = under(py, pan_offset.1, zoom, self.size_y);
            let mut px: usize = 0;
            while px < width
                invariant
                    self.wf(),
                    self.size_x >= 1,
                    self.size_y >= 1,
                    zoom >= 1,
                    py < height,
                    px <= width,
                    pan == (pan_offset.0 as int, pan_offset.1 as int),
                    buffer@.len() == width * height,
                    index == py * width + px,
                    y == ((py + pan.1) / (zoom as int)) % (self.size_y as int),
                    y < self.size_y,
                    forall|k: int|
                        0 <= k < index ==> #[trigger] buffer@[k] == self@.pixel(
                            k % (width as int),
                            k / (width as int),
                            pan,
                            zoom as int,
                        ),
                decreases width - px,
            {
                proof {
                    assert(py * width + px < width * height) by (nonlinear_arith)
                        requires
                            0 <= px < width,
                            0 <= py < height,
                    ;
                    assert(buffer@.len() == buffer.len());
                    lemma_fundamental_div_mod_converse(
                        index as int,
                        width as int,
                        py as int,
                        px as int,
                    );
                }
                let x = under(px, pan_offset.0, zoom, self.size_x);
                let color = self.color_at(x, y);
                buffer[index] = color;
                index += 1;
                px += 1;
            }
            py += 1;
            assert(index == py * width) by (nonlinear_arith)
                requires
                    index == (py - 1) * width + width,
            ;
        }
        proof {
            assert(index == width * height) by (nonlinear_arith)
                requires
                    index == py * width,
                    py == height,
            ;
            assert(buffer@ =~= self@.rendered(width as int, height as int, pan, zoom as int));
        }
    }
}

/// The grid index under the pixel index `p` of a window panned by `pan`
/// pixels at `zoom` pixels to a cell, on an axis of `size` cells that repeats.
pub fn under(p: usize, pan: usize, zoom: usize, size: usize) -> (i: usize)
    requires
        zoom >= 1,
        size >= 1,
    ensures
        i == ((p + pan) / (zoom as int)) % (size as int),
        i < size,
{
    let shifted: u128 = (p as u128) + (pan as u128);
    let cell: u128 = shifted / (zoom as u128);
    proof {
        lemma_mod_pos_bound(cell as int, size as int);
    }
    (cell % (size as u128)) as usize
}

} // verus!
