//! Laws of the model: what holds of every world, proved from the
//! definitions of the two passes.

use crate::cell::{energy_loss, wrap32, Cell, BACKGROUND_COLOR, ENERGY_LOSS, SPORE_RIPING_AGE};
use crate::genome::GenomeView;
use crate::torus::neighbour;
use crate::world::World;
use vstd::arithmetic::div_mod::{lemma_div_pos_is_pos, lemma_mod_pos_bound};
use vstd::prelude::*;

verus! {

/// A world without organisms is well-formed and all empty: this is the world
/// that clearing leaves.
pub proof fn lemma_blank_is_empty(sx: int, sy: int, light: i32)
    requires
        sx >= 2,
        sy >= 2,
    ensures
        World::blank(sx, sy, light).wf(),
        World::blank(sx, sy, light).all_empty(),
        World::blank(sx, sy, light).size_x() == sx,
        World::blank(sx, sy, light).size_y() == sy,
{
}

/// Nothing borders a position of an all-empty world.
proof fn lemma_empty_has_no_neighbour(w: World, x: int, y: int, o: usize)
    requires
        w.wf(),
        w.all_empty(),
        w.within(x, y),
    ensures
        !w.only_neighbour(x, y, o),
        w.cell_delta(x, y, o) == 0,
{
    assert forall|d: int| 0 <= d < 4 implies (#[trigger] w.bordering(x, y, d)) is None by {
        let to = neighbour(x, y, d, w.size_x(), w.size_y());
        assert(w.within(to.0, to.1));
        assert(w.cells[to.0][to.1] is Empty);
    }
    assert(w.cells[x][y] is Empty);
}

proof fn lemma_empty_column_delta(w: World, o: usize, x: int, n: int)
    requires
        w.wf(),
        w.all_empty(),
        0 <= x < w.size_x(),
        n <= w.size_y(),
    ensures
        w.column_delta(o, x, n) == 0,
    decreases n,
{
    if n > 0 {
        lemma_empty_column_delta(w, o, x, n - 1);
        lemma_empty_has_no_neighbour(w, x, n - 1, o);
    }
}

proof fn lemma_empty_columns_delta(w: World, o: usize, m: int)
    requires
        w.wf(),
        w.all_empty(),
        m <= w.size_x(),
    ensures
        w.columns_delta(o, m) == 0,
    decreases m,
{
    if m > 0 {
        lemma_empty_columns_delta(w, o, m - 1);
        lemma_empty_column_delta(w, o, m - 1, w.size_y());
    }
}

proof fn lemma_empty_column_rests(w: World, pool: Seq<GenomeView>, x: int, n: int)
    requires
        w.wf(),
        w.all_empty(),
        0 <= x < w.size_x(),
        n <= w.size_y(),
    ensures
        w.grown_column(pool, x, n) == w,
    decreases n,
{
    if n > 0 {
        lemma_empty_column_rests(w, pool, x, n - 1);
        assert(w.within(x, n - 1));
        assert(w.cells[x][n - 1] is Empty);
    }
}

proof fn lemma_empty_columns_rest(w: World, pool: Seq<GenomeView>, m: int)
    requires
        w.wf(),
        w.all_empty(),
        m <= w.size_x(),
    ensures
        w.grown_columns(pool, m, w.size_y()) == w,
    decreases m,
{
    if m > 0 {
        lemma_empty_columns_rest(w, pool, m - 1);
        lemma_empty_column_rests(w, pool, m - 1, w.size_y());
    }
}

/// No spontaneous organisms: a tick leaves a world in which every cell is
/// empty exactly as it is, whatever genomes are on offer.
pub proof fn lemma_empty_world_rests(w: World, pool: Seq<GenomeView>)
    requires
        w.wf(),
        w.all_empty(),
    ensures
        w.after_aging() == w,
        w.after_growth(pool) == w,
        w.tick(pool) == w,
{
    let aged = w.after_aging();
    assert forall|x: int| 0 <= x < w.size_x() implies #[trigger] aged.cells[x] =~= w.cells[x] by {
        assert(w.cells[x].len() == w.size_y());
        assert forall|y: int| 0 <= y < w.size_y() implies aged.cells[x][y] == w.cells[x][y] by {
            assert(w.within(x, y));
            assert(w.cells[x][y] is Empty);
        }
    }
    assert(aged.cells =~= w.cells);
    assert forall|o: int| 0 <= o < w.energies.len() implies aged.energies[o] == w.energies[o] by {
        lemma_empty_columns_delta(w, o as usize, w.size_x());
    }
    assert(aged.energies =~= w.energies);
    lemma_empty_columns_rest(w, pool, w.size_x());
}

/// Every cell costs: what an occupied cell adds to its organism's energy in
/// the first pass is a loss of at least `ENERGY_LOSS`, and it adds nothing to
/// any other organism.
pub proof fn lemma_cell_costs_energy(w: World, x: int, y: int, o: usize)
    requires
        w.wf(),
        w.within(x, y),
        w.cells[x][y].owner() is Some,
    ensures
        energy_loss(w.cells[x][y].age()) >= ENERGY_LOSS,
        w.cells[x][y].owner() == Some(o) ==> w.cell_delta(x, y, o) == -energy_loss(
            w.cells[x][y].age(),
        ),
        w.cells[x][y].owner() != Some(o) ==> w.cell_delta(x, y, o) == 0,
{
}

/// Number of cells among the first `n` of column `x` that organism `o` owns.
pub open spec fn owned_in_column(w: World, o: usize, x: int, n: int) -> int
    decreases n,
{
    if n <= 0 {
        0
    } else {
        owned_in_column(w, o, x, n - 1) + if w.cells[x][n - 1].owner() == Some(o) {
            1int
        } else {
            0int
        }
    }
}

/// Number of cells in the first `m` columns that organism `o` owns.
pub open spec fn owned_in_columns(w: World, o: usize, m: int) -> int
    decreases m,
{
    if m <= 0 {
        0
    } else {
        owned_in_columns(w, o, m - 1) + owned_in_column(w, o, m - 1, w.size_y())
    }
}

/// Number of cells that organism `o` owns.
pub open spec fn owned(w: World, o: usize) -> int {
    owned_in_columns(w, o, w.size_x())
}

/// Number of cells among the first `n` of column `x` that light organism `o`.
pub open spec fn lit_in_column(w: World, o: usize, x: int, n: int) -> int
    decreases n,
{
    if n <= 0 {
        0
    } else {
        lit_in_column(w, o, x, n - 1) + if w.lights(x, n - 1, o) {
            1int
        } else {
            0int
        }
    }
}

/// Number of cells in the first `m` columns that light organism `o`.
pub open spec fn lit_in_columns(w: World, o: usize, m: int) -> int
    decreases m,
{
    if m <= 0 {
        0
    } else {
        lit_in_columns(w, o, m - 1) + lit_in_column(w, o, m - 1, w.size_y())
    }
}

/// Number of cells that light organism `o`.
pub open spec fn lit(w: World, o: usize) -> int {
    lit_in_columns(w, o, w.size_x())
}

/// What the cells of organism `o` among the first `n` of column `x` cost.
pub open spec fn cost_in_column(w: World, o: usize, x: int, n: int) -> int
    decreases n,
{
    if n <= 0 {
        0
    } else {
        cost_in_column(w, o, x, n - 1) + if w.cells[x][n - 1].owner() == Some(o) {
            energy_loss(w.cells[x][n - 1].age())
        } else {
            0
        }
    }
}

/// What the cells of organism `o` in the first `m` columns cost.
pub open spec fn cost_in_columns(w: World, o: usize, m: int) -> int
    decreases m,
{
    if m <= 0 {
        0
    } else {
        cost_in_columns(w, o, m - 1) + cost_in_column(w, o, m - 1, w.size_y())
    }
}

/// What the cells of organism `o` cost it in one tick.
pub open spec fn cost(w: World, o: usize) -> int {
    cost_in_columns(w, o, w.size_x())
}

proof fn lemma_column_balance(w: World, o: usize, x: int, n: int)
    ensures
        w.column_delta(o, x, n) == w.light * lit_in_column(w, o, x, n) - cost_in_column(w, o, x, n),
        cost_in_column(w, o, x, n) >= ENERGY_LOSS * owned_in_column(w, o, x, n),
        lit_in_column(w, o, x, n) >= 0,
        owned_in_column(w, o, x, n) >= 0,
    decreases n,
{
    if n > 0 {
        lemma_column_balance(w, o, x, n - 1);
        let before = lit_in_column(w, o, x, n - 1);
        assert(w.light * (before + 1) == w.light * before + w.light) by (nonlinear_arith);
    }
}

proof fn lemma_columns_balance(w: World, o: usize, m: int)
    ensures
        w.columns_delta(o, m) == w.light * lit_in_columns(w, o, m) - cost_in_columns(w, o, m),
        cost_in_columns(w, o, m) >= ENERGY_LOSS * owned_in_columns(w, o, m),
        lit_in_columns(w, o, m) >= 0,
        owned_in_columns(w, o, m) >= 0,
    decreases m,
{
    if m > 0 {
        lemma_columns_balance(w, o, m - 1);
        lemma_column_balance(w, o, m - 1, w.size_y());
        let before = lit_in_columns(w, o, m - 1);
        let more = lit_in_column(w, o, m - 1, w.size_y());
        assert(w.light * (before + more) == w.light * before + w.light * more)
            by (nonlinear_arith);
    }
}

/// Energy balance of the first pass: an organism gains the light once for
/// every cell that lights it and pays for every cell it owns, each at least
/// `ENERGY_LOSS`; its counter shows the balance, wrapped around.
pub proof fn lemma_energy_balance(w: World, o: usize)
    requires
        o < w.energies.len(),
    ensures
        w.delta(o) == w.light * lit(w, o) - cost(w, o),
        cost(w, o) >= ENERGY_LOSS * owned(w, o),
        lit(w, o) >= 0,
        owned(w, o) >= 0,
        w.after_aging().energies[o as int] == wrap32(
            w.energies[o as int] + w.light * lit(w, o) - cost(w, o),
        ),
{
    lemma_columns_balance(w, o, w.size_x());
}

/// No light reaches organism `o`: the light level is not positive, or no
/// empty cell has `o` as its only neighbour.
pub open spec fn unlit(w: World, o: usize) -> bool {
    w.light <= 0 || forall|x: int, y: int| w.within(x, y) ==> !#[trigger] w.lights(x, y, o)
}

proof fn lemma_unlit_column(w: World, o: usize, x: int, n: int)
    requires
        w.wf(),
        unlit(w, o),
        0 <= x < w.size_x(),
        n <= w.size_y(),
    ensures
        w.column_delta(o, x, n) <= 0,
        forall|y: int|
            0 <= y < n && (#[trigger] w.cells[x][y]).owner() == Some(o) ==> w.column_delta(o, x, n)
                <= -ENERGY_LOSS,
    decreases n,
{
    if n > 0 {
        lemma_unlit_column(w, o, x, n - 1);
        assert(w.within(x, n - 1));
        assert(w.lights(x, n - 1, o) ==> w.light <= 0);
        assert(w.cell_delta(x, n - 1, o) <= 0);
        assert(w.cells[x][n - 1].owner() == Some(o) ==> w.cell_delta(x, n - 1, o) <= -ENERGY_LOSS);
    }
}

proof fn lemma_unlit_columns(w: World, o: usize, m: int)
    requires
        w.wf(),
        unlit(w, o),
        m <= w.size_x(),
    ensures
        w.columns_delta(o, m) <= 0,
        forall|x: int, y: int|
            0 <= x < m && 0 <= y < w.size_y() && (#[trigger] w.cells[x][y]).owner() == Some(o)
                ==> w.columns_delta(o, m) <= -ENERGY_LOSS,
    decreases m,
{
    if m > 0 {
        lemma_unlit_columns(w, o, m - 1);
        lemma_unlit_column(w, o, m - 1, w.size_y());
    }
}

/// Energy only goes down where no light comes in: in the first pass an
/// organism that no light reaches and that owns a cell loses at least
/// `ENERGY_LOSS`, and its counter shows that loss unless it wraps around.
pub proof fn lemma_unlit_organism_loses_energy(w: World, x: int, y: int, o: usize)
    requires
        w.wf(),
        w.within(x, y),
        w.cells[x][y].owner() == Some(o),
        unlit(w, o),
    ensures
        w.delta(o) <= -ENERGY_LOSS,
        w.energies[o as int] + w.delta(o) >= i32::MIN ==> w.after_aging().energies[o as int]
            <= w.energies[o as int] - ENERGY_LOSS,
{
    lemma_unlit_columns(w, o, w.size_x());
    assert(w.cells[x][y].valid(w.genomes.len() as int));
}

/// Isolation reward: an empty cell that exactly one distinct organism
/// borders adds exactly the light to that organism's counter in the first
/// pass, and nothing to any other.
pub proof fn lemma_isolation_reward(w: World, x: int, y: int, o: usize, other: usize)
    requires
        w.wf(),
        w.within(x, y),
        w.cells[x][y] is Empty,
        w.only_neighbour(x, y, o),
        other != o,
        other < w.energies.len(),
    ensures
        o < w.energies.len(),
        w.cell_delta(x, y, o) == w.light,
        w.cell_delta(x, y, other) == 0,
        w.aged_at(x, y).energies[o as int] == wrap32(w.energies[o as int] + w.light),
        w.aged_at(x, y).energies[other as int] == w.energies[other as int],
        w.aged_at(x, y).cells[x][y] is Empty,
{
    let d = choose|d: int| 0 <= d < 4 && #[trigger] w.bordering(x, y, d) == Some(o);
    let to = neighbour(x, y, d, w.size_x(), w.size_y());
    assert(w.within(to.0, to.1));
    assert(w.cells[to.0][to.1].valid(w.genomes.len() as int));
    assert(!w.only_neighbour(x, y, other));
}

/// Crowding starves: an empty cell that two different organisms border adds
/// nothing to any organism's counter in the first pass.
pub proof fn lemma_contested_cell_gives_nothing(
    w: World,
    x: int,
    y: int,
    d1: int,
    d2: int,
    o: usize,
)
    requires
        w.wf(),
        w.within(x, y),
        w.cells[x][y] is Empty,
        0 <= d1 < 4,
        0 <= d2 < 4,
        w.bordering(x, y, d1) is Some,
        w.bordering(x, y, d2) is Some,
        w.bordering(x, y, d1) != w.bordering(x, y, d2),
        o < w.energies.len(),
    ensures
        !w.only_neighbour(x, y, o),
        w.cell_delta(x, y, o) == 0,
        w.aged_at(x, y).energies[o as int] == w.energies[o as int],
{
}

/// Spore maturity gate: in the second pass a spore whose organism has no
/// energy left dies if it is not ripe. A ripe one gives way to the first
/// tissue of a new organism, distinct from every organism there was, with no
/// energy, facing as the spore did; nothing else changes.
pub proof fn lemma_spore_maturity_gate(w: World, x: int, y: int, pool: Seq<GenomeView>)
    requires
        w.wf(),
        w.within(x, y),
        w.cells[x][y] is Spore,
        w.energies[w.cells[x][y].owner()->0 as int] <= 0,
    ensures
        w.cells[x][y].age() < SPORE_RIPING_AGE ==> w.grown_at(x, y, pool) == w.with_cell(
            x,
            y,
            Cell::Empty,
        ) && w.grown_at(x, y, pool).cells[x][y] is Empty,
        w.cells[x][y].age() >= SPORE_RIPING_AGE ==> ({
            let grown = w.grown_at(x, y, pool);
            let born = w.genomes.len();
            &&& grown.cells[x][y] == Cell::Tissue {
                organism: born as usize,
                age: 0,
                active_gene: 0,
                direction: w.cells[x][y]->Spore_direction,
            }
            &&& grown.genomes == w.genomes.push(pool[born as int])
            &&& grown.energies == w.energies.push(0)
            &&& grown.energies[born as int] == 0
            &&& grown.parents[born as int] == w.cells[x][y].owner()
            &&& forall|a: int, b: int|
                w.within(a, b) && (a != x || b != y) ==> #[trigger] grown.cells[a][b]
                    == w.cells[a][b]
        }),
{
    assert(w.cells[x].len() == w.size_y());
}

/// What growth leaves is fresh: a growth attempt changes at most one cell,
/// which was empty and now has age 0 and the owner of the growing tissue.
pub proof fn lemma_growth_is_fresh(w: World, x: int, y: int, rel: int)
    requires
        w.wf(),
        w.within(x, y),
        0 <= rel < 3,
    ensures
        w.sprouted(x, y, rel).genomes == w.genomes,
        w.sprouted(x, y, rel).energies == w.energies,
        forall|a: int, b: int|
            w.within(a, b) && #[trigger] w.sprouted(x, y, rel).cells[a][b] != w.cells[a][b] ==> {
                &&& w.cells[a][b] is Empty
                &&& w.sprouted(x, y, rel).cells[a][b].age() == 0
                &&& w.sprouted(x, y, rel).cells[a][b].owner() == w.cells[x][y].owner()
            },
{
    let grown = w.sprouted(x, y, rel);
    assert forall|a: int, b: int|
        w.within(a, b) && #[trigger] grown.cells[a][b] != w.cells[a][b] implies {
        &&& w.cells[a][b] is Empty
        &&& grown.cells[a][b].age() == 0
        &&& grown.cells[a][b].owner() == w.cells[x][y].owner()
    } by {
        assert(w.cells[a].len() == w.size_y());
    }
}

/// Growth depth cap: tissue of age 0, such as a tick has just created, does
/// not grow in the second pass. No other cell changes, and no organism is
/// founded.
pub proof fn lemma_fresh_tissue_rests(w: World, x: int, y: int, pool: Seq<GenomeView>)
    requires
        w.wf(),
        w.within(x, y),
        w.cells[x][y] is Tissue,
        w.cells[x][y].age() == 0,
    ensures
        w.grown_at(x, y, pool).genomes == w.genomes,
        w.grown_at(x, y, pool).energies == w.energies,
        forall|a: int, b: int|
            w.within(a, b) && (a != x || b != y) ==> #[trigger] w.grown_at(x, y, pool).cells[a][b]
                == w.cells[a][b],
        w.energies[w.cells[x][y].owner()->0 as int] > 0 ==> w.grown_at(x, y, pool) == w,
{
    assert(w.cells[x].len() == w.size_y());
}

/// An all-empty world renders as background: every pixel of every window,
/// at any pan and zoom, shows the background color.
pub proof fn lemma_empty_world_renders_background(
    w: World,
    width: int,
    height: int,
    pan: (int, int),
    zoom: int,
)
    requires
        w.wf(),
        w.all_empty(),
        width >= 0,
        height >= 0,
        pan.0 >= 0,
        pan.1 >= 0,
        zoom >= 1,
    ensures
        w.rendered(width, height, pan, zoom).len() == width * height,
        forall|i: int|
            0 <= i < width * height ==> #[trigger] w.rendered(width, height, pan, zoom)[i]
                == BACKGROUND_COLOR,
{
    assert(width * height >= 0) by (nonlinear_arith)
        requires
            width >= 0,
            height >= 0,
    ;
    assert forall|i: int| 0 <= i < width * height implies #[trigger] w.rendered(
        width,
        height,
        pan,
        zoom,
    )[i] == BACKGROUND_COLOR by {
        assert(width > 0) by (nonlinear_arith)
            requires
                0 <= i < width * height,
                width >= 0,
        ;
        lemma_mod_pos_bound(i, width);
        lemma_div_pos_is_pos(i, width);
        let px = i % width;
        let py = i / width;
        lemma_div_pos_is_pos(px + pan.0, zoom);
        lemma_div_pos_is_pos(py + pan.1, zoom);
        lemma_mod_pos_bound((px + pan.0) / zoom, w.size_x());
        lemma_mod_pos_bound((py + pan.1) / zoom, w.size_y());
        let x = ((px + pan.0) / zoom) % w.size_x();
        let y = ((py + pan.1) / zoom) % w.size_y();
        assert(w.within(x, y));
        assert(w.cells[x][y] is Empty);
    }
}

} // verus!
