//! How the two passes proceed over the grid, cell by cell: what holds of the
//! simulation when the scan stands before a given cell.

use crate::cell::wrap32;
use crate::genome::GenomeView;
use crate::torus::neighbour;
use crate::world::World;
use vstd::prelude::*;

verus! {

/// `(a, b)` comes before `(x, y)` in the scan: columns in order, each from
/// its first cell to its last.
pub open spec fn before(a: int, b: int, x: int, y: int) -> bool {
    a < x || (a == x && b < y)
}

/// `now` is `start` with the first pass done on every cell before `(x, y)`.
pub open spec fn aging(start: World, now: World, x: int, y: int) -> bool {
    &&& now.light == start.light
    &&& now.genomes == start.genomes
    &&& now.parents == start.parents
    &&& now.cells.len() == start.cells.len()
    &&& forall|a: int| 0 <= a < start.size_x() ==> (#[trigger] now.cells[a]).len() == start.size_y()
    &&& forall|a: int, b: int|
        start.within(a, b) ==> #[trigger] now.cells[a][b] == if before(a, b, x, y) {
            start.cells[a][b].aged()
        } else {
            start.cells[a][b]
        }
    &&& now.energies.len() == start.energies.len()
    &&& forall|o: int|
        0 <= o < start.energies.len() ==> #[trigger] now.energies[o] == wrap32(
            start.energies[o] + start.columns_delta(o as usize, x) + start.column_delta(
                o as usize,
                x,
                y,
            ),
        )
}

/// What a cell adds to an organism's energy does not depend on how far the
/// first pass has come: aging changes no owner, and the cell itself is
/// visited only then.
proof fn lemma_delta_stable(start: World, now: World, x: int, y: int, far_x: int, far_y: int, o: usize)
    requires
        start.wf(),
        start.within(x, y),
        aging(start, now, far_x, far_y),
        !before(x, y, far_x, far_y),
    ensures
        now.cell_delta(x, y, o) == start.cell_delta(x, y, o),
{
    assert(now.cells[0].len() == start.size_y());
    assert forall|d: int| 0 <= d < 4 implies #[trigger] now.bordering(x, y, d) == start.bordering(
        x,
        y,
        d,
    ) by {
        let to = neighbour(x, y, d, start.size_x(), start.size_y());
        assert(start.within(to.0, to.1));
        assert(now.cells[to.0][to.1].owner() == start.cells[to.0][to.1].owner());
    }
    assert(now.cells[x][y] == start.cells[x][y]);
    if start.only_neighbour(x, y, o) {
        let d = choose|d: int| 0 <= d < 4 && #[trigger] start.bordering(x, y, d) == Some(o);
        assert(now.bordering(x, y, d) == Some(o));
        assert(now.only_neighbour(x, y, o));
    }
    if now.only_neighbour(x, y, o) {
        let d = choose|d: int| 0 <= d < 4 && #[trigger] now.bordering(x, y, d) == Some(o);
        assert(start.bordering(x, y, d) == Some(o));
        assert forall|e: int| 0 <= e < 4 && (#[trigger] start.bordering(x, y, e)) is Some implies start.bordering(
            x,
            y,
            e,
        ) == Some(o) by {
            assert(now.bordering(x, y, e) == start.bordering(x, y, e));
        }
        assert(start.only_neighbour(x, y, o));
    }
}

/// Before the first cell nothing has been done.
pub(crate) proof fn lemma_aging_begins(start: World)
    requires
        start.wf(),
    ensures
        aging(start, start, 0, 0),
{
}

/// The first pass on the cell at `(x, y)` takes the scan one cell further.
pub(crate) proof fn lemma_aging_step(start: World, now: World, x: int, y: int)
    requires
        start.wf(),
        start.within(x, y),
        aging(start, now, x, y),
    ensures
        aging(start, now.aged_at(x, y), x, y + 1),
{
    let next = now.aged_at(x, y);
    assert forall|a: int| 0 <= a < start.size_x() implies (#[trigger] next.cells[a]).len()
        == start.size_y() by {
        assert(now.cells[a].len() == start.size_y());
    }
    assert forall|a: int, b: int| start.within(a, b) implies #[trigger] next.cells[a][b] == if before(
        a,
        b,
        x,
        y + 1,
    ) {
        start.cells[a][b].aged()
    } else {
        start.cells[a][b]
    } by {
        assert(now.cells[a].len() == start.size_y());
        if a == x && b == y {
            assert(now.cells[x][y] == start.cells[x][y]);
        } else {
            assert(next.cells[a][b] == now.cells[a][b]);
        }
    }
    assert forall|o: int| 0 <= o < start.energies.len() implies #[trigger] next.energies[o]
        == wrap32(
        start.energies[o] + start.columns_delta(o as usize, x) + start.column_delta(
            o as usize,
            x,
            y + 1,
        ),
    ) by {
        lemma_delta_stable(start, now, x, y, x, y, o as usize);
        let sum = start.energies[o] + start.columns_delta(o as usize, x) + start.column_delta(
            o as usize,
            x,
            y,
        );
        let d = start.cell_delta(x, y, o as usize);
        assert(now.energies[o] == wrap32(sum));
        assert(next.energies[o] == wrap32(now.energies[o] + d));
        assert(wrap32(wrap32(sum) + d) == wrap32(sum + d));
        assert(start.column_delta(o as usize, x, y + 1) == start.column_delta(o as usize, x, y) + d);
    }
}

/// After the last cell of a column the scan stands before the next column.
pub(crate) proof fn lemma_aging_next_column(start: World, now: World, x: int)
    requires
        start.wf(),
        0 <= x < start.size_x(),
        aging(start, now, x, start.size_y()),
    ensures
        aging(start, now, x + 1, 0),
{
    assert forall|a: int, b: int| start.within(a, b) implies #[trigger] now.cells[a][b] == if before(
        a,
        b,
        x + 1,
        0,
    ) {
        start.cells[a][b].aged()
    } else {
        start.cells[a][b]
    } by {
        assert(before(a, b, x + 1, 0) == before(a, b, x, start.size_y()));
    }
    assert forall|o: int| 0 <= o < start.energies.len() implies #[trigger] now.energies[o]
        == wrap32(
        start.energies[o] + start.columns_delta(o as usize, x + 1) + start.column_delta(
            o as usize,
            x + 1,
            0,
        ),
    ) by {
        assert(start.columns_delta(o as usize, x + 1) == start.columns_delta(o as usize, x)
            + start.column_delta(o as usize, x, start.size_y()));
    }
}

/// After the last column the first pass is done.
pub(crate) proof fn lemma_aging_ends(start: World, now: World)
    requires
        start.wf(),
        aging(start, now, start.size_x(), 0),
    ensures
        now == start.after_aging(),
{
    let done = start.after_aging();
    assert forall|a: int| 0 <= a < start.size_x() implies #[trigger] now.cells[a] =~= done.cells[a] by {
        assert forall|b: int| 0 <= b < start.size_y() implies now.cells[a][b] == done.cells[a][b] by {
            assert(start.within(a, b));
        }
    }
    assert(now.cells =~= done.cells);
    assert(now.energies =~= done.energies);
}

/// `pool` begins with `genomes`.
pub open spec fn extends(pool: Seq<GenomeView>, genomes: Seq<GenomeView>) -> bool {
    &&& pool.len() >= genomes.len()
    &&& forall|i: int| 0 <= i < genomes.len() ==> pool[i] == genomes[i]
}

/// `now` is `start` with the second pass done on every cell before `(x, y)`,
/// whatever genomes the organisms founded later will get.
pub closed spec fn growing(start: World, now: World, x: int, y: int) -> bool {
    forall|pool: Seq<GenomeView>| #[trigger]
        extends(pool, now.genomes) ==> now == start.grown_columns(pool, x, start.size_y()).grown_column(
            pool,
            x,
            y,
        )
}

/// Before the first cell nothing has been done.
pub(crate) proof fn lemma_growing_begins(start: World)
    ensures
        growing(start, start, 0, 0),
{
}

/// The second pass on the cell at `(x, y)` takes the scan one cell further.
pub(crate) proof fn lemma_growing_step(start: World, now: World, next: World, x: int, y: int)
    requires
        0 <= y,
        growing(start, now, x, y),
        extends(next.genomes, now.genomes),
        next == now.grown_at(x, y, next.genomes),
    ensures
        growing(start, next, x, y + 1),
{
    assert forall|pool: Seq<GenomeView>| #[trigger] extends(pool, next.genomes) implies next
        == start.grown_columns(pool, x, start.size_y()).grown_column(pool, x, y + 1) by {
        assert(extends(pool, now.genomes));
        let column = start.grown_columns(pool, x, start.size_y());
        assert(now == column.grown_column(pool, x, y));
        assert(column.grown_column(pool, x, y + 1) == now.grown_at(x, y, pool));
        if next.genomes.len() > now.genomes.len() {
            assert(pool[now.genomes.len() as int] == next.genomes[now.genomes.len() as int]);
        }
        assert(now.grown_at(x, y, pool) == now.grown_at(x, y, next.genomes));
    }
}

/// After the last cell of a column the scan stands before the next column.
pub(crate) proof fn lemma_growing_next_column(start: World, now: World, x: int)
    requires
        0 <= x,
        growing(start, now, x, start.size_y()),
    ensures
        growing(start, now, x + 1, 0),
{
    assert forall|pool: Seq<GenomeView>| #[trigger] extends(pool, now.genomes) implies now
        == start.grown_columns(pool, x + 1, start.size_y()).grown_column(pool, x + 1, 0) by {
        assert(start.grown_columns(pool, x + 1, start.size_y()) == start.grown_columns(
            pool,
            x,
            start.size_y(),
        ).grown_column(pool, x, start.size_y()));
    }
}

/// After the last column the second pass is done.
pub(crate) proof fn lemma_growing_ends(start: World, now: World)
    requires
        growing(start, now, start.size_x(), 0),
    ensures
        now == start.after_growth(now.genomes),
{
    assert(extends(now.genomes, now.genomes));
}

} // verus!
