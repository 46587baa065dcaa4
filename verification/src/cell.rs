//! Cells of the grid and the rules that concern one cell alone.

use crate::genome::GENOME_SIZE;
use vstd::prelude::*;

verus! {

/// Energy that a cell of age below `TICKS_TO_AGE` costs its organism per tick.
pub const ENERGY_LOSS: i32 = 5;

/// Number of ticks after which a cell costs one more `ENERGY_LOSS` per tick.
pub const TICKS_TO_AGE: u32 = 200;

/// Age from which a starved spore germinates in place of dying.
pub const SPORE_RIPING_AGE: u32 = 100;

/// Color of an empty cell.
pub const BACKGROUND_COLOR: u32 = 0;

/// State of one grid position. An occupied cell names its organism by the
/// organism's index in the simulation; `direction` is a compass index below 4.
#[derive(Clone, Copy, PartialEq, Eq, Structural, Debug)]
pub enum Cell {
    Empty,
    Spore { organism: usize, age: u32, direction: u32 },
    Tissue { organism: usize, age: u32, active_gene: u32, direction: u32 },
}

impl Cell {
    /// The organism that the cell belongs to, if it is occupied.
    pub open spec fn owner(self) -> Option<usize> {
        match self {
            Cell::Empty => None,
            Cell::Spore { organism, .. } => Some(organism),
            Cell::Tissue { organism, .. } => Some(organism),
        }
    }

    /// Ticks that the cell has lived in its current state; 0 for an empty cell.
    pub open spec fn age(self) -> u32 {
        match self {
            Cell::Empty => 0,
            Cell::Spore { age, .. } => age,
            Cell::Tissue { age, .. } => age,
        }
    }

    /// The cell fits a simulation of `organisms` organisms.
    pub open spec fn valid(self, organisms: int) -> bool {
        match self {
            Cell::Empty => true,
            Cell::Spore { organism, direction, .. } => organism < organisms && direction < 4,
            Cell::Tissue { organism, active_gene, direction, .. } => organism < organisms
                && active_gene < GENOME_SIZE && direction < 4,
        }
    }

    /// The cell one tick older. The age counter wraps around at `u32::MAX`.
    pub open spec fn aged(self) -> Cell {
        match self {
            Cell::Empty => Cell::Empty,
            Cell::Spore { organism, age, direction } => Cell::Spore {
                organism,
                age: next_age(age),
                direction,
            },
            Cell::Tissue { organism, age, active_gene, direction } => Cell::Tissue {
                organism,
                age: next_age(age),
                active_gene,
                direction,
            },
        }
    }

    /// Color that the cell shows when its organism's genome has `color`: the
    /// background if empty, the complement for a ripe spore, else the color.
    pub open spec fn shown(self, color: u32) -> u32 {
        match self {
            Cell::Empty => BACKGROUND_COLOR,
            Cell::Spore { age, .. } => if age >= SPORE_RIPING_AGE {
                !color
            } else {
                color
            },
            Cell::Tissue { .. } => color,
        }
    }
}

/// The age that follows `age`.
pub open spec fn next_age(age: u32) -> u32 {
    if age == u32::MAX {
        0
    } else {
        (age + 1) as u32
    }
}

/// Energy that a cell of the given age costs its organism in one tick.
pub open spec fn energy_loss(age: u32) -> int {
    ENERGY_LOSS * (1 + age / TICKS_TO_AGE)
}

/// The 32-bit signed value congruent to `v` modulo `2^32`: what wrapping
/// arithmetic on an energy counter leaves.
pub open spec fn wrap32(v: int) -> i32 {
    ((v + 0x8000_0000) % 0x1_0000_0000 - 0x8000_0000) as i32
}

/// Computes `energy_loss`.
pub fn energy_cost(age: u32) -> (cost: i32)
    ensures
        cost == energy_loss(age),
        cost >= ENERGY_LOSS,
{
    let steps: u32 = age / TICKS_TO_AGE;
    ENERGY_LOSS * (1 + steps as i32)
}

/// The organism that the cell belongs to, if it is occupied.
pub fn owner_of(cell: Cell) -> (owner: Option<usize>)
    ensures
        owner == cell.owner(),
{
    match cell {
        Cell::Empty => None,
        Cell::Spore { organism, .. } => Some(organism),
        Cell::Tissue { organism, .. } => Some(organism),
    }
}

/// Whether the cell is empty.
pub fn is_empty(cell: Cell) -> (empty: bool)
    ensures
        empty == (cell is Empty),
{
    match cell {
        Cell::Empty => true,
        _ => false,
    }
}

/// Computes `Cell::aged`.
pub fn grow_older(cell: Cell) -> (older: Cell)
    ensures
        older == cell.aged(),
{
    match cell {
        Cell::Empty => Cell::Empty,
        Cell::Spore { organism, age, direction } => Cell::Spore {
            organism,
            age: age.wrapping_add(1),
            direction,
        },
        Cell::Tissue { organism, age, active_gene, direction } => Cell::Tissue {
            organism,
            age: age.wrapping_add(1),
            active_gene,
            direction,
        },
    }
}

} // verus!
