//! Geometry of the grid: both axes wrap around.

use vstd::arithmetic::div_mod::{lemma_mod_add_multiples_vanish, lemma_mod_self_0, lemma_small_mod};
use vstd::prelude::*;

verus! {

/// The index after `i` on an axis of length `n`.
pub open spec fn next(i: int, n: int) -> int {
    if i + 1 < n {
        i + 1
    } else {
        0
    }
}

/// The index before `i` on an axis of length `n`.
pub open spec fn prev(i: int, n: int) -> int {
    if i > 0 {
        i - 1
    } else {
        n - 1
    }
}

/// The position one step from `(x, y)` in compass direction `d` on a grid of
/// `sx` by `sy` cells: 0 raises `y`, 1 raises `x`, 2 lowers `y`, 3 lowers `x`.
pub open spec fn neighbour(x: int, y: int, d: int, sx: int, sy: int) -> (int, int) {
    if d == 0 {
        (x, next(y, sy))
    } else if d == 1 {
        (next(x, sx), y)
    } else if d == 2 {
        (x, prev(y, sy))
    } else {
        (prev(x, sx), y)
    }
}

/// The compass direction that a cell facing `direction` grows in for the
/// relative direction `rel`: left of, along, or right of its facing.
pub open spec fn turned(direction: int, rel: int) -> int {
    (3 + direction + rel) % 4
}

/// One step along an axis is addition modulo the axis length.
pub proof fn lemma_steps_are_modular(i: int, n: int)
    requires
        0 <= i < n,
    ensures
        next(i, n) == (i + 1) % n,
        prev(i, n) == (i + n - 1) % n,
        0 <= next(i, n) < n,
        0 <= prev(i, n) < n,
{
    if i + 1 < n {
        lemma_small_mod((i + 1) as nat, n as nat);
    } else {
        lemma_mod_self_0(n);
    }
    if i > 0 {
        lemma_mod_add_multiples_vanish(i - 1, n);
        lemma_small_mod((i - 1) as nat, n as nat);
    } else {
        lemma_small_mod((n - 1) as nat, n as nat);
    }
}

/// Computes `next`.
pub fn step_up(i: usize, n: usize) -> (j: usize)
    requires
        i < n,
    ensures
        j == next(i as int, n as int),
        j < n,
{
    if i + 1 < n {
        i + 1
    } else {
        0
    }
}

/// Computes `prev`.
pub fn step_down(i: usize, n: usize) -> (j: usize)
    requires
        i < n,
    ensures
        j == prev(i as int, n as int),
        j < n,
{
    if i > 0 {
        i - 1
    } else {
        n - 1
    }
}

/// Computes `neighbour`.
pub fn step(x: usize, y: usize, d: u32, sx: usize, sy: usize) -> (to: (usize, usize))
    requires
        x < sx,
        y < sy,
    ensures
        (to.0 as int, to.1 as int) == neighbour(x as int, y as int, d as int, sx as int, sy as int),
        to.0 < sx,
        to.1 < sy,
{
    if d == 0 {
        (x, step_up(y, sy))
    } else if d == 1 {
        (step_up(x, sx), y)
    } else if d == 2 {
        (x, step_down(y, sy))
    } else {
        (step_down(x, sx), y)
    }
}

/// Computes `turned`.
pub fn turn(direction: u32, rel: u32) -> (d: u32)
    requires
        direction < 4,
        rel < 3,
    ensures
        d == turned(direction as int, rel as int),
        d < 4,
{
    (3 + direction + rel) % 4
}

} // verus!
