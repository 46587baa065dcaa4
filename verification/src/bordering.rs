//! The organisms that border one position: at most four, each listed once.
//! The list is an `arrayvec::ArrayVec` of organism indices.

use crate::world::World;
use arrayvec::ArrayVec;
use vstd::prelude::*;

verus! {

#[verifier::external_type_specification]
#[verifier::external_body]
#[verifier::reject_recursive_types(T)]
pub struct ExArrayVec<T, const CAP: usize>(ArrayVec<T, CAP>);

/// The organisms that a list holds, in the order in which they were pushed.
pub uninterp spec fn held(list: ArrayVec<usize, 4>) -> Seq<usize>;

/// Calls `ArrayVec::new`.
///
/// Trusted: the new list holds nothing.
#[verifier::external_body]
pub(crate) fn empty_list() -> (list: ArrayVec<usize, 4>)
    ensures
        held(list) == Seq::<usize>::empty(),
{
    ArrayVec::new()
}

/// Calls `ArrayVec::push`.
///
/// Trusted: the organism is appended and the rest stays. The call panics on
/// a full list, which the bound on the length rules out.
#[verifier::external_body]
pub(crate) fn list_push(list: &mut ArrayVec<usize, 4>, organism: usize)
    requires
        held(*old(list)).len() < 4,
    ensures
        held(*final(list)) == held(*old(list)).push(organism),
{
    list.push(organism)
}

/// Calls `ArrayVec::len`.
///
/// Trusted: the answer is the number of organisms held.
#[verifier::external_body]
pub(crate) fn list_len(list: &ArrayVec<usize, 4>) -> (n: usize)
    ensures
        n == held(*list).len(),
{
    list.len()
}

/// Indexes the list as a slice, through `ArrayVec::deref`.
///
/// Trusted: the answer is the organism at that place. The index panics out
/// of bounds, which the bound on `i` rules out.
#[verifier::external_body]
pub(crate) fn list_get(list: &ArrayVec<usize, 4>, i: usize) -> (organism: usize)
    requires
        i < held(*list).len(),
    ensures
        organism == held(*list)[i as int],
{
    list[i]
}

/// Whether the list holds the organism.
pub(crate) fn list_holds(list: &ArrayVec<usize, 4>, organism: usize) -> (found: bool)
    ensures
        found == held(*list).contains(organism),
{
    let n = list_len(list);
    for i in 0..n
        invariant
            n == held(*list).len(),
            forall|j: int| 0 <= j < i ==> held(*list)[j] != organism,
    {
        if list_get(list, i) == organism {
            return true;
        }
    }
    false
}

/// `found` lists, each once, the organisms that border `(x, y)` in the
/// directions below `d`.
pub open spec fn lists_borderers(w: World, x: int, y: int, d: int, found: Seq<usize>) -> bool {
    &&& forall|i: int, j: int| 0 <= i < j < found.len() ==> found[i] != found[j]
    &&& forall|i: int|
        0 <= i < found.len() ==> exists|e: int|
            0 <= e < d && #[trigger] w.bordering(x, y, e) == Some(#[trigger] found[i])
    &&& forall|e: int|
        0 <= e < d && (#[trigger] w.bordering(x, y, e)) is Some ==> found.contains(
            w.bordering(x, y, e)->0,
        )
}

/// Listing one more direction: the organism found there joins the list
/// unless the list holds it already.
pub(crate) proof fn lemma_lists_one_more(w: World, x: int, y: int, d: int, found: Seq<usize>)
    requires
        0 <= d,
        lists_borderers(w, x, y, d, found),
    ensures
        match w.bordering(x, y, d) {
            Some(o) => if found.contains(o) {
                lists_borderers(w, x, y, d + 1, found)
            } else {
                lists_borderers(w, x, y, d + 1, found.push(o))
            },
            None => lists_borderers(w, x, y, d + 1, found),
        },
{
    match w.bordering(x, y, d) {
        Some(o) => {
            if found.contains(o) {
                assert forall|i: int| 0 <= i < found.len() implies exists|e: int|
                    0 <= e < d + 1 && #[trigger] w.bordering(x, y, e) == Some(
                        #[trigger] found[i],
                    ) by {
                    let e = choose|e: int|
                        0 <= e < d && #[trigger] w.bordering(x, y, e) == Some(found[i]);
                    assert(0 <= e < d + 1 && w.bordering(x, y, e) == Some(found[i]));
                }
            } else {
                let more = found.push(o);
                assert forall|i: int| 0 <= i < more.len() implies exists|e: int|
                    0 <= e < d + 1 && #[trigger] w.bordering(x, y, e) == Some(
                        #[trigger] more[i],
                    ) by {
                    if i < found.len() {
                        let e = choose|e: int|
                            0 <= e < d && #[trigger] w.bordering(x, y, e) == Some(found[i]);
                        assert(0 <= e < d + 1 && w.bordering(x, y, e) == Some(more[i]));
                    } else {
                        assert(0 <= d < d + 1 && w.bordering(x, y, d) == Some(more[i]));
                    }
                }
                assert forall|e: int|
                    0 <= e < d + 1 && (#[trigger] w.bordering(x, y, e)) is Some implies more.contains(
                    w.bordering(x, y, e)->0,
                ) by {
                    if e < d {
                        let m = w.bordering(x, y, e)->0;
                        let i = choose|i: int| 0 <= i < found.len() && found[i] == m;
                        assert(more[i] == m);
                    } else {
                        assert(more[found.len() as int] == o);
                    }
                }
            }
        },
        None => {
            assert forall|i: int| 0 <= i < found.len() implies exists|e: int|
                0 <= e < d + 1 && #[trigger] w.bordering(x, y, e) == Some(#[trigger] found[i]) by {
                let e = choose|e: int|
                    0 <= e < d && #[trigger] w.bordering(x, y, e) == Some(found[i]);
                assert(0 <= e < d + 1 && w.bordering(x, y, e) == Some(found[i]));
            }
        },
    }
}

/// Once all four directions are listed, the list tells whether exactly one
/// organism borders the position, and which.
pub(crate) proof fn lemma_sole_borderer(w: World, x: int, y: int, found: Seq<usize>, o: usize)
    requires
        lists_borderers(w, x, y, 4, found),
    ensures
        w.only_neighbour(x, y, o) <==> (found.len() == 1 && found[0] == o),
{
    if found.len() == 1 && found[0] == o {
        let e = choose|e: int| 0 <= e < 4 && #[trigger] w.bordering(x, y, e) == Some(found[0]);
        assert(0 <= e < 4 && w.bordering(x, y, e) == Some(o));
        assert forall|d: int| 0 <= d < 4 && (#[trigger] w.bordering(x, y, d)) is Some implies w.bordering(
            x,
            y,
            d,
        ) == Some(o) by {
            let m = w.bordering(x, y, d)->0;
            assert(found.contains(m));
        }
    }
    if w.only_neighbour(x, y, o) {
        let d = choose|d: int| 0 <= d < 4 && #[trigger] w.bordering(x, y, d) == Some(o);
        assert(found.contains(w.bordering(x, y, d)->0));
        assert forall|i: int| 0 <= i < found.len() implies found[i] == o by {
            let e = choose|e: int|
                0 <= e < 4 && #[trigger] w.bordering(x, y, e) == Some(found[i]);
            assert(w.bordering(x, y, e) is Some);
        }
        if found.len() >= 2 {
            assert(found[0] != found[1]);
        }
    }
}

} // verus!
