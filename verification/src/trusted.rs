use crate::player::{cells_of, GridPosition};
use bevy::platform::collections::HashSet;
use bevy::platform::hash::FixedHasher;
use bevy_rand::prelude::ChaCha8Rng;
use rand::Rng;
use vstd::prelude::*;

verus! {

#[verifier::external_type_specification]
#[verifier::external_body]
#[verifier::reject_recursive_types(T)]
#[verifier::reject_recursive_types(S)]
pub struct ExHashSet<T, S>(HashSet<T, S>);

#[verifier::external_type_specification]
#[verifier::external_body]
pub struct ExFixedHasher(FixedHasher);

#[verifier::external_type_specification]
#[verifier::external_body]
pub struct ExChaCha8Rng(ChaCha8Rng);

/// The cells that a hash set of coordinate pairs holds.
pub uninterp spec fn set_cells(s: HashSet<(usize, usize), FixedHasher>) -> Set<(usize, usize)>;

/// `HashSet::new` of bevy's platform collections: the new set holds nothing.
#[verifier::external_body]
pub(crate) fn cell_set_new() -> (s: HashSet<(usize, usize), FixedHasher>)
    ensures
        set_cells(s) == Set::<(usize, usize)>::empty(),
{
    HashSet::new()
}

/// `HashSet::insert`: afterwards the set holds what it held and `(x, y)`; the
/// result tells whether `(x, y)` was absent before.
#[verifier::external_body]
pub(crate) fn cell_set_insert(
    s: &mut HashSet<(usize, usize), FixedHasher>,
    x: usize,
    y: usize,
) -> (fresh: bool)
    ensures
        set_cells(*final(s)) == set_cells(*old(s)).insert((x, y)),
        fresh == !set_cells(*old(s)).contains((x, y)),
{
    s.insert((x, y))
}

/// `HashSet::is_empty`: true exactly when the set holds no cell.
#[verifier::external_body]
pub(crate) fn cell_set_is_empty(s: &HashSet<(usize, usize), FixedHasher>) -> (empty: bool)
    ensures
        empty <==> set_cells(*s) =~= Set::<(usize, usize)>::empty(),
{
    s.is_empty()
}

/// `HashSet::iter`, collected: every cell of the set comes out exactly once, in
/// an order that is left open.
#[verifier::external_body]
pub(crate) fn cell_set_positions(s: &HashSet<(usize, usize), FixedHasher>) -> (v: Vec<
    GridPosition,
>)
    ensures
        cells_of(v@) == set_cells(*s),
        v@.no_duplicates(),
{
    s.iter().map(|c| GridPosition { x: c.0, y: c.1 }).collect()
}

/// `Rng::random_range` of rand on `0..bound`: some number below `bound`.
#[verifier::external_body]
pub(crate) fn random_below(rng: &mut ChaCha8Rng, bound: u8) -> (r: u8)
    requires
        bound > 0,
    ensures
        r < bound,
{
    rng.random_range(0..bound)
}

/// `Rng::random_ratio` of rand with one chance in two: either answer can come.
#[verifier::external_body]
pub(crate) fn random_coin(rng: &mut ChaCha8Rng) -> (heads: bool) {
    rng.random_ratio(1, 2)
}

} // verus!
