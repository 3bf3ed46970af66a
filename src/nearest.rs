//! Picking the nearest of several intersections along one ray. A distance is
//! given as a key that orders as the distances do; a candidate that is absent
//! is an object the ray misses, or a root that lies behind the ray.

use vstd::prelude::*;

verus! {

/// The candidate at index `i` is present and no present candidate holds a
/// smaller key; none before `i` holds an equal one.
pub open spec fn is_first_nearest(c: Seq<Option<u32>>, i: int) -> bool {
    &&& 0 <= i < c.len()
    &&& c[i] is Some
    &&& forall|j: int| 0 <= j < c.len() && c[j] is Some ==> c[i]->0 <= c[j]->0
    &&& forall|j: int| 0 <= j < i && c[j] is Some ==> c[i]->0 < c[j]->0
}

/// At most one index is the first nearest, so `nearest` has one right answer.
pub proof fn lemma_first_nearest_unique(c: Seq<Option<u32>>, i: int, j: int)
    requires
        is_first_nearest(c, i),
        is_first_nearest(c, j),
    ensures
        i == j,
{
}

/// Some candidate is present.
pub open spec fn any_present(c: Seq<Option<u32>>) -> bool {
    exists|j: int| 0 <= j < c.len() && c[j] is Some
}

/// Index of the nearest present candidate; the first one on equal keys.
pub fn nearest(c: &Vec<Option<u32>>) -> (r: Option<usize>)
    ensures
        r is None <==> !any_present(c@),
        r matches Some(i) ==> is_first_nearest(c@, i as int),
{
    let mut best: Option<usize> = None;
    let mut i: usize = 0;
    while i < c.len()
        invariant
            i <= c.len(),
            best is None <==> (forall|j: int| 0 <= j < i ==> c@[j] is None),
            best matches Some(b) ==> is_first_nearest(c@.take(i as int), b as int),
        decreases c.len() - i,
    {
        match c[i] {
            Some(k) => {
                match best {
                    None => { best = Some(i); },
                    Some(b) => {
                        if k < c[b].unwrap() {
                            best = Some(i);
                        }
                    },
                }
            },
            None => {},
        }
        i += 1;
    }
    assert(c@.take(c.len() as int) =~= c@);
    best
}


/// Which root of the ray/sphere quadratic is taken: `Far` is `-b + d`,
/// `Near` is `-b - d`.
#[derive(Debug, Clone, Copy, PartialEq, Eq, Structural)]
pub enum Root {
    Far,
    Near,
}

/// The root taken from the two candidates, each present only when it lies far
/// enough ahead of the ray origin: the one present, or the nearer of two
/// (`Far` on equal keys).
pub open spec fn root_choice(far: Option<u32>, near: Option<u32>) -> Option<Root> {
    match (far, near) {
        (None, None) => None,
        (Some(_), None) => Some(Root::Far),
        (None, Some(_)) => Some(Root::Near),
        (Some(a), Some(b)) => if b < a { Some(Root::Near) } else { Some(Root::Far) },
    }
}

/// Picks the root of a ray/sphere intersection from the two candidates.
pub fn choose_root(far: Option<u32>, near: Option<u32>) -> (r: Option<Root>)
    ensures
        r == root_choice(far, near),
{
    match (far, near) {
        (None, None) => None,
        (Some(_), None) => Some(Root::Far),
        (None, Some(_)) => Some(Root::Near),
        (Some(a), Some(b)) => if b < a { Some(Root::Near) } else { Some(Root::Far) },
    }
}

/// Of two candidates that are both present, the nearer one is chosen; the
/// first one when they are equally near.
pub proof fn lemma_nearer_of_two(a: u32, b: u32)
    ensures
        is_first_nearest(seq![Some(a), Some(b)], if b < a { 1 } else { 0 }),
        forall|i: int| is_first_nearest(seq![Some(a), Some(b)], i)
            ==> i == (if b < a { 1int } else { 0int }),
{
    let c = seq![Some(a), Some(b)];
    assert(c[0] == Some(a) && c[1] == Some(b));
}

} // verus!
