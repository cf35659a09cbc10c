use vstd::prelude::*;
use crate::entity::Render;

verus! {

/// Relies on rand::Rng::gen_range over `0..len`: returns an index drawn
/// uniformly below `len`. Nothing more can be promised of a random draw.
#[verifier::external_body]
fn choose_index(len: usize) -> (i: usize)
    requires
        1 <= len,
    ensures
        i < len,
{
    rand::Rng::gen_range(&mut rand::thread_rng(), 0..len)
}

/// Fair-share selection: drops the queue-drained renders, then picks one of
/// the survivors at random. Returns nothing exactly when every render in the
/// queue is drained.
pub fn select_render(renders: Vec<Render>) -> (r: Option<Render>)
    ensures
        r is None <==> (forall|i: int| 0 <= i < renders@.len() ==> renders@[i].spec_drained()),
        r matches Some(x) ==> !x.spec_drained() && exists|i: int|
            0 <= i < renders@.len() && renders@[i] == x,
{
    let mut candidates: Vec<Render> = Vec::new();
    let mut i: usize = 0;
    while i < renders.len()
        invariant
            i <= renders.len(),
            forall|k: int| 0 <= k < candidates@.len() ==> !candidates@[k].spec_drained(),
            forall|k: int| 0 <= k < candidates@.len() ==> exists|j: int|
                0 <= j < renders@.len() && renders@[j] == #[trigger] candidates@[k],
            candidates@.len() == 0 <==> (forall|j: int| 0 <= j < i ==> renders@[j].spec_drained()),
        decreases renders.len() - i,
    {
        if !renders[i].is_queue_drained() {
            candidates.push(renders[i].clone());
        }
        i = i + 1;
    }
    if candidates.len() == 0 {
        return None;
    }
    let k = choose_index(candidates.len());
    let chosen = candidates.remove(k);
    Some(chosen)
}

} // verus!
