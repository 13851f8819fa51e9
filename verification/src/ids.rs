//! Minting candidate identifiers for new objects.

use vstd::prelude::*;

use crate::record::ObjectRecord;
use crate::resolve::{fresh_ids_ok, ids_view};
use crate::store::Store;

verus! {

/// Relies on `uuid::Uuid::new_v4` and `uuid::Uuid::as_u128`: a freshly
/// generated random version-4 identifier, as its 128-bit value. Nothing is
/// assumed of the value — the caller checks freshness itself.
#[verifier::external_body]
fn mint_pub_id() -> u128 {
    uuid::Uuid::new_v4().as_u128()
}

/// Whether the list already holds the identifier.
fn contains_id(v: &Vec<u128>, x: u128) -> (r: bool)
    ensures
        r == exists|k: int| 0 <= k < v@.len() && v@[k] == x,
{
    let n = v.len();
    let mut i: usize = 0;
    while i < n
        invariant
            n == v.len(),
            i <= n,
            forall|k: int| 0 <= k < i ==> v@[k] != x,
        decreases n - i,
    {
        if v[i] == x {
            return true;
        }
        i += 1;
    }
    proof {
        if exists|k: int| 0 <= k < v@.len() && v@[k] == x {
            let k = choose|k: int| 0 <= k < v@.len() && v@[k] == x;
            assert(false);
        }
    }
    false
}

/// Whether some object row already carries the identifier.
fn object_id_used(objs: &Vec<ObjectRecord>, x: u128) -> (r: bool)
    ensures
        r == exists|j: int| 0 <= j < objs@.len() && (#[trigger] objs@[j]).pub_id == x,
{
    let n = objs.len();
    let mut i: usize = 0;
    while i < n
        invariant
            n == objs.len(),
            i <= n,
            forall|j: int| 0 <= j < i ==> (#[trigger] objs@[j]).pub_id != x,
        decreases n - i,
    {
        if objs[i].pub_id == x {
            return true;
        }
        i += 1;
    }
    proof {
        if exists|j: int| 0 <= j < objs@.len() && (#[trigger] objs@[j]).pub_id == x {
            let j = choose|j: int| 0 <= j < objs@.len() && (#[trigger] objs@[j]).pub_id == x;
            assert(false);
        }
    }
    false
}

/// Mints `count` candidate identifiers for new objects: pairwise distinct
/// and colliding with no object the store already holds. Returns `None` when
/// the generator handed back a collision (vanishingly rare); the caller may
/// simply try again.
pub fn mint_fresh_ids(store: &Store, count: usize) -> (r: Option<Vec<u128>>)
    ensures
        match r {
            Some(ids) => ids@.len() == count && fresh_ids_ok(
                store@,
                ids_view(ids@),
                count as int,
            ),
            None => true,
        },
{
    let mut ids: Vec<u128> = Vec::new();
    let mut i: usize = 0;
    while i < count
        invariant
            i <= count,
            ids@.len() == i,
            forall|k: int, l: int| 0 <= k < l < ids@.len() ==> ids@[k] != ids@[l],
            forall|k: int, j: int|
                0 <= k < ids@.len() && 0 <= j < store.objects@.len() ==> #[trigger] ids@[k] != (
                #[trigger] store.objects@[j]).pub_id,
        decreases count - i,
    {
        let id = mint_pub_id();
        if contains_id(&ids, id) || object_id_used(&store.objects, id) {
            return None;
        }
        ids.push(id);
        i += 1;
    }
    proof {
        assert forall|k: int, l: int|
            0 <= k < l < ids_view(ids@).len() implies #[trigger] ids_view(ids@)[k] != (
        #[trigger] ids_view(ids@)[l]) by {
            assert(ids@[k] != ids@[l]);
        }
        assert forall|k: int, j: int|
            0 <= k < ids_view(ids@).len() && 0 <= j < store@.objects.len() implies
            #[trigger] ids_view(ids@)[k] != (#[trigger] store@.objects[j]).pub_id by {
            assert(store@.objects[j] == store.objects@[j]@);
            assert(ids@[k] != store.objects@[j].pub_id);
        }
    }
    Some(ids)
}

} // verus!
