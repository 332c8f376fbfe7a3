//! Fetching rows by id. The lookups of one request run side by side on one
//! session, so the rows arrive in whatever order the store answers.

use vstd::prelude::*;
use crate::gather::gathered;
use crate::model::{ids_of, in_domain, World};

verus! {

/// Whether `rows` are the rows of `ids`, each id answered as often as it was
/// asked, in any order.
pub open spec fn answers(ids: Seq<i32>, rows: Seq<World>) -> bool {
    ids_of(rows).to_multiset() == ids.to_multiset()
}

/// A fetch of `n` ids of the domain whose round trips all succeed, and that
/// the store answers with the rows asked for, hands out exactly `n` rows,
/// each with an id of the domain.
pub proof fn lemma_fetch_returns_what_was_asked(ids: Seq<i32>, outcomes: Seq<Option<World>>)
    requires
        forall|i: int| 0 <= i < ids.len() ==> in_domain(#[trigger] ids[i] as int),
        gathered(outcomes) matches Some(rows) && answers(ids, rows),
    ensures
        gathered(outcomes) matches Some(rows) && {
            &&& rows.len() == ids.len()
            &&& forall|i: int| 0 <= i < rows.len() ==> (#[trigger] rows[i]).stored()
        },
{
    let rows = gathered(outcomes)->0;
    let fetched = ids_of(rows);
    fetched.to_multiset_ensures();
    ids.to_multiset_ensures();
    assert forall|i: int| 0 <= i < rows.len() implies (#[trigger] rows[i]).stored() by {
        assert(fetched[i] == rows[i].id);
        assert(ids.to_multiset().count(rows[i].id) > 0);
        let k = choose|k: int| 0 <= k < ids.len() && ids[k] == rows[i].id;
        assert(in_domain(ids[k] as int));
    }
}

} // verus!
