//! Semantics of a per-table row collection: an ordered sequence of (id, row)
//! pairs.  Both backends implement their row mutations against these
//! definitions, so the upsert and remove behaviour is specified once.
use vstd::prelude::*;

use crate::entity::ValueV;

verus! {

/// The position of the first pair holding `id`, if any.
pub open spec fn find_row(rows: Seq<(u64, Seq<ValueV>)>, id: u64) -> Option<int>
    decreases rows.len(),
{
    if rows.len() == 0 {
        None
    } else if rows[0].0 == id {
        Some(0int)
    } else {
        match find_row(rows.drop_first(), id) {
            Some(i) => Some(i + 1),
            None => None,
        }
    }
}

/// Upsert: if a pair with `id` is present, it is replaced in place; otherwise
/// the new pair is appended at the back.
pub open spec fn upsert_rows(rows: Seq<(u64, Seq<ValueV>)>, id: u64, row: Seq<ValueV>) -> Seq<
    (u64, Seq<ValueV>),
> {
    match find_row(rows, id) {
        Some(i) => rows.update(i, (id, row)),
        None => rows.push((id, row)),
    }
}

/// Removal by id: the first pair holding `id` is removed, shifting the pairs
/// behind it forward; an absent id leaves the collection unchanged.
pub open spec fn remove_row(rows: Seq<(u64, Seq<ValueV>)>, id: u64) -> Seq<(u64, Seq<ValueV>)> {
    match find_row(rows, id) {
        Some(i) => rows.remove(i),
        None => rows,
    }
}

/// No id occurs twice in the collection.
pub open spec fn unique_ids(rows: Seq<(u64, Seq<ValueV>)>) -> bool {
    forall|i: int, j: int| 0 <= i < j < rows.len() ==> rows[i].0 != rows[j].0
}

/// Every id in the collection is at most `bound`.
pub open spec fn ids_bounded(rows: Seq<(u64, Seq<ValueV>)>, bound: u64) -> bool {
    forall|i: int| 0 <= i < rows.len() ==> #[trigger] rows[i].0 <= bound
}

/// Every row in the collection has exactly `ncols` values.
pub open spec fn rows_aligned(rows: Seq<(u64, Seq<ValueV>)>, ncols: int) -> bool {
    forall|i: int| 0 <= i < rows.len() ==> #[trigger] rows[i].1.len() == ncols
}

/// What `find_row` returns: the first position holding the id, or nothing
/// when the id is absent.
pub proof fn lemma_find_row(rows: Seq<(u64, Seq<ValueV>)>, id: u64)
    ensures
        match find_row(rows, id) {
            Some(i) => 0 <= i < rows.len() && rows[i].0 == id && (forall|j: int|
                0 <= j < i ==> rows[j].0 != id),
            None => forall|j: int| 0 <= j < rows.len() ==> rows[j].0 != id,
        },
    decreases rows.len(),
{
    if rows.len() != 0 && rows[0].0 != id {
        let tail = rows.drop_first();
        lemma_find_row(tail, id);
        assert(forall|j: int| 0 <= j < tail.len() ==> #[trigger] tail[j] == rows[j + 1]);
        match find_row(tail, id) {
            Some(i) => {
                assert(rows[i + 1].0 == id);
                assert forall|j: int| 0 <= j < i + 1 implies rows[j].0 != id by {
                    if j > 0 {
                        assert(tail[j - 1].0 != id);
                    }
                }
            },
            None => {
                assert forall|j: int| 0 <= j < rows.len() implies rows[j].0 != id by {
                    if j > 0 {
                        assert(tail[j - 1].0 != id);
                    }
                }
            },
        }
    }
}

/// `find_row` returns exactly the position that is a first match.
pub proof fn lemma_find_row_at(rows: Seq<(u64, Seq<ValueV>)>, id: u64, i: int)
    requires
        0 <= i < rows.len(),
        rows[i].0 == id,
        forall|j: int| 0 <= j < i ==> rows[j].0 != id,
    ensures
        find_row(rows, id) == Some(i),
{
    lemma_find_row(rows, id);
    match find_row(rows, id) {
        Some(k) => {
            if k < i {
                assert(rows[k].0 != id);
            }
            if i < k {
                assert(rows[i].0 != id);
            }
        },
        None => {
            assert(rows[i].0 != id);
        },
    }
}

/// When no position matches, `find_row` returns nothing.
pub proof fn lemma_find_row_none(rows: Seq<(u64, Seq<ValueV>)>, id: u64)
    requires
        forall|j: int| 0 <= j < rows.len() ==> rows[j].0 != id,
    ensures
        find_row(rows, id) is None,
{
    lemma_find_row(rows, id);
    match find_row(rows, id) {
        Some(i) => {
            assert(rows[i].0 != id);
        },
        None => {},
    }
}

/// Upserting into a collection of unique ids keeps the ids unique, keeps the
/// id order, and leaves exactly one pair holding the upserted id, which holds
/// the new row.  When the id was already present the collection's length and
/// every other pair are unchanged; when it was absent the new pair sits at
/// the back and every prior pair is unchanged.
pub proof fn lemma_upsert_rows(rows: Seq<(u64, Seq<ValueV>)>, id: u64, row: Seq<ValueV>)
    requires
        unique_ids(rows),
    ensures
        unique_ids(upsert_rows(rows, id, row)),
        find_row(rows, id) is Some ==> {
            let i = find_row(rows, id)->Some_0;
            &&& upsert_rows(rows, id, row) == rows.update(i, (id, row))
            &&& upsert_rows(rows, id, row).len() == rows.len()
        },
        find_row(rows, id) is None ==> upsert_rows(rows, id, row) == rows.push((id, row)),
        exists|i: int|
            {
                &&& 0 <= i < upsert_rows(rows, id, row).len()
                &&& upsert_rows(rows, id, row)[i] == (id, row)
                &&& forall|j: int|
                    0 <= j < upsert_rows(rows, id, row).len() && j != i ==> upsert_rows(
                        rows,
                        id,
                        row,
                    )[j].0 != id
            },
{
    lemma_find_row(rows, id);
    let out = upsert_rows(rows, id, row);
    match find_row(rows, id) {
        Some(i) => {
            assert(out[i] == (id, row));
            assert forall|j: int| 0 <= j < out.len() && j != i implies out[j].0 != id by {
                assert(out[j] == rows[j]);
                if j > i {
                    assert(rows[i].0 == id);
                }
            }
        },
        None => {
            let i = rows.len() as int;
            assert(out[i] == (id, row));
            assert forall|j: int| 0 <= j < out.len() && j != i implies out[j].0 != id by {
                assert(out[j] == rows[j]);
            }
        },
    }
}

/// Removing an id from a collection of unique ids keeps the ids unique and
/// leaves no pair holding the removed id; every other pair survives in order.
pub proof fn lemma_remove_row(rows: Seq<(u64, Seq<ValueV>)>, id: u64)
    requires
        unique_ids(rows),
    ensures
        unique_ids(remove_row(rows, id)),
        forall|j: int|
            0 <= j < remove_row(rows, id).len() ==> #[trigger] remove_row(rows, id)[j].0 != id,
        find_row(rows, id) is None ==> remove_row(rows, id) == rows,
        find_row(rows, id) is Some ==> remove_row(rows, id) == rows.remove(
            find_row(rows, id)->Some_0,
        ),
{
    lemma_find_row(rows, id);
    let out = remove_row(rows, id);
    match find_row(rows, id) {
        Some(i) => {
            assert forall|j: int| 0 <= j < out.len() implies out[j].0 != id by {
                if j < i {
                    assert(out[j] == rows[j]);
                } else {
                    assert(out[j] == rows[j + 1]);
                    assert(rows[i].0 == id);
                }
            }
            assert forall|p: int, q: int| 0 <= p < q < out.len() implies out[p].0 != out[q].0 by {
                let p1 = if p < i {
                    p
                } else {
                    p + 1
                };
                let q1 = if q < i {
                    q
                } else {
                    q + 1
                };
                assert(out[p] == rows[p1]);
                assert(out[q] == rows[q1]);
            }
        },
        None => {},
    }
}

} // verus!
