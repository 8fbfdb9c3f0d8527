//! Trusted declarations for the persistent (structurally shared) collections
//! of the `im` crate that the in-process backend stores its tables in.
//!
//! The collections are opaque to the verifier.  Two uninterpreted functions
//! name their contents (a map of schemas by table name, a map of ordered row
//! collections by table name, a sequence of (id, row) pairs), and each
//! operation the backend calls gets a small trusted wrapper whose contract
//! states, over those names, what the `im` source shows the operation does.
use vstd::prelude::*;

use crate::entity::{Row, Schema, SchemaV, ValueV};

verus! {

#[verifier::external_type_specification]
#[verifier::external_body]
#[verifier::reject_recursive_types(K)]
#[verifier::reject_recursive_types(V)]
#[verifier::reject_recursive_types(S)]
pub struct ExHashMap<K, V, S>(im::HashMap<K, V, S>);

#[verifier::external_type_specification]
#[verifier::external_body]
#[verifier::reject_recursive_types(A)]
pub struct ExVector<A>(im::Vector<A>);

/// The contents of a per-table row collection: the ordered sequence of
/// (id, row) pairs it holds, front to back.
pub uninterp spec fn row_vec_view(v: im::Vector<(u64, Row)>) -> Seq<(u64, Seq<ValueV>)>;

/// The contents of a schema map: which schema is stored under which table name.
pub uninterp spec fn schema_map_view(m: im::HashMap<String, Schema>) -> Map<Seq<char>, SchemaV>;

/// The contents of a data map: which row collection is stored under which
/// table name.
pub uninterp spec fn data_map_view(m: im::HashMap<String, im::Vector<(u64, Row)>>) -> Map<
    Seq<char>,
    Seq<(u64, Seq<ValueV>)>,
>;

/// The empty schema map contents.
pub open spec fn empty_schema_map() -> Map<Seq<char>, SchemaV> {
    Map::empty()
}

/// The empty data map contents.
pub open spec fn empty_data_map() -> Map<Seq<char>, Seq<(u64, Seq<ValueV>)>> {
    Map::empty()
}

/// Relies on `im::HashMap::new`: an empty map.
#[verifier::external_body]
pub(crate) fn sm_new() -> (r: im::HashMap<String, Schema>)
    ensures
        schema_map_view(r) == empty_schema_map(),
{
    im::HashMap::new()
}

/// Relies on `im::HashMap::get`: the value stored under the key, if any.
#[verifier::external_body]
pub(crate) fn sm_get<'a>(m: &'a im::HashMap<String, Schema>, k: &str) -> (r: Option<&'a Schema>)
    ensures
        match r {
            Some(s) => schema_map_view(*m).contains_key(k@) && s@ == schema_map_view(*m)[k@],
            None => !schema_map_view(*m).contains_key(k@),
        },
{
    m.get(k)
}

/// Relies on `im::HashMap::update`: a new map with the binding added or
/// replaced; the receiver is unchanged.
#[verifier::external_body]
pub(crate) fn sm_update(m: &im::HashMap<String, Schema>, k: String, v: Schema) -> (r: im::HashMap<
    String,
    Schema,
>)
    ensures
        schema_map_view(r) == schema_map_view(*m).insert(k@, v@),
{
    m.update(k, v)
}

/// Relies on `im::HashMap::remove`: removes the binding if present.
#[verifier::external_body]
pub(crate) fn sm_remove(m: &mut im::HashMap<String, Schema>, k: &str)
    ensures
        schema_map_view(*final(m)) == schema_map_view(*old(m)).remove(k@),
{
    m.remove(k);
}

/// Relies on `im::HashMap::new`: an empty map.
#[verifier::external_body]
pub(crate) fn dm_new() -> (r: im::HashMap<String, im::Vector<(u64, Row)>>)
    ensures
        data_map_view(r) == empty_data_map(),
{
    im::HashMap::new()
}

/// Relies on `im::HashMap::get`: the value stored under the key, if any.
#[verifier::external_body]
pub(crate) fn dm_get<'a>(m: &'a im::HashMap<String, im::Vector<(u64, Row)>>, k: &str) -> (r: Option<
    &'a im::Vector<(u64, Row)>,
>)
    ensures
        match r {
            Some(v) => data_map_view(*m).contains_key(k@) && row_vec_view(*v) == data_map_view(
                *m,
            )[k@],
            None => !data_map_view(*m).contains_key(k@),
        },
{
    m.get(k)
}

/// Relies on `im::HashMap::update`: a new map with the binding added or
/// replaced; the receiver is unchanged.
#[verifier::external_body]
pub(crate) fn dm_update(
    m: &im::HashMap<String, im::Vector<(u64, Row)>>,
    k: String,
    v: im::Vector<(u64, Row)>,
) -> (r: im::HashMap<String, im::Vector<(u64, Row)>>)
    ensures
        data_map_view(r) == data_map_view(*m).insert(k@, row_vec_view(v)),
{
    m.update(k, v)
}

/// Relies on `im::HashMap::remove`: removes the binding if present.
#[verifier::external_body]
pub(crate) fn dm_remove(m: &mut im::HashMap<String, im::Vector<(u64, Row)>>, k: &str)
    ensures
        data_map_view(*final(m)) == data_map_view(*old(m)).remove(k@),
{
    m.remove(k);
}

/// Relies on `im::HashMap::extract`: removes the binding if present and
/// returns the removed value together with the map without it.
#[verifier::external_body]
pub(crate) fn dm_extract(m: &im::HashMap<String, im::Vector<(u64, Row)>>, k: &str) -> (r: Option<
    (im::Vector<(u64, Row)>, im::HashMap<String, im::Vector<(u64, Row)>>),
>)
    ensures
        match r {
            Some(p) => data_map_view(*m).contains_key(k@) && row_vec_view(p.0) == data_map_view(
                *m,
            )[k@] && data_map_view(p.1) == data_map_view(*m).remove(k@),
            None => !data_map_view(*m).contains_key(k@),
        },
{
    m.extract(k)
}

/// Relies on `im::Vector::new`: an empty vector.
#[verifier::external_body]
pub(crate) fn rv_new() -> (v: im::Vector<(u64, Row)>)
    ensures
        row_vec_view(v) == Seq::<(u64, Seq<ValueV>)>::empty(),
{
    im::Vector::new()
}

/// Relies on `im::Vector::len`: the number of items held.
#[verifier::external_body]
pub(crate) fn rv_len(v: &im::Vector<(u64, Row)>) -> (n: usize)
    ensures
        n == row_vec_view(*v).len(),
{
    v.len()
}

/// Relies on `im::Vector::get`: the item at the index.
#[verifier::external_body]
pub(crate) fn rv_get<'a>(v: &'a im::Vector<(u64, Row)>, i: usize) -> (r: &'a (u64, Row))
    requires
        i < row_vec_view(*v).len(),
    ensures
        r.0 == row_vec_view(*v)[i as int].0,
        r.1@ == row_vec_view(*v)[i as int].1,
{
    v.get(i).unwrap()
}

/// Relies on `im::Vector::update`: a new vector with the item at the index
/// replaced; the receiver is unchanged.
#[verifier::external_body]
pub(crate) fn rv_update(v: &im::Vector<(u64, Row)>, i: usize, id: u64, row: Row) -> (r: im::Vector<
    (u64, Row),
>)
    requires
        i < row_vec_view(*v).len(),
    ensures
        row_vec_view(r) == row_vec_view(*v).update(i as int, (id, row@)),
{
    v.update(i, (id, row))
}

/// Relies on `im::Vector::push_back`: appends an item at the back.
#[verifier::external_body]
pub(crate) fn rv_push(v: &mut im::Vector<(u64, Row)>, id: u64, row: Row)
    ensures
        row_vec_view(*final(v)) == row_vec_view(*old(v)).push((id, row@)),
{
    v.push_back((id, row));
}

/// Relies on `im::Vector::remove`: removes the item at the index, shifting
/// the items behind it forward.
#[verifier::external_body]
pub(crate) fn rv_remove(v: &mut im::Vector<(u64, Row)>, i: usize)
    requires
        i < row_vec_view(*v).len(),
    ensures
        row_vec_view(*final(v)) == row_vec_view(*old(v)).remove(i as int),
{
    v.remove(i);
}

} // verus!
