//! The hash maps that the library keeps its tables in. They are the maps of
//! `indexmap` and `ahash`; what is said of them here is taken on trust from
//! their documentation and source, and everything else in the library is
//! proved from it.

use vstd::prelude::*;
use crate::graph::Const;
use crate::model_info::ParamInfo;
use crate::mir::F_ZERO;

verus! {

/// The hash map of `ahash`, of which nothing is known but what the
/// functions below say.
#[verifier::external_type_specification]
#[verifier::external_body]
#[verifier::reject_recursive_types(K)]
#[verifier::reject_recursive_types(V)]
#[verifier::reject_recursive_types(S)]
pub struct ExAHashMap<K, V, S>(ahash::AHashMap<K, V, S>);

/// The state from which `ahash` builds its hashers. The library only
/// names it as the hasher of its maps.
#[verifier::external_type_specification]
#[verifier::external_body]
pub struct ExRandomState(ahash::RandomState);

/// The map of `indexmap`, which keeps its entries in the order in which
/// their keys were inserted. Nothing is known of it but what the functions
/// below say.
#[verifier::external_type_specification]
#[verifier::external_body]
#[verifier::reject_recursive_types(K)]
#[verifier::reject_recursive_types(V)]
#[verifier::reject_recursive_types(S)]
pub struct ExIndexMap<K, V, S>(indexmap::IndexMap<K, V, S>);

/// The parameters that the caller has fixed, each with its constant.
pub uninterp spec fn known_param_values(params: ahash::AHashMap<u32, Const>) -> Map<u32, Const>;

/// `AHashMap::get`, which is `HashMap::get` of std: the constant stored
/// under `param`, or `None` when the map has no such key.
#[verifier::external_body]
pub(crate) fn known_param_get(params: &ahash::AHashMap<u32, Const>, param: u32) -> (res: Option<
    Const,
>)
    ensures
        res == if known_param_values(*params).dom().contains(param) {
            Some(known_param_values(*params)[param])
        } else {
            None
        },
{
    params.get(&param).copied()
}

/// The derivatives that were computed: under `(value, unknown)` the value
/// that holds the derivative of `value` by `unknown`.
pub uninterp spec fn derivative_values(derivatives: ahash::AHashMap<(u32, u32), u32>) -> Map<
    (u32, u32),
    u32,
>;

/// `AHashMap::get`, which is `HashMap::get` of std: the value stored under
/// `(value, unknown)`, or `None` when the map has no such key.
#[verifier::external_body]
pub(crate) fn derivative_get(
    derivatives: &ahash::AHashMap<(u32, u32), u32>,
    value: u32,
    unknown: u32,
) -> (res: Option<u32>)
    ensures
        res == if derivative_values(*derivatives).dom().contains((value, unknown)) {
            Some(derivative_values(*derivatives)[(value, unknown)])
        } else {
            None
        },
{
    derivatives.get(&(value, unknown)).copied()
}

/// The entries of a matrix in the order in which their keys were first
/// inserted: each a `(row, column)` key with the value stored under it.
pub uninterp spec fn entry_seq(
    entries: indexmap::IndexMap<(u32, u32), u32, ahash::RandomState>,
) -> Seq<((u32, u32), u32)>;

/// `IndexMap::default`: a map without entries.
#[verifier::external_body]
pub(crate) fn entries_new() -> (res: indexmap::IndexMap<(u32, u32), u32, ahash::RandomState>)
    ensures
        entry_seq(res) == Seq::<((u32, u32), u32)>::empty(),
{
    indexmap::IndexMap::default()
}

/// `IndexMap::len`: the number of entries.
#[verifier::external_body]
pub(crate) fn entries_len(entries: &indexmap::IndexMap<(u32, u32), u32, ahash::RandomState>) -> (res:
    usize)
    ensures
        res == entry_seq(*entries).len(),
{
    entries.len()
}

/// `IndexMap::get_index_of`: a position at which the map holds `key`, or
/// `None` when it holds the key nowhere.
#[verifier::external_body]
pub(crate) fn entries_get_index_of(
    entries: &indexmap::IndexMap<(u32, u32), u32, ahash::RandomState>,
    key: (u32, u32),
) -> (res: Option<usize>)
    ensures
        match res {
            Some(i) => i < entry_seq(*entries).len() && entry_seq(*entries)[i as int].0 == key,
            None => forall|j: int|
                0 <= j < entry_seq(*entries).len() ==> (#[trigger] entry_seq(*entries)[j]).0
                    != key,
        },
{
    entries.get_index_of(&key)
}

/// `IndexMap::get_index`: the entry at position `index`, or `None` when
/// the map has no such position.
#[verifier::external_body]
pub(crate) fn entries_get_index(
    entries: &indexmap::IndexMap<(u32, u32), u32, ahash::RandomState>,
    index: usize,
) -> (res: Option<((u32, u32), u32)>)
    ensures
        res == if index < entry_seq(*entries).len() {
            Some(entry_seq(*entries)[index as int])
        } else {
            None
        },
{
    entries.get_index(index).map(|(key, value)| (*key, *value))
}

/// `IndexMap::index_mut`, used to store `value` at position `index`: the
/// key there and every other entry stay as they are. It panics on a
/// position that the map does not have.
#[verifier::external_body]
pub(crate) fn entries_set_value(
    entries: &mut indexmap::IndexMap<(u32, u32), u32, ahash::RandomState>,
    index: usize,
    value: u32,
)
    requires
        index < entry_seq(*old(entries)).len(),
    ensures
        entry_seq(*final(entries)) == entry_seq(*old(entries)).update(
            index as int,
            (entry_seq(*old(entries))[index as int].0, value),
        ),
{
    entries[index] = value;
}

/// `IndexMap::insert`. Where the map holds `key`, the entry keeps its
/// position, gets `value`, and the value it had is returned. Where it does
/// not, the entry is added after all others and `None` is returned.
#[verifier::external_body]
pub(crate) fn entries_insert(
    entries: &mut indexmap::IndexMap<(u32, u32), u32, ahash::RandomState>,
    key: (u32, u32),
    value: u32,
) -> (res: Option<u32>)
    ensures
        match res {
            Some(before) => exists|i: int|
                0 <= i < entry_seq(*old(entries)).len() && #[trigger] entry_seq(*old(entries))[i]
                    == (key, before) && entry_seq(*final(entries)) == entry_seq(
                    *old(entries),
                ).update(i, (key, value)),
            None => {
                &&& forall|j: int|
                    0 <= j < entry_seq(*old(entries)).len() ==> (#[trigger] entry_seq(
                        *old(entries),
                    )[j]).0 != key
                &&& entry_seq(*final(entries)) == entry_seq(*old(entries)).push((key, value))
            },
        },
{
    entries.insert(key, value)
}

/// An entry is kept when the matrix is thinned out: its value is not the
/// literal zero.
pub open spec fn spec_keeps_entry(entry: ((u32, u32), u32)) -> bool {
    entry.1 != F_ZERO
}

/// The entries that are kept when the matrix is thinned out, in their
/// order.
pub open spec fn spec_kept(entries: Seq<((u32, u32), u32)>) -> Seq<((u32, u32), u32)> {
    entries.filter(|entry: ((u32, u32), u32)| spec_keeps_entry(entry))
}

/// See [`spec_keeps_entry`].
pub fn keeps_value(value: u32) -> (res: bool)
    ensures
        res == (value != F_ZERO),
{
    value != F_ZERO
}

/// `IndexMap::retain` with [`keeps_value`] as the test: the entries that
/// pass it stay, in their order.
#[verifier::external_body]
pub(crate) fn entries_retain_kept(
    entries: &mut indexmap::IndexMap<(u32, u32), u32, ahash::RandomState>,
)
    ensures
        entry_seq(*final(entries)) == spec_kept(entry_seq(*old(entries))),
{
    entries.retain(|_, value| keeps_value(*value));
}

/// The parameters of a model in the order in which they were first
/// inserted: each the number of a parameter with what is known of it.
pub uninterp spec fn param_seq(params: indexmap::IndexMap<u32, ParamInfo, ahash::RandomState>)
    -> Seq<(u32, ParamInfo)>;

/// `IndexMap::default`: a map without entries.
#[verifier::external_body]
pub(crate) fn params_new() -> (res: indexmap::IndexMap<u32, ParamInfo, ahash::RandomState>)
    ensures
        param_seq(res) == Seq::<(u32, ParamInfo)>::empty(),
{
    indexmap::IndexMap::default()
}

/// `IndexMap::insert`. Where the map holds `param`, the entry keeps its
/// position, gets `info`, and what it held is returned. Where it does
/// not, the entry is added after all others and `None` is returned.
#[verifier::external_body]
pub(crate) fn params_insert(
    params: &mut indexmap::IndexMap<u32, ParamInfo, ahash::RandomState>,
    param: u32,
    info: ParamInfo,
) -> (res: Option<ParamInfo>)
    ensures
        match res {
            Some(before) => exists|i: int|
                0 <= i < param_seq(*old(params)).len() && #[trigger] param_seq(*old(params))[i]
                    == (param, before) && param_seq(*final(params)) == param_seq(
                    *old(params),
                ).update(i, (param, info)),
            None => {
                &&& forall|j: int|
                    0 <= j < param_seq(*old(params)).len() ==> (#[trigger] param_seq(
                        *old(params),
                    )[j]).0 != param
                &&& param_seq(*final(params)) == param_seq(*old(params)).push((param, info))
            },
        },
{
    params.insert(param, info)
}

/// The names of the variables of a model: under the number of a variable
/// the number of its name.
pub uninterp spec fn var_name_map(names: ahash::AHashMap<u32, u32>) -> Map<u32, u32>;

/// `AHashMap::new`: a map without entries.
#[verifier::external_body]
pub(crate) fn var_names_new() -> (res: ahash::AHashMap<u32, u32>)
    ensures
        var_name_map(res).dom() == Set::<u32>::empty(),
{
    ahash::AHashMap::new()
}

/// `AHashMap::insert`, which is `HashMap::insert` of std: afterwards the
/// map holds `name` under `var`, and every other key as before.
#[verifier::external_body]
pub(crate) fn var_names_insert(names: &mut ahash::AHashMap<u32, u32>, var: u32, name: u32)
    ensures
        var_name_map(*final(names)) == var_name_map(*old(names)).insert(var, name),
{
    names.insert(var, name);
}

} // verus!
