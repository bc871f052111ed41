//! The insertion-ordered maps of the `indexmap` crate, as the
//! configuration uses them: from a pattern to a pipeline of plugins, and
//! from a pattern to one plugin.

use crate::config::plugin::{PluginNode, PluginView};
use indexmap::IndexMap;
use vstd::prelude::*;

verus! {

/// `indexmap::IndexMap`, of whose inside nothing is known here: what a map
/// holds is told by the names below.
#[verifier::external_type_specification]
#[verifier::external_body]
#[verifier::reject_recursive_types(K)]
#[verifier::reject_recursive_types(V)]
#[verifier::reject_recursive_types(S)]
pub struct ExIndexMap<K, V, S>(IndexMap<K, V, S>);

/// The entries of a map from patterns to pipelines, in the order of the
/// map.
pub uninterp spec fn pipelines_in(map: IndexMap<String, Vec<PluginNode>>) -> Seq<
    (Seq<char>, Seq<PluginView>),
>;

/// The entries of a map from patterns to plugins, in the order of the map.
pub uninterp spec fn plugins_in(map: IndexMap<String, PluginNode>) -> Seq<(Seq<char>, PluginView)>;

/// What each plugin of a pipeline holds.
pub open spec fn views(plugins: Seq<PluginNode>) -> Seq<PluginView> {
    Seq::new(plugins.len(), |i: int| plugins[i]@)
}

/// The place of the entry for `key` in `entries`, if there is one.
pub open spec fn place_of<V>(entries: Seq<(Seq<char>, V)>, key: Seq<char>) -> Option<int> {
    if exists|i: int| 0 <= i < entries.len() && (#[trigger] entries[i]).0 == key {
        Some(choose|i: int| 0 <= i < entries.len() && (#[trigger] entries[i]).0 == key)
    } else {
        None
    }
}

/// `entries` after `value` is inserted for `key`: in the place of the
/// entry that was there for the key, or at the end.
pub open spec fn inserted<V>(entries: Seq<(Seq<char>, V)>, key: Seq<char>, value: V) -> Seq<
    (Seq<char>, V),
> {
    match place_of(entries, key) {
        Some(i) => entries.update(i, (key, value)),
        None => entries.push((key, value)),
    }
}

/// `a` and `b` hold the same value for the same keys, in whatever order.
pub open spec fn same_entries<V>(a: Seq<(Seq<char>, V)>, b: Seq<(Seq<char>, V)>) -> bool {
    &&& a.len() == b.len()
    &&& forall|i: int|
        0 <= i < a.len() ==> place_of(b, (#[trigger] a[i]).0) is Some && b[place_of(
            b,
            a[i].0,
        )->0].1 == a[i].1
}

/// A map from patterns to pipelines without entries.
///
/// Stands for `IndexMap::new`.
#[verifier::external_body]
pub(crate) fn new_pipelines() -> (map: IndexMap<String, Vec<PluginNode>>)
    ensures
        pipelines_in(map) == Seq::<(Seq<char>, Seq<PluginView>)>::empty(),
{
    IndexMap::new()
}

/// Number of entries of `map`.
///
/// Stands for `IndexMap::len`.
#[verifier::external_body]
pub(crate) fn pipelines_len(map: &IndexMap<String, Vec<PluginNode>>) -> (len: usize)
    ensures
        len == pipelines_in(*map).len(),
{
    map.len()
}

/// The entry of `map` at place `index`.
///
/// Stands for `IndexMap::get_index`.
#[verifier::external_body]
pub(crate) fn pipelines_at(map: &IndexMap<String, Vec<PluginNode>>, index: usize) -> (entry: Option<
    (&String, &Vec<PluginNode>),
>)
    ensures
        match entry {
            Some((key, value)) => index < pipelines_in(*map).len() && pipelines_in(
                *map,
            )[index as int] == (key@, views(value@)),
            None => index >= pipelines_in(*map).len(),
        },
{
    map.get_index(index)
}

/// The pipeline that `map` holds for `key`.
///
/// Stands for `IndexMap::get`.
#[verifier::external_body]
pub(crate) fn pipelines_get<'a>(map: &'a IndexMap<String, Vec<PluginNode>>, key: &String) -> (value:
    Option<&'a Vec<PluginNode>>)
    ensures
        match value {
            Some(found) => place_of(pipelines_in(*map), key@) is Some && pipelines_in(
                *map,
            )[place_of(pipelines_in(*map), key@)->0].1 == views(found@),
            None => place_of(pipelines_in(*map), key@) is None,
        },
{
    map.get(key)
}

/// Inserts `value` for `key`: in the place of the entry that was there for
/// the key, or at the end.
///
/// Stands for `IndexMap::insert`.
#[verifier::external_body]
pub(crate) fn pipelines_insert(
    map: &mut IndexMap<String, Vec<PluginNode>>,
    key: String,
    value: Vec<PluginNode>,
)
    ensures
        pipelines_in(*final(map)) == inserted(pipelines_in(*old(map)), key@, views(value@)),
{
    map.insert(key, value);
}

/// A copy of `map`.
///
/// Stands for `IndexMap::clone`.
#[verifier::external_body]
pub(crate) fn pipelines_clone(map: &IndexMap<String, Vec<PluginNode>>) -> (copy: IndexMap<
    String,
    Vec<PluginNode>,
>)
    ensures
        pipelines_in(copy) == pipelines_in(*map),
{
    map.clone()
}

/// A map from patterns to plugins without entries.
///
/// Stands for `IndexMap::new`.
#[verifier::external_body]
pub(crate) fn new_plugins() -> (map: IndexMap<String, PluginNode>)
    ensures
        plugins_in(map) == Seq::<(Seq<char>, PluginView)>::empty(),
{
    IndexMap::new()
}

/// Number of entries of `map`.
///
/// Stands for `IndexMap::len`.
#[verifier::external_body]
pub(crate) fn plugins_len(map: &IndexMap<String, PluginNode>) -> (len: usize)
    ensures
        len == plugins_in(*map).len(),
{
    map.len()
}

/// The entry of `map` at place `index`.
///
/// Stands for `IndexMap::get_index`.
#[verifier::external_body]
pub(crate) fn plugins_at(map: &IndexMap<String, PluginNode>, index: usize) -> (entry: Option<
    (&String, &PluginNode),
>)
    ensures
        match entry {
            Some((key, value)) => index < plugins_in(*map).len() && plugins_in(*map)[index as int]
                == (key@, value@),
            None => index >= plugins_in(*map).len(),
        },
{
    map.get_index(index)
}

/// The plugin that `map` holds for `key`.
///
/// Stands for `IndexMap::get`.
#[verifier::external_body]
pub(crate) fn plugins_get<'a>(map: &'a IndexMap<String, PluginNode>, key: &String) -> (value: Option<
    &'a PluginNode,
>)
    ensures
        match value {
            Some(found) => place_of(plugins_in(*map), key@) is Some && plugins_in(*map)[place_of(
                plugins_in(*map),
                key@,
            )->0].1 == found@,
            None => place_of(plugins_in(*map), key@) is None,
        },
{
    map.get(key)
}

/// Inserts `value` for `key`: in the place of the entry that was there for
/// the key, or at the end.
///
/// Stands for `IndexMap::insert`.
#[verifier::external_body]
pub(crate) fn plugins_insert(map: &mut IndexMap<String, PluginNode>, key: String, value: PluginNode)
    ensures
        plugins_in(*final(map)) == inserted(plugins_in(*old(map)), key@, value@),
{
    map.insert(key, value);
}

/// A copy of `map`.
///
/// Stands for `IndexMap::clone`.
#[verifier::external_body]
pub(crate) fn plugins_clone(map: &IndexMap<String, PluginNode>) -> (copy: IndexMap<String, PluginNode>)
    ensures
        plugins_in(copy) == plugins_in(*map),
{
    map.clone()
}

} // verus!
