//! The configuration as one `.parcelrc` file gives it, and how the
//! configuration of a file is merged with the one that it builds on.

use crate::config::ordered::{
    inserted, new_pipelines, new_plugins, pipelines_at, pipelines_clone, pipelines_get,
    pipelines_in, pipelines_insert, pipelines_len, place_of, plugins_at, plugins_clone,
    plugins_get, plugins_in, plugins_insert, plugins_len, same_entries, views,
};
use crate::config::parcel_rc::{texts, ParcelRcFile};
use crate::config::plugin::{append_plugins, PluginNode, PluginView};
use crate::text::same_text;
use indexmap::IndexMap;
use std::rc::Rc;
use vstd::prelude::*;

verus! {

/// The name that stands, in a pipeline, for the pipeline of the
/// configuration that is built on.
pub open spec fn spread() -> Seq<char> {
    seq!['.', '.', '.']
}

/// Plugin `i` is the first of `plugins` that is the spread.
pub open spec fn first_spread(plugins: Seq<PluginView>, i: int) -> bool {
    &&& 0 <= i < plugins.len()
    &&& plugins[i].package_name == spread()
    &&& forall|j: int| 0 <= j < i ==> (#[trigger] plugins[j]).package_name != spread()
}

/// The pipeline `from` of a configuration, merged with the pipeline
/// `extend` of the one that it builds on: where either is empty, the other;
/// else `from`, with `extend` in the place of its first spread if it has
/// one.
pub open spec fn merged_pipelines(from: Seq<PluginView>, extend: Seq<PluginView>) -> Seq<
    PluginView,
> {
    if extend.len() == 0 {
        from
    } else if from.len() == 0 {
        extend
    } else if exists|i: int| first_spread(from, i) {
        let i = choose|i: int| first_spread(from, i);
        from.subrange(0, i) + extend + from.subrange(i + 1, from.len() as int)
    } else {
        from
    }
}

/// The entries that the first `upto` entries of `extend` give to a merged
/// map: each with its key, and with its value merged into the value that
/// `map` has for the key, where it has one.
pub open spec fn extended_entries<V>(
    map: Seq<(Seq<char>, V)>,
    extend: Seq<(Seq<char>, V)>,
    merge: spec_fn(V, V) -> V,
    upto: int,
) -> Seq<(Seq<char>, V)>
    decreases upto,
{
    if upto <= 0 {
        Seq::empty()
    } else {
        inserted(
            extended_entries(map, extend, merge, upto - 1),
            extend[upto - 1].0,
            match place_of(map, extend[upto - 1].0) {
                Some(j) => merge(map[j].1, extend[upto - 1].1),
                None => extend[upto - 1].1,
            },
        )
    }
}

/// `merged`, followed by those of the first `upto` entries of `map` whose
/// key `extend` does not have.
pub open spec fn with_remaining<V>(
    merged: Seq<(Seq<char>, V)>,
    map: Seq<(Seq<char>, V)>,
    extend: Seq<(Seq<char>, V)>,
    upto: int,
) -> Seq<(Seq<char>, V)>
    decreases upto,
{
    if upto <= 0 {
        merged
    } else if place_of(extend, map[upto - 1].0) is None {
        inserted(with_remaining(merged, map, extend, upto - 1), map[upto - 1].0, map[upto - 1].1)
    } else {
        with_remaining(merged, map, extend, upto - 1)
    }
}

/// The map `map` of a configuration, merged with the map `extend` of the
/// one that it builds on: where either is empty, the other; else the
/// entries of `extend`, each merged with the entry that `map` has for its
/// key, and then the other entries of `map`.
pub open spec fn merged_map<V>(
    map: Seq<(Seq<char>, V)>,
    extend: Seq<(Seq<char>, V)>,
    merge: spec_fn(V, V) -> V,
) -> Seq<(Seq<char>, V)> {
    if extend.len() == 0 {
        map
    } else if map.len() == 0 {
        extend
    } else {
        with_remaining(
            extended_entries(map, extend, merge, extend.len() as int),
            map,
            extend,
            map.len() as int,
        )
    }
}

/// A copy of `plugins`.
pub fn clone_plugins(plugins: &Vec<PluginNode>) -> (copy: Vec<PluginNode>)
    ensures
        views(copy@) == views(plugins@),
{
    let mut copy: Vec<PluginNode> = Vec::new();
    assert(views(copy@) =~= Seq::<PluginView>::empty());
    append_plugins(&mut copy, plugins);
    assert(views(copy@) =~= views(plugins@));
    copy
}

/// Merges the pipeline `from` of a configuration with the pipeline
/// `extend` of the one that it builds on.
pub fn merge_pipelines(from: Vec<PluginNode>, extend: Vec<PluginNode>) -> (merged: Vec<PluginNode>)
    ensures
        views(merged@) == merged_pipelines(views(from@), views(extend@)),
{
    if extend.len() == 0 {
        return from;
    }
    if from.len() == 0 {
        return extend;
    }
    let mut at: usize = 0;
    let mut found = false;
    while at < from.len() && !found
        invariant
            at <= from@.len(),
            forall|j: int| 0 <= j < at ==> (#[trigger] views(from@)[j]).package_name != spread(),
            found ==> at < from@.len() && views(from@)[at as int].package_name == spread(),
        decreases from@.len() - at + if found { 0int } else { 1int },
    {
        proof {
            reveal_strlit("...");
            assert("..."@ =~= spread());
        }
        if same_text(from[at].package_name.as_str(), "...") {
            found = true;
        } else {
            at += 1;
        }
    }
    if !found {
        proof {
            assert forall|i: int| !first_spread(views(from@), i) by {
                if first_spread(views(from@), i) {
                    assert(views(from@)[i].package_name != spread());
                }
            }
        }
        return from;
    }
    proof {
        assert(first_spread(views(from@), at as int));
        let c = choose|c: int| first_spread(views(from@), c);
        assert(c == at) by {
            if c < at {
                assert(views(from@)[c].package_name != spread());
            }
            if at < c {
                assert(views(from@)[at as int].package_name != spread());
            }
        }
    }
    let mut merged: Vec<PluginNode> = Vec::new();
    let mut i: usize = 0;
    assert(views(merged@) =~= views(from@).subrange(0, 0));
    while i < at
        invariant
            i <= at < from@.len(),
            views(merged@) == views(from@).subrange(0, i as int),
        decreases at - i,
    {
        let ghost before = merged@;
        merged.push(from[i].clone());
        assert(views(merged@) =~= views(before).push(from@[i as int]@));
        assert(views(merged@) =~= views(from@).subrange(0, i + 1));
        i += 1;
    }
    append_plugins(&mut merged, &extend);
    i = at + 1;
    assert(views(merged@) =~= views(from@).subrange(0, at as int) + views(extend@) + views(
        from@,
    ).subrange(at + 1, i as int));
    while i < from.len()
        invariant
            at < i <= from@.len(),
            views(merged@) == views(from@).subrange(0, at as int) + views(extend@) + views(
                from@,
            ).subrange(at + 1, i as int),
        decreases from@.len() - i,
    {
        let ghost before = merged@;
        merged.push(from[i].clone());
        assert(views(merged@) =~= views(before).push(from@[i as int]@));
        assert(views(merged@) =~= views(from@).subrange(0, at as int) + views(extend@) + views(
            from@,
        ).subrange(at + 1, i + 1));
        i += 1;
    }
    merged
}

/// How two pipelines for one pattern are merged.
pub open spec fn by_pipeline() -> spec_fn(Seq<PluginView>, Seq<PluginView>) -> Seq<PluginView> {
    |from: Seq<PluginView>, extend: Seq<PluginView>| merged_pipelines(from, extend)
}

/// How two plugins for one pattern are merged: the one of the configuration
/// itself stays.
pub open spec fn by_plugin() -> spec_fn(PluginView, PluginView) -> PluginView {
    |from: PluginView, extend: PluginView| from
}

/// Merges the map `map` of a configuration, from patterns to pipelines,
/// with the map `extend` of the one that it builds on.
pub fn merge_pipelines_map(
    map: IndexMap<String, Vec<PluginNode>>,
    extend: IndexMap<String, Vec<PluginNode>>,
) -> (merged: IndexMap<String, Vec<PluginNode>>)
    ensures
        pipelines_in(merged) == merged_map(pipelines_in(map), pipelines_in(extend), by_pipeline()),
{
    let extend_len = pipelines_len(&extend);
    let map_len = pipelines_len(&map);
    if extend_len == 0 {
        return map;
    }
    if map_len == 0 {
        return extend;
    }
    let ghost mine = pipelines_in(map);
    let ghost theirs = pipelines_in(extend);
    let mut merged = new_pipelines();
    let mut i: usize = 0;
    while i < extend_len
        invariant
            mine == pipelines_in(map),
            theirs == pipelines_in(extend),
            extend_len == theirs.len(),
            i <= extend_len,
            pipelines_in(merged) == extended_entries(mine, theirs, by_pipeline(), i as int),
        decreases extend_len - i,
    {
        match pipelines_at(&extend, i) {
            Some((pattern, pipeline)) => {
                let value = match pipelines_get(&map, pattern) {
                    Some(own) => merge_pipelines(clone_plugins(own), clone_plugins(pipeline)),
                    None => clone_plugins(pipeline),
                };
                pipelines_insert(&mut merged, pattern.clone(), value);
            },
            None => {},
        }
        i += 1;
    }
    let ghost first = pipelines_in(merged);
    let mut k: usize = 0;
    while k < map_len
        invariant
            mine == pipelines_in(map),
            theirs == pipelines_in(extend),
            map_len == mine.len(),
            k <= map_len,
            pipelines_in(merged) == with_remaining(first, mine, theirs, k as int),
        decreases map_len - k,
    {
        match pipelines_at(&map, k) {
            Some((pattern, pipeline)) => {
                if pipelines_get(&extend, pattern).is_none() {
                    pipelines_insert(&mut merged, pattern.clone(), clone_plugins(pipeline));
                }
            },
            None => {},
        }
        k += 1;
    }
    merged
}

/// Merges the map `map` of a configuration, from patterns to plugins, with
/// the map `extend` of the one that it builds on.
pub fn merge_pipeline_map(
    map: IndexMap<String, PluginNode>,
    extend: IndexMap<String, PluginNode>,
) -> (merged: IndexMap<String, PluginNode>)
    ensures
        plugins_in(merged) == merged_map(plugins_in(map), plugins_in(extend), by_plugin()),
{
    let extend_len = plugins_len(&extend);
    let map_len = plugins_len(&map);
    if extend_len == 0 {
        return map;
    }
    if map_len == 0 {
        return extend;
    }
    let ghost mine = plugins_in(map);
    let ghost theirs = plugins_in(extend);
    let mut merged = new_plugins();
    let mut i: usize = 0;
    while i < extend_len
        invariant
            mine == plugins_in(map),
            theirs == plugins_in(extend),
            extend_len == theirs.len(),
            i <= extend_len,
            plugins_in(merged) == extended_entries(mine, theirs, by_plugin(), i as int),
        decreases extend_len - i,
    {
        match plugins_at(&extend, i) {
            Some((pattern, plugin)) => {
                let value = match plugins_get(&map, pattern) {
                    Some(own) => own.clone(),
                    None => plugin.clone(),
                };
                plugins_insert(&mut merged, pattern.clone(), value);
            },
            None => {},
        }
        i += 1;
    }
    let ghost first = plugins_in(merged);
    let mut k: usize = 0;
    while k < map_len
        invariant
            mine == plugins_in(map),
            theirs == plugins_in(extend),
            map_len == mine.len(),
            k <= map_len,
            plugins_in(merged) == with_remaining(first, mine, theirs, k as int),
        decreases map_len - k,
    {
        match plugins_at(&map, k) {
            Some((pattern, plugin)) => {
                if plugins_get(&extend, pattern).is_none() {
                    plugins_insert(&mut merged, pattern.clone(), plugin.clone());
                }
            },
            None => {},
        }
        k += 1;
    }
    merged
}

/// What a `PartialParcelConfig` holds.
pub struct PartialView {
    pub bundler: Option<PluginView>,
    pub compressors: Seq<(Seq<char>, Seq<PluginView>)>,
    pub namers: Seq<PluginView>,
    pub optimizers: Seq<(Seq<char>, Seq<PluginView>)>,
    pub packagers: Seq<(Seq<char>, PluginView)>,
    pub reporters: Seq<PluginView>,
    pub resolvers: Seq<PluginView>,
    pub runtimes: Seq<PluginView>,
    pub transformers: Seq<(Seq<char>, Seq<PluginView>)>,
    pub validators: Seq<(Seq<char>, Seq<PluginView>)>,
}

/// The configuration that one file gives, or several merged: every part
/// may still be missing, and a pipeline may still hold a spread.
#[derive(Debug)]
pub struct PartialParcelConfig {
    pub bundler: Option<PluginNode>,
    pub compressors: IndexMap<String, Vec<PluginNode>>,
    pub namers: Vec<PluginNode>,
    pub optimizers: IndexMap<String, Vec<PluginNode>>,
    pub packagers: IndexMap<String, PluginNode>,
    pub reporters: Vec<PluginNode>,
    pub resolvers: Vec<PluginNode>,
    pub runtimes: Vec<PluginNode>,
    pub transformers: IndexMap<String, Vec<PluginNode>>,
    pub validators: IndexMap<String, Vec<PluginNode>>,
}

impl View for PartialParcelConfig {
    type V = PartialView;

    open spec fn view(&self) -> PartialView {
        PartialView {
            bundler: match self.bundler {
                Some(plugin) => Some(plugin@),
                None => None,
            },
            compressors: pipelines_in(self.compressors),
            namers: views(self.namers@),
            optimizers: pipelines_in(self.optimizers),
            packagers: plugins_in(self.packagers),
            reporters: views(self.reporters@),
            resolvers: views(self.resolvers@),
            runtimes: views(self.runtimes@),
            transformers: pipelines_in(self.transformers),
            validators: pipelines_in(self.validators),
        }
    }
}

/// The configuration without any part.
pub open spec fn empty_config() -> PartialView {
    PartialView {
        bundler: None,
        compressors: Seq::empty(),
        namers: Seq::empty(),
        optimizers: Seq::empty(),
        packagers: Seq::empty(),
        reporters: Seq::empty(),
        resolvers: Seq::empty(),
        runtimes: Seq::empty(),
        transformers: Seq::empty(),
        validators: Seq::empty(),
    }
}

/// The configuration `from`, merged with the configuration `extend` that
/// it builds on: part by part, and in every part what `from` says goes
/// before what `extend` says.
pub open spec fn merged_config(from: PartialView, extend: PartialView) -> PartialView {
    PartialView {
        bundler: if from.bundler is Some {
            from.bundler
        } else {
            extend.bundler
        },
        compressors: merged_map(from.compressors, extend.compressors, by_pipeline()),
        namers: merged_pipelines(from.namers, extend.namers),
        optimizers: merged_map(from.optimizers, extend.optimizers, by_pipeline()),
        packagers: merged_map(from.packagers, extend.packagers, by_plugin()),
        reporters: merged_pipelines(from.reporters, extend.reporters),
        resolvers: merged_pipelines(from.resolvers, extend.resolvers),
        runtimes: merged_pipelines(from.runtimes, extend.runtimes),
        transformers: merged_map(from.transformers, extend.transformers, by_pipeline()),
        validators: merged_map(from.validators, extend.validators, by_pipeline()),
    }
}

/// Two configurations say the same: their maps may differ in the order of
/// their entries, nothing else may differ.
pub open spec fn same_config(a: PartialView, b: PartialView) -> bool {
    &&& a.bundler == b.bundler
    &&& same_entries(a.compressors, b.compressors)
    &&& a.namers == b.namers
    &&& same_entries(a.optimizers, b.optimizers)
    &&& same_entries(a.packagers, b.packagers)
    &&& a.reporters == b.reporters
    &&& a.resolvers == b.resolvers
    &&& a.runtimes == b.runtimes
    &&& same_entries(a.transformers, b.transformers)
    &&& same_entries(a.validators, b.validators)
}

/// Two lists of plugins are equal as `==` on `Vec` has it exactly when they
/// hold the same.
pub proof fn lemma_plugins_equal(a: Vec<PluginNode>, b: Vec<PluginNode>)
    ensures
        vstd::std_specs::cmp::PartialEqSpec::eq_spec(&a, &b) <==> views(a@) == views(b@),
{
    if vstd::std_specs::cmp::PartialEqSpec::eq_spec(&a, &b) {
        assert(views(a@) =~= views(b@));
    }
    if views(a@) == views(b@) {
        assert(a@.len() == views(a@).len());
        assert(b@.len() == views(b@).len());
        assert forall|i: int| 0 <= i < a.len() implies vstd::std_specs::cmp::PartialEqSpec::eq_spec(
            &#[trigger] a[i],
            &b[i],
        ) by {
            assert(views(a@)[i] == views(b@)[i]);
        }
    }
}

/// Tells whether two lists of plugins hold the same.
pub fn same_plugins(a: &Vec<PluginNode>, b: &Vec<PluginNode>) -> (same: bool)
    ensures
        same == (views(a@) == views(b@)),
{
    proof {
        lemma_plugins_equal(*a, *b);
    }
    *a == *b
}

/// Tells whether two maps hold the same pipeline for the same patterns, in
/// whatever order.
pub fn pipelines_eq(
    a: &IndexMap<String, Vec<PluginNode>>,
    b: &IndexMap<String, Vec<PluginNode>>,
) -> (equal: bool)
    ensures
        equal == same_entries(pipelines_in(*a), pipelines_in(*b)),
{
    let len = pipelines_len(a);
    if len != pipelines_len(b) {
        return false;
    }
    let ghost mine = pipelines_in(*a);
    let ghost theirs = pipelines_in(*b);
    let mut i: usize = 0;
    while i < len
        invariant
            mine == pipelines_in(*a),
            theirs == pipelines_in(*b),
            len == mine.len(),
            len == theirs.len(),
            i <= len,
            forall|k: int|
                0 <= k < i ==> place_of(theirs, (#[trigger] mine[k]).0) is Some && theirs[place_of(
                    theirs,
                    mine[k].0,
                )->0].1 == mine[k].1,
        decreases len - i,
    {
        match pipelines_at(a, i) {
            Some((pattern, pipeline)) => {
                let same = match pipelines_get(b, pattern) {
                    Some(other) => same_plugins(pipeline, other),
                    None => false,
                };
                if !same {
                    assert(!(place_of(theirs, mine[i as int].0) is Some && theirs[place_of(
                        theirs,
                        mine[i as int].0,
                    )->0].1 == mine[i as int].1));
                    return false;
                }
            },
            None => {},
        }
        i += 1;
    }
    true
}

/// Tells whether two maps hold the same plugin for the same patterns, in
/// whatever order.
pub fn plugins_eq(a: &IndexMap<String, PluginNode>, b: &IndexMap<String, PluginNode>) -> (equal:
    bool)
    ensures
        equal == same_entries(plugins_in(*a), plugins_in(*b)),
{
    let len = plugins_len(a);
    if len != plugins_len(b) {
        return false;
    }
    let ghost mine = plugins_in(*a);
    let ghost theirs = plugins_in(*b);
    let mut i: usize = 0;
    while i < len
        invariant
            mine == plugins_in(*a),
            theirs == plugins_in(*b),
            len == mine.len(),
            len == theirs.len(),
            i <= len,
            forall|k: int|
                0 <= k < i ==> place_of(theirs, (#[trigger] mine[k]).0) is Some && theirs[place_of(
                    theirs,
                    mine[k].0,
                )->0].1 == mine[k].1,
        decreases len - i,
    {
        match plugins_at(a, i) {
            Some((pattern, plugin)) => {
                let same = match plugins_get(b, pattern) {
                    Some(other) => *plugin == *other,
                    None => false,
                };
                if !same {
                    assert(!(place_of(theirs, mine[i as int].0) is Some && theirs[place_of(
                        theirs,
                        mine[i as int].0,
                    )->0].1 == mine[i as int].1));
                    return false;
                }
            },
            None => {},
        }
        i += 1;
    }
    true
}

impl PartialParcelConfig {
    /// Merges the configuration `from_config` with the configuration
    /// `extend_config` that it builds on.
    pub fn merge(from_config: PartialParcelConfig, extend_config: PartialParcelConfig) -> (merged:
        PartialParcelConfig)
        ensures
            merged@ == merged_config(from_config@, extend_config@),
    {
        PartialParcelConfig {
            bundler: match from_config.bundler {
                Some(plugin) => Some(plugin),
                None => extend_config.bundler,
            },
            compressors: merge_pipelines_map(from_config.compressors, extend_config.compressors),
            namers: merge_pipelines(from_config.namers, extend_config.namers),
            optimizers: merge_pipelines_map(from_config.optimizers, extend_config.optimizers),
            packagers: merge_pipeline_map(from_config.packagers, extend_config.packagers),
            reporters: merge_pipelines(from_config.reporters, extend_config.reporters),
            resolvers: merge_pipelines(from_config.resolvers, extend_config.resolvers),
            runtimes: merge_pipelines(from_config.runtimes, extend_config.runtimes),
            transformers: merge_pipelines_map(from_config.transformers, extend_config.transformers),
            validators: merge_pipelines_map(from_config.validators, extend_config.validators),
        }
    }
}

impl Default for PartialParcelConfig {
    fn default() -> (config: Self)
        ensures
            config@ == empty_config(),
    {
        let config = PartialParcelConfig {
            bundler: None,
            compressors: new_pipelines(),
            namers: Vec::new(),
            optimizers: new_pipelines(),
            packagers: new_plugins(),
            reporters: Vec::new(),
            resolvers: Vec::new(),
            runtimes: Vec::new(),
            transformers: new_pipelines(),
            validators: new_pipelines(),
        };
        proof {
            assert(views(config.namers@) =~= Seq::<PluginView>::empty());
            assert(views(config.reporters@) =~= Seq::<PluginView>::empty());
            assert(views(config.resolvers@) =~= Seq::<PluginView>::empty());
            assert(views(config.runtimes@) =~= Seq::<PluginView>::empty());
        }
        config
    }
}

impl Clone for PartialParcelConfig {
    fn clone(&self) -> (copy: Self)
        ensures
            copy@ == self@,
    {
        PartialParcelConfig {
            bundler: match &self.bundler {
                Some(plugin) => Some(plugin.clone()),
                None => None,
            },
            compressors: pipelines_clone(&self.compressors),
            namers: clone_plugins(&self.namers),
            optimizers: pipelines_clone(&self.optimizers),
            packagers: plugins_clone(&self.packagers),
            reporters: clone_plugins(&self.reporters),
            resolvers: clone_plugins(&self.resolvers),
            runtimes: clone_plugins(&self.runtimes),
            transformers: pipelines_clone(&self.transformers),
            validators: pipelines_clone(&self.validators),
        }
    }
}

impl PartialEq for PartialParcelConfig {
    fn eq(&self, other: &Self) -> (equal: bool) {
        let same_bundler = match (&self.bundler, &other.bundler) {
            (None, None) => true,
            (Some(mine), Some(theirs)) => *mine == *theirs,
            _ => false,
        };
        same_bundler && pipelines_eq(&self.compressors, &other.compressors) && same_plugins(
            &self.namers,
            &other.namers,
        ) && pipelines_eq(&self.optimizers, &other.optimizers) && plugins_eq(
            &self.packagers,
            &other.packagers,
        ) && same_plugins(&self.reporters, &other.reporters) && same_plugins(
            &self.resolvers,
            &other.resolvers,
        ) && same_plugins(&self.runtimes, &other.runtimes) && pipelines_eq(
            &self.transformers,
            &other.transformers,
        ) && pipelines_eq(&self.validators, &other.validators)
    }
}

impl vstd::std_specs::cmp::PartialEqSpecImpl for PartialParcelConfig {
    open spec fn obeys_eq_spec() -> bool {
        true
    }

    open spec fn eq_spec(&self, other: &Self) -> bool {
        same_config(self@, other@)
    }
}

/// The plugin of the package `name`, named by the file at `resolve_from`.
pub open spec fn plugin_of(name: Seq<char>, resolve_from: Seq<char>) -> PluginView {
    PluginView { package_name: name, resolve_from }
}

/// The plugins of the packages `names`, all named by the file at
/// `resolve_from`.
pub open spec fn plugins_of(names: Seq<Seq<char>>, resolve_from: Seq<char>) -> Seq<PluginView> {
    Seq::new(names.len(), |i: int| plugin_of(names[i], resolve_from))
}

/// The plugins that an optional list of package names gives.
pub open spec fn listed(names: Option<Vec<String>>, resolve_from: Seq<char>) -> Seq<PluginView> {
    match names {
        Some(list) => plugins_of(texts(list@), resolve_from),
        None => Seq::empty(),
    }
}

/// The map that the first `upto` of `pairs` give, inserted one after the
/// other.
pub open spec fn collected<V>(pairs: Seq<(Seq<char>, V)>, upto: int) -> Seq<(Seq<char>, V)>
    decreases upto,
{
    if upto <= 0 {
        Seq::empty()
    } else {
        inserted(collected(pairs, upto - 1), pairs[upto - 1].0, pairs[upto - 1].1)
    }
}

/// The entries of a map from patterns to pipelines, as a file lists them.
pub open spec fn pipeline_pairs(list: Seq<(String, Vec<String>)>, resolve_from: Seq<char>) -> Seq<
    (Seq<char>, Seq<PluginView>),
> {
    Seq::new(list.len(), |i: int| (list[i].0@, plugins_of(texts(list[i].1@), resolve_from)))
}

/// The entries of a map from patterns to plugins, as a file lists them.
pub open spec fn plugin_pairs(list: Seq<(String, String)>, resolve_from: Seq<char>) -> Seq<
    (Seq<char>, PluginView),
> {
    Seq::new(list.len(), |i: int| (list[i].0@, plugin_of(list[i].1@, resolve_from)))
}

/// The map from patterns to pipelines that an optional list of entries
/// gives.
pub open spec fn mapped_pipelines(
    list: Option<Vec<(String, Vec<String>)>>,
    resolve_from: Seq<char>,
) -> Seq<(Seq<char>, Seq<PluginView>)> {
    match list {
        Some(pairs) => collected(pipeline_pairs(pairs@, resolve_from), pairs@.len() as int),
        None => Seq::empty(),
    }
}

/// The map from patterns to plugins that an optional list of entries gives.
pub open spec fn mapped_plugins(list: Option<Vec<(String, String)>>, resolve_from: Seq<char>) -> Seq<
    (Seq<char>, PluginView),
> {
    match list {
        Some(pairs) => collected(plugin_pairs(pairs@, resolve_from), pairs@.len() as int),
        None => Seq::empty(),
    }
}

/// The configuration that the file `file` gives: each plugin that it names,
/// to be resolved from the file.
pub open spec fn config_of(file: ParcelRcFile) -> PartialView {
    PartialView {
        bundler: match file.contents.bundler {
            Some(name) => Some(plugin_of(name@, file.path@)),
            None => None,
        },
        compressors: mapped_pipelines(file.contents.compressors, file.path@),
        namers: listed(file.contents.namers, file.path@),
        optimizers: mapped_pipelines(file.contents.optimizers, file.path@),
        packagers: mapped_plugins(file.contents.packagers, file.path@),
        reporters: listed(file.contents.reporters, file.path@),
        resolvers: listed(file.contents.resolvers, file.path@),
        runtimes: listed(file.contents.runtimes, file.path@),
        transformers: mapped_pipelines(file.contents.transformers, file.path@),
        validators: mapped_pipelines(file.contents.validators, file.path@),
    }
}

/// The plugin of the package `name`, named by the file at `resolve_from`.
fn to_entry(name: &String, resolve_from: &Rc<String>) -> (plugin: PluginNode)
    ensures
        plugin@ == plugin_of(name@, resolve_from@),
{
    PluginNode { package_name: name.clone(), resolve_from: Rc::clone(resolve_from) }
}

/// The plugins of the packages `names`.
fn to_plugins(names: &Vec<String>, resolve_from: &Rc<String>) -> (plugins: Vec<PluginNode>)
    ensures
        views(plugins@) == plugins_of(texts(names@), resolve_from@),
{
    let mut plugins: Vec<PluginNode> = Vec::new();
    let mut i: usize = 0;
    while i < names.len()
        invariant
            i <= names@.len(),
            plugins@.len() == i,
            forall|k: int| 0 <= k < i ==> (#[trigger] plugins@[k])@ == plugin_of(
                names@[k]@,
                resolve_from@,
            ),
        decreases names@.len() - i,
    {
        plugins.push(to_entry(&names[i], resolve_from));
        i += 1;
    }
    assert(views(plugins@) =~= plugins_of(texts(names@), resolve_from@));
    plugins
}

/// The plugins that an optional list of package names gives.
fn to_vec(names: &Option<Vec<String>>, resolve_from: &Rc<String>) -> (plugins: Vec<PluginNode>)
    ensures
        views(plugins@) == listed(*names, resolve_from@),
{
    match names {
        Some(list) => to_plugins(list, resolve_from),
        None => {
            let plugins: Vec<PluginNode> = Vec::new();
            assert(views(plugins@) =~= Seq::<PluginView>::empty());
            plugins
        },
    }
}

/// The map from patterns to pipelines that an optional list of entries
/// gives.
fn to_pipelines(list: &Option<Vec<(String, Vec<String>)>>, resolve_from: &Rc<String>) -> (map:
    IndexMap<String, Vec<PluginNode>>)
    ensures
        pipelines_in(map) == mapped_pipelines(*list, resolve_from@),
{
    let mut map = new_pipelines();
    match list {
        Some(pairs) => {
            let mut i: usize = 0;
            while i < pairs.len()
                invariant
                    i <= pairs@.len(),
                    pipelines_in(map) == collected(
                        pipeline_pairs(pairs@, resolve_from@),
                        i as int,
                    ),
                decreases pairs@.len() - i,
            {
                let plugins = to_plugins(&pairs[i].1, resolve_from);
                pipelines_insert(&mut map, pairs[i].0.clone(), plugins);
                i += 1;
            }
        },
        None => {},
    }
    map
}

/// The map from patterns to plugins that an optional list of entries gives.
fn to_pipeline(list: &Option<Vec<(String, String)>>, resolve_from: &Rc<String>) -> (map: IndexMap<
    String,
    PluginNode,
>)
    ensures
        plugins_in(map) == mapped_plugins(*list, resolve_from@),
{
    let mut map = new_plugins();
    match list {
        Some(pairs) => {
            let mut i: usize = 0;
            while i < pairs.len()
                invariant
                    i <= pairs@.len(),
                    plugins_in(map) == collected(plugin_pairs(pairs@, resolve_from@), i as int),
                decreases pairs@.len() - i,
            {
                let plugin = to_entry(&pairs[i].1, resolve_from);
                plugins_insert(&mut map, pairs[i].0.clone(), plugin);
                i += 1;
            }
        },
        None => {},
    }
    map
}

impl PartialParcelConfig {
    /// The configuration that the file `parcel_rc` gives.
    pub fn from_file(parcel_rc: &ParcelRcFile) -> (config: PartialParcelConfig)
        ensures
            config@ == config_of(*parcel_rc),
    {
        let resolve_from = Rc::new(parcel_rc.path.clone());
        PartialParcelConfig {
            bundler: match &parcel_rc.contents.bundler {
                Some(name) => Some(to_entry(name, &resolve_from)),
                None => None,
            },
            compressors: to_pipelines(&parcel_rc.contents.compressors, &resolve_from),
            namers: to_vec(&parcel_rc.contents.namers, &resolve_from),
            optimizers: to_pipelines(&parcel_rc.contents.optimizers, &resolve_from),
            packagers: to_pipeline(&parcel_rc.contents.packagers, &resolve_from),
            reporters: to_vec(&parcel_rc.contents.reporters, &resolve_from),
            resolvers: to_vec(&parcel_rc.contents.resolvers, &resolve_from),
            runtimes: to_vec(&parcel_rc.contents.runtimes, &resolve_from),
            transformers: to_pipelines(&parcel_rc.contents.transformers, &resolve_from),
            validators: to_pipelines(&parcel_rc.contents.validators, &resolve_from),
        }
    }
}

impl<'a> From<&'a ParcelRcFile> for PartialParcelConfig {
    /// The same as `from_file`.
    fn from(parcel_rc: &'a ParcelRcFile) -> (config: PartialParcelConfig)
        ensures
            config@ == config_of(*parcel_rc),
    {
        PartialParcelConfig::from_file(parcel_rc)
    }
}

impl<'a> vstd::std_specs::convert::FromSpecImpl<&'a ParcelRcFile> for PartialParcelConfig {
    open spec fn obeys_from_spec() -> bool {
        false
    }

    open spec fn from_spec(parcel_rc: &'a ParcelRcFile) -> PartialParcelConfig {
        choose|config: PartialParcelConfig| config@ == config_of(*parcel_rc)
    }
}

} // verus!
