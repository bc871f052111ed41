//! Plugins, and the maps from file patterns to pipelines of plugins.

use crate::config::glob::{is_match, selects};
use crate::config::ordered::{pipelines_at, pipelines_in, pipelines_len, views};
use crate::paths::FilePath;
use crate::text::{split_once, starts_with};
use indexmap::IndexMap;
use std::rc::Rc;
use vstd::prelude::*;
use vstd::string::StringExecFns;

verus! {

/// What a `PluginNode` holds.
pub struct PluginView {
    pub package_name: Seq<char>,
    pub resolve_from: Seq<char>,
}

/// A plugin: the name of its package, and the path of the configuration
/// file that named it, from which the package is resolved.
#[derive(Debug)]
pub struct PluginNode {
    pub package_name: String,
    pub resolve_from: Rc<String>,
}

impl View for PluginNode {
    type V = PluginView;

    open spec fn view(&self) -> PluginView {
        PluginView { package_name: self.package_name@, resolve_from: self.resolve_from@ }
    }
}

impl Clone for PluginNode {
    fn clone(&self) -> (copy: Self)
        ensures
            copy@ == self@,
    {
        PluginNode {
            package_name: self.package_name.clone(),
            resolve_from: Rc::clone(&self.resolve_from),
        }
    }
}

impl PartialEq for PluginNode {
    fn eq(&self, other: &Self) -> (equal: bool) {
        self.package_name == other.package_name && *self.resolve_from == *other.resolve_from
    }
}

impl vstd::std_specs::cmp::PartialEqSpecImpl for PluginNode {
    open spec fn obeys_eq_spec() -> bool {
        true
    }

    open spec fn eq_spec(&self, other: &Self) -> bool {
        self@ == other@
    }
}

/// Appends a copy of every plugin of `more` to `plugins`.
pub fn append_plugins(plugins: &mut Vec<PluginNode>, more: &Vec<PluginNode>)
    ensures
        views(final(plugins)@) == views(old(plugins)@) + views(more@),
{
    let mut i: usize = 0;
    while i < more.len()
        invariant
            i <= more@.len(),
            views(plugins@) == views(old(plugins)@) + views(more@.take(i as int)),
        decreases more@.len() - i,
    {
        let ghost before = plugins@;
        plugins.push(more[i].clone());
        proof {
            assert(views(plugins@) =~= views(before) + seq![more@[i as int]@]);
            assert(views(more@.take(i + 1)) =~= views(more@.take(i as int)) + seq![
                more@[i as int]@,
            ]);
            assert(views(plugins@) =~= views(old(plugins)@) + views(more@.take(i + 1)));
        }
        i += 1;
    }
    proof {
        assert(more@.take(more@.len() as int) =~= more@);
    }
}

/// The plugins of every entry among the first `upto` of `entries` whose
/// pattern selects the file for no pipeline in particular, in the order of
/// the entries.
pub open spec fn unnamed_plugins(
    entries: Seq<(Seq<char>, Seq<PluginView>)>,
    path: Seq<char>,
    basename: Seq<char>,
    upto: int,
) -> Seq<PluginView>
    decreases upto,
{
    if upto <= 0 {
        Seq::empty()
    } else {
        unnamed_plugins(entries, path, basename, upto - 1) + if selects(
            entries[upto - 1].0,
            path,
            basename,
            Seq::empty(),
        ) {
            entries[upto - 1].1
        } else {
            Seq::empty()
        }
    }
}

/// Entry `i` is the first of `entries` whose pattern selects the file for
/// the pipeline `pipeline`.
pub open spec fn first_for_pipeline(
    entries: Seq<(Seq<char>, Seq<PluginView>)>,
    path: Seq<char>,
    basename: Seq<char>,
    pipeline: Seq<char>,
    i: int,
) -> bool {
    &&& 0 <= i < entries.len()
    &&& selects(entries[i].0, path, basename, pipeline)
    &&& forall|j: int| 0 <= j < i ==> !selects((#[trigger] entries[j]).0, path, basename, pipeline)
}

/// The plugins that `entries` give for the file at `path`, whose last
/// component is `basename`. Without a pipeline these are the plugins of
/// every entry that selects the file for no pipeline in particular. With a
/// pipeline, the plugins of the first entry for that pipeline come before
/// them, and where there is no such entry, the file gets no plugins at all.
pub open spec fn selected_plugins(
    entries: Seq<(Seq<char>, Seq<PluginView>)>,
    path: Seq<char>,
    basename: Seq<char>,
    pipeline: Option<Seq<char>>,
) -> Seq<PluginView> {
    match pipeline {
        None => unnamed_plugins(entries, path, basename, entries.len() as int),
        Some(name) => {
            if exists|i: int| first_for_pipeline(entries, path, basename, name, i) {
                let i = choose|i: int| first_for_pipeline(entries, path, basename, name, i);
                entries[i].1 + unnamed_plugins(entries, path, basename, entries.len() as int)
            } else {
                Seq::empty()
            }
        },
    }
}

/// The name of `pipeline`, if one is given.
pub open spec fn named(pipeline: Option<String>) -> Option<Seq<char>> {
    match pipeline {
        Some(name) => Some(name@),
        None => None,
    }
}

/// Some pattern of `entries` starts with `pipeline` and a colon.
pub open spec fn names_pipeline(
    entries: Seq<(Seq<char>, Seq<PluginView>)>,
    pipeline: Seq<char>,
) -> bool {
    exists|i: int|
        0 <= i < entries.len() && (pipeline + seq![':']).is_prefix_of((#[trigger] entries[i]).0)
}

/// The pipeline names of the first `upto` patterns of `entries` that have a
/// colon: of each, what stands before its first colon.
pub open spec fn pipeline_names(entries: Seq<(Seq<char>, Seq<PluginView>)>, upto: int) -> Seq<
    Seq<char>,
>
    decreases upto,
{
    if upto <= 0 {
        Seq::empty()
    } else {
        pipeline_names(entries, upto - 1) + if entries[upto - 1].0.contains(':') {
            seq![crate::config::glob::pipeline_of(entries[upto - 1].0)]
        } else {
            Seq::empty()
        }
    }
}

/// A map from file patterns to pipelines of plugins, in the order in which
/// the patterns were given. A pattern is a glob, or the name of a pipeline,
/// a colon and a glob.
#[derive(Debug)]
pub struct PipelineMap {
    map: IndexMap<String, Vec<PluginNode>>,
}

impl View for PipelineMap {
    type V = Seq<(Seq<char>, Seq<PluginView>)>;

    closed spec fn view(&self) -> Seq<(Seq<char>, Seq<PluginView>)> {
        pipelines_in(self.map)
    }
}

impl Default for PipelineMap {
    fn default() -> (pipelines: Self)
        ensures
            pipelines@ == Seq::<(Seq<char>, Seq<PluginView>)>::empty(),
    {
        PipelineMap { map: crate::config::ordered::new_pipelines() }
    }
}

impl PipelineMap {
    /// The pipeline map with the entries of `map`.
    pub fn new(map: IndexMap<String, Vec<PluginNode>>) -> (pipelines: Self)
        ensures
            pipelines@ == pipelines_in(map),
    {
        PipelineMap { map }
    }

    /// The place of the first entry whose pattern selects the file for the
    /// pipeline `name`.
    fn find_named(&self, path: &str, basename: &str, name: &str) -> (place: Option<usize>)
        ensures
            match place {
                Some(i) => first_for_pipeline(self@, path@, basename@, name@, i as int),
                None => forall|k: int| !first_for_pipeline(self@, path@, basename@, name@, k),
            },
    {
        let ghost entries = self@;
        let len = pipelines_len(&self.map);
        let mut i: usize = 0;
        while i < len
            invariant
                entries == pipelines_in(self.map),
                len == entries.len(),
                i <= len,
                forall|j: int|
                    0 <= j < i ==> !selects((#[trigger] entries[j]).0, path@, basename@, name@),
            decreases len - i,
        {
            match pipelines_at(&self.map, i) {
                Some((pattern, _)) => {
                    if is_match(pattern.as_str(), path, basename, name) {
                        return Some(i);
                    }
                },
                None => {},
            }
            i += 1;
        }
        proof {
            assert forall|k: int| !first_for_pipeline(entries, path@, basename@, name@, k) by {
                if first_for_pipeline(entries, path@, basename@, name@, k) {
                    assert(!selects(entries[k].0, path@, basename@, name@));
                }
            }
        }
        None
    }

    /// Appends to `found` the plugins of every entry whose pattern selects
    /// the file for no pipeline in particular.
    fn append_unnamed(&self, path: &str, basename: &str, found: &mut Vec<PluginNode>)
        ensures
            views(final(found)@) == views(old(found)@) + unnamed_plugins(
                self@,
                path@,
                basename@,
                self@.len() as int,
            ),
    {
        let ghost entries = self@;
        let ghost first = views(found@);
        let len = pipelines_len(&self.map);
        let mut i: usize = 0;
        assert(views(found@) =~= first + unnamed_plugins(entries, path@, basename@, 0));
        while i < len
            invariant
                entries == pipelines_in(self.map),
                len == entries.len(),
                i <= len,
                views(found@) == first + unnamed_plugins(entries, path@, basename@, i as int),
            decreases len - i,
        {
            proof {
                reveal_strlit("");
                assert(""@ =~= Seq::<char>::empty());
            }
            let ghost before = views(found@);
            match pipelines_at(&self.map, i) {
                Some((pattern, plugins)) => {
                    if is_match(pattern.as_str(), path, basename, "") {
                        append_plugins(found, plugins);
                        assert(views(found@) == before + entries[i as int].1);
                    }
                },
                None => {},
            }
            proof {
                let step = if selects(entries[i as int].0, path@, basename@, Seq::empty()) {
                    entries[i as int].1
                } else {
                    Seq::empty()
                };
                assert(views(found@) =~= before + step);
                assert(unnamed_plugins(entries, path@, basename@, i + 1) == unnamed_plugins(
                    entries,
                    path@,
                    basename@,
                    i as int,
                ) + step);
                assert(first + (unnamed_plugins(entries, path@, basename@, i as int) + step)
                    =~= first + unnamed_plugins(entries, path@, basename@, i as int) + step);
            }
            i += 1;
        }
    }

    /// The plugins for the file `file`, in the pipeline `pipeline` if one is
    /// given.
    pub fn get(&self, file: &FilePath, pipeline: &Option<String>) -> (plugins: Vec<PluginNode>)
        ensures
            views(plugins@) == selected_plugins(self@, file@, file.name(), named(*pipeline)),
    {
        let path = file.path().as_str();
        let basename = file.basename().as_str();
        let mut found: Vec<PluginNode> = Vec::new();
        let ghost mut at: int = 0;
        assert(views(found@) =~= Seq::<PluginView>::empty());
        match pipeline {
            Some(name) => {
                match self.find_named(path, basename, name.as_str()) {
                    Some(i) => {
                        match pipelines_at(&self.map, i) {
                            Some((_, plugins)) => {
                                append_plugins(&mut found, plugins);
                            },
                            None => {},
                        }
                        proof {
                            at = i as int;
                            assert(views(found@) =~= self@[at].1);
                        }
                    },
                    None => {
                        return found;
                    },
                }
            },
            None => {},
        }
        let ghost first = views(found@);
        self.append_unnamed(path, basename, &mut found);
        proof {
            let rest = unnamed_plugins(self@, file@, file.name(), self@.len() as int);
            assert(views(found@) == first + rest);
            match pipeline {
                None => {
                    assert(first + rest =~= rest);
                },
                Some(name) => {
                    assert(first_for_pipeline(self@, file@, file.name(), name@, at));
                    let c = choose|c: int| first_for_pipeline(self@, file@, file.name(), name@, c);
                    assert(first_for_pipeline(self@, file@, file.name(), name@, c));
                    assert(c == at) by {
                        if c < at {
                            assert(!selects(self@[c].0, file@, file.name(), name@));
                        }
                        if at < c {
                            assert(!selects(self@[at].0, file@, file.name(), name@));
                        }
                    }
                    assert(first == self@[c].1);
                },
            }
        }
        found
    }

    /// Tells whether some pattern is for the pipeline `pipeline`: starts
    /// with its name and a colon.
    pub fn contains_named_pipeline(&self, pipeline: &str) -> (named: bool)
        ensures
            named == names_pipeline(self@, pipeline@),
    {
        let ghost entries = self@;
        let prefix = String::from_str(pipeline).concat(":");
        proof {
            reveal_strlit(":");
            assert(prefix@ =~= pipeline@ + seq![':']);
        }
        let len = pipelines_len(&self.map);
        let mut i: usize = 0;
        while i < len
            invariant
                entries == pipelines_in(self.map),
                len == entries.len(),
                i <= len,
                prefix@ == pipeline@ + seq![':'],
                forall|j: int| 0 <= j < i ==> !prefix@.is_prefix_of((#[trigger] entries[j]).0),
            decreases len - i,
        {
            match pipelines_at(&self.map, i) {
                Some((pattern, _)) => {
                    if starts_with(pattern.as_str(), prefix.as_str()) {
                        return true;
                    }
                },
                None => {},
            }
            i += 1;
        }
        false
    }

    /// The names of the pipelines that the patterns are for, in the order of
    /// the patterns.
    pub fn named_pipelines(&self) -> (names: Vec<String>)
        ensures
            names@.len() == pipeline_names(self@, self@.len() as int).len(),
            forall|i: int|
                0 <= i < names@.len() ==> (#[trigger] names@[i])@ == pipeline_names(
                    self@,
                    self@.len() as int,
                )[i],
    {
        let ghost entries = self@;
        let len = pipelines_len(&self.map);
        let mut names: Vec<String> = Vec::new();
        let mut i: usize = 0;
        while i < len
            invariant
                entries == pipelines_in(self.map),
                len == entries.len(),
                i <= len,
                names@.len() == pipeline_names(entries, i as int).len(),
                forall|k: int|
                    0 <= k < names@.len() ==> (#[trigger] names@[k])@ == pipeline_names(
                        entries,
                        i as int,
                    )[k],
            decreases len - i,
        {
            match pipelines_at(&self.map, i) {
                Some((pattern, _)) => {
                    match split_once(pattern.as_str(), ':') {
                        Some((name, glob)) => {
                            proof {
                                crate::config::glob::lemma_split_at_colon(
                                    pattern@,
                                    name@,
                                    glob@,
                                );
                            }
                            names.push(String::from_str(name));
                        },
                        None => {},
                    }
                },
                None => {},
            }
            i += 1;
        }
        names
    }
}

} // verus!
