//! The complete configuration of a build, and the plugins that it gives
//! for a file.

use crate::config::glob::{is_match, selects};
use crate::config::ordered::{
    new_pipelines, pipelines_at, pipelines_in, pipelines_insert, pipelines_len, plugins_at,
    plugins_in, plugins_len, views,
};
use crate::config::partial_parcel_config::{
    clone_plugins, collected, spread, PartialParcelConfig, PartialView,
};
use crate::config::plugin::{
    named, names_pipeline, selected_plugins, PipelineMap, PluginNode, PluginView,
};
use crate::diagnostic::{debug_quoted, debug_text, DiagnosticError, DiagnosticView};
use crate::paths::FilePath;
use crate::text::same_text;
use indexmap::IndexMap;
use vstd::prelude::*;
use vstd::string::StringExecFns;

verus! {

/// The first `upto` plugins of `plugins`, without the spreads among them.
pub open spec fn without_spread(plugins: Seq<PluginView>, upto: int) -> Seq<PluginView>
    decreases upto,
{
    if upto <= 0 {
        Seq::empty()
    } else if plugins[upto - 1].package_name == spread() {
        without_spread(plugins, upto - 1)
    } else {
        without_spread(plugins, upto - 1).push(plugins[upto - 1])
    }
}

/// `plugins` without the spreads.
pub open spec fn filtered(plugins: Seq<PluginView>) -> Seq<PluginView> {
    without_spread(plugins, plugins.len() as int)
}

/// The entries `entries`, each pipeline without its spreads.
pub open spec fn filtered_entries(entries: Seq<(Seq<char>, Seq<PluginView>)>) -> Seq<
    (Seq<char>, Seq<PluginView>),
> {
    Seq::new(entries.len(), |i: int| (entries[i].0, filtered(entries[i].1)))
}

/// The map that `entries` give once every pipeline has lost its spreads.
pub open spec fn filtered_map(entries: Seq<(Seq<char>, Seq<PluginView>)>) -> Seq<
    (Seq<char>, Seq<PluginView>),
> {
    collected(filtered_entries(entries), entries.len() as int)
}

/// What a `ParcelConfig` holds.
pub struct ParcelView {
    pub bundler: PluginView,
    pub compressors: Seq<(Seq<char>, Seq<PluginView>)>,
    pub namers: Seq<PluginView>,
    pub optimizers: Seq<(Seq<char>, Seq<PluginView>)>,
    pub packagers: Seq<(Seq<char>, PluginView)>,
    pub reporters: Seq<PluginView>,
    pub resolvers: Seq<PluginView>,
    pub runtimes: Seq<PluginView>,
    pub transformers: Seq<(Seq<char>, Seq<PluginView>)>,
    pub validators: Seq<(Seq<char>, Seq<PluginView>)>,
}

/// The complete configuration that the merged configuration `config` with
/// the bundler `bundler` gives: the spreads are gone from every pipeline.
pub open spec fn completed(config: PartialView, bundler: PluginView) -> ParcelView {
    ParcelView {
        bundler,
        compressors: filtered_map(config.compressors),
        namers: filtered(config.namers),
        optimizers: filtered_map(config.optimizers),
        packagers: config.packagers,
        reporters: filtered(config.reporters),
        resolvers: filtered(config.resolvers),
        runtimes: filtered(config.runtimes),
        transformers: filtered_map(config.transformers),
        validators: filtered_map(config.validators),
    }
}

/// An error with the message `message` and no cause.
pub open spec fn failure(message: Seq<char>) -> DiagnosticView {
    DiagnosticView { message, source: None }
}

/// Entry `i` is the first of `entries` whose pattern selects the file for
/// no pipeline in particular.
pub open spec fn first_packager(
    entries: Seq<(Seq<char>, PluginView)>,
    path: Seq<char>,
    basename: Seq<char>,
    i: int,
) -> bool {
    &&& 0 <= i < entries.len()
    &&& selects(entries[i].0, path, basename, Seq::empty())
    &&& forall|j: int| 0 <= j < i ==> !selects((#[trigger] entries[j]).0, path, basename, Seq::empty())
}

/// `plugins` without the spreads.
pub fn filter_out_extends(plugins: Vec<PluginNode>) -> (kept: Vec<PluginNode>)
    ensures
        views(kept@) == filtered(views(plugins@)),
{
    let mut kept: Vec<PluginNode> = Vec::new();
    let mut i: usize = 0;
    assert(views(kept@) =~= without_spread(views(plugins@), 0));
    while i < plugins.len()
        invariant
            i <= plugins@.len(),
            views(kept@) == without_spread(views(plugins@), i as int),
        decreases plugins@.len() - i,
    {
        proof {
            reveal_strlit("...");
            assert("..."@ =~= spread());
        }
        if !same_text(plugins[i].package_name.as_str(), "...") {
            let ghost before = kept@;
            kept.push(plugins[i].clone());
            assert(views(kept@) =~= views(before).push(plugins@[i as int]@));
        }
        i += 1;
    }
    kept
}

/// The map `map`, each pipeline without its spreads.
pub fn filter_out_extends_from_map(map: IndexMap<String, Vec<PluginNode>>) -> (kept: IndexMap<
    String,
    Vec<PluginNode>,
>)
    ensures
        pipelines_in(kept) == filtered_map(pipelines_in(map)),
{
    let ghost entries = pipelines_in(map);
    let len = pipelines_len(&map);
    let mut kept = new_pipelines();
    let mut i: usize = 0;
    while i < len
        invariant
            entries == pipelines_in(map),
            len == entries.len(),
            i <= len,
            pipelines_in(kept) == collected(filtered_entries(entries), i as int),
        decreases len - i,
    {
        match pipelines_at(&map, i) {
            Some((pattern, pipeline)) => {
                let plugins = filter_out_extends(clone_plugins(pipeline));
                pipelines_insert(&mut kept, pattern.clone(), plugins);
            },
            None => {},
        }
        i += 1;
    }
    kept
}

/// The complete configuration of a build.
#[derive(Debug)]
pub struct ParcelConfig {
    pub(crate) bundler: PluginNode,
    pub(crate) compressors: PipelineMap,
    pub(crate) namers: Vec<PluginNode>,
    pub(crate) optimizers: PipelineMap,
    pub(crate) packagers: IndexMap<String, PluginNode>,
    pub(crate) reporters: Vec<PluginNode>,
    pub(crate) resolvers: Vec<PluginNode>,
    pub(crate) runtimes: Vec<PluginNode>,
    pub(crate) transformers: PipelineMap,
    pub(crate) validators: PipelineMap,
}

impl View for ParcelConfig {
    type V = ParcelView;

    closed spec fn view(&self) -> ParcelView {
        ParcelView {
            bundler: self.bundler@,
            compressors: self.compressors@,
            namers: views(self.namers@),
            optimizers: self.optimizers@,
            packagers: plugins_in(self.packagers),
            reporters: views(self.reporters@),
            resolvers: views(self.resolvers@),
            runtimes: views(self.runtimes@),
            transformers: self.transformers@,
            validators: self.validators@,
        }
    }
}

impl ParcelConfig {
    /// Completes the merged configuration `config`: takes the spreads out
    /// of its pipelines. A configuration without a bundler cannot be
    /// completed.
    pub fn try_from(config: PartialParcelConfig) -> (complete: Result<
        ParcelConfig,
        DiagnosticError,
    >)
        ensures
            match complete {
                Ok(found) => config@.bundler is Some && found@ == completed(
                    config@,
                    config@.bundler->0,
                ),
                Err(error) => config@.bundler is None && error@ == failure("Missing bundler"@),
            },
    {
        match config.bundler {
            None => Err(DiagnosticError::new(String::from_str("Missing bundler"))),
            Some(bundler) => Ok(
                ParcelConfig {
                    bundler,
                    compressors: PipelineMap::new(filter_out_extends_from_map(config.compressors)),
                    namers: filter_out_extends(config.namers),
                    optimizers: PipelineMap::new(filter_out_extends_from_map(config.optimizers)),
                    packagers: config.packagers,
                    reporters: filter_out_extends(config.reporters),
                    resolvers: filter_out_extends(config.resolvers),
                    runtimes: filter_out_extends(config.runtimes),
                    transformers: PipelineMap::new(
                        filter_out_extends_from_map(config.transformers),
                    ),
                    validators: PipelineMap::new(filter_out_extends_from_map(config.validators)),
                },
            ),
        }
    }

    /// The validators for `file`.
    pub fn validators(&self, file: &FilePath) -> (plugins: Result<Vec<PluginNode>, DiagnosticError>)
        ensures
            plugins matches Ok(found) && views(found@) == selected_plugins(
                self@.validators,
                file@,
                file.name(),
                None,
            ),
    {
        Ok(self.validators.get(file, &None))
    }

    /// The transformers for `file`, in the pipeline `pipeline` if one is
    /// given. That there are none is an error unless `allow_empty` is set.
    pub fn transformers(
        &self,
        file: &FilePath,
        pipeline: &Option<String>,
        allow_empty: bool,
    ) -> (plugins: Result<Vec<PluginNode>, DiagnosticError>)
        ensures
            ({
                let selected = selected_plugins(
                    self@.transformers,
                    file@,
                    file.name(),
                    named(*pipeline),
                );
                match plugins {
                    Ok(found) => views(found@) == selected && (selected.len() > 0 || allow_empty),
                    Err(error) => selected.len() == 0 && !allow_empty && error@ == failure(
                        match pipeline {
                            None => "No transformers found for "@ + file@ + "."@,
                            Some(name) => "No transformers found for "@ + file@
                                + " with pipeline "@ + debug_text(name@) + "."@,
                        },
                    ),
                }
            }),
    {
        let transformers = self.transformers.get(file, pipeline);
        if transformers.len() == 0 {
            if allow_empty {
                return Ok(transformers);
            }
            let start = String::from_str("No transformers found for ").concat(
                file.path().as_str(),
            );
            return match pipeline {
                None => self.missing_plugin_error(start.concat(".")),
                Some(name) => {
                    let quoted = debug_quoted(name);
                    self.missing_plugin_error(
                        start.concat(" with pipeline ").concat(quoted.as_str()).concat("."),
                    )
                },
            };
        }
        Ok(transformers)
    }

    /// The bundler.
    pub fn bundler(&self) -> (plugin: Result<PluginNode, DiagnosticError>)
        ensures
            plugin matches Ok(found) && found@ == self@.bundler,
    {
        Ok(self.bundler.clone())
    }

    /// The namers. That there are none is an error.
    pub fn namers(&self) -> (plugins: Result<Vec<PluginNode>, DiagnosticError>)
        ensures
            match plugins {
                Ok(found) => views(found@) == self@.namers && self@.namers.len() > 0,
                Err(error) => self@.namers.len() == 0 && error@ == failure(
                    "No namer plugins specified in .parcelrc config"@,
                ),
            },
    {
        if self.namers.len() == 0 {
            return self.missing_plugin_error(
                String::from_str("No namer plugins specified in .parcelrc config"),
            );
        }
        Ok(clone_plugins(&self.namers))
    }

    /// The runtimes.
    pub fn runtimes(&self) -> (plugins: Result<Vec<PluginNode>, DiagnosticError>)
        ensures
            plugins matches Ok(found) && views(found@) == self@.runtimes,
    {
        Ok(clone_plugins(&self.runtimes))
    }

    /// The packager for `file`: the plugin of the first pattern that
    /// selects the file. That there is none is an error.
    pub fn packager(&self, file: &FilePath) -> (plugin: Result<PluginNode, DiagnosticError>)
        ensures
            match plugin {
                Ok(found) => exists|i: int|
                    #[trigger] first_packager(self@.packagers, file@, file.name(), i)
                        && self@.packagers[i].1 == found@,
                Err(error) => (forall|i: int|
                    0 <= i < self@.packagers.len() ==> !selects(
                        (#[trigger] self@.packagers[i]).0,
                        file@,
                        file.name(),
                        Seq::empty(),
                    )) && error@ == failure("No packager found for "@ + file@),
            },
    {
        let ghost entries = plugins_in(self.packagers);
        let len = plugins_len(&self.packagers);
        let path = file.path().as_str();
        let basename = file.basename().as_str();
        let mut i: usize = 0;
        while i < len
            invariant
                entries == plugins_in(self.packagers),
                len == entries.len(),
                i <= len,
                path@ == file@,
                basename@ == file.name(),
                forall|j: int|
                    0 <= j < i ==> !selects(
                        (#[trigger] entries[j]).0,
                        file@,
                        file.name(),
                        Seq::empty(),
                    ),
            decreases len - i,
        {
            proof {
                reveal_strlit("");
                assert(""@ =~= Seq::<char>::empty());
            }
            match plugins_at(&self.packagers, i) {
                Some((pattern, plugin)) => {
                    if is_match(pattern.as_str(), path, basename, "") {
                        let found = plugin.clone();
                        proof {
                            assert(first_packager(self@.packagers, file@, file.name(), i as int));
                            assert(self@.packagers[i as int].1 == found@);
                        }
                        return Ok(found);
                    }
                },
                None => {},
            }
            i += 1;
        }
        self.missing_plugin_error(String::from_str("No packager found for ").concat(path))
    }

    /// The optimizers for `file`, in the pipeline `pipeline` if one is
    /// given and some pattern is for it; else in no pipeline.
    pub fn optimizers(&self, file: &FilePath, pipeline: &Option<String>) -> (plugins: Result<
        Vec<PluginNode>,
        DiagnosticError,
    >)
        ensures
            plugins matches Ok(found) && views(found@) == selected_plugins(
                self@.optimizers,
                file@,
                file.name(),
                match pipeline {
                    Some(name) => if names_pipeline(self@.optimizers, name@) {
                        Some(name@)
                    } else {
                        None
                    },
                    None => None,
                },
            ),
    {
        let use_empty_pipeline = match pipeline {
            Some(name) => !self.optimizers.contains_named_pipeline(name.as_str()),
            None => false,
        };
        if use_empty_pipeline {
            Ok(self.optimizers.get(file, &None))
        } else {
            Ok(self.optimizers.get(file, pipeline))
        }
    }

    /// The compressors for `file`. That there are none is an error.
    pub fn compressors(&self, file: &FilePath) -> (plugins: Result<Vec<PluginNode>, DiagnosticError>)
        ensures
            ({
                let selected = selected_plugins(self@.compressors, file@, file.name(), None);
                match plugins {
                    Ok(found) => views(found@) == selected && selected.len() > 0,
                    Err(error) => selected.len() == 0 && error@ == failure(
                        "No compressors found for "@ + file@,
                    ),
                }
            }),
    {
        let compressors = self.compressors.get(file, &None);
        if compressors.len() == 0 {
            return self.missing_plugin_error(
                String::from_str("No compressors found for ").concat(file.path().as_str()),
            );
        }
        Ok(compressors)
    }

    /// The resolvers. That there are none is an error.
    pub fn resolvers(&self) -> (plugins: Result<Vec<PluginNode>, DiagnosticError>)
        ensures
            match plugins {
                Ok(found) => views(found@) == self@.resolvers && self@.resolvers.len() > 0,
                Err(error) => self@.resolvers.len() == 0 && error@ == failure(
                    "No resolvers specified in .parcelrc config"@,
                ),
            },
    {
        if self.resolvers.len() == 0 {
            return self.missing_plugin_error(
                String::from_str("No resolvers specified in .parcelrc config"),
            );
        }
        Ok(clone_plugins(&self.resolvers))
    }

    /// The reporters.
    pub fn reporters(&self) -> (plugins: Result<Vec<PluginNode>, DiagnosticError>)
        ensures
            plugins matches Ok(found) && views(found@) == self@.reporters,
    {
        Ok(clone_plugins(&self.reporters))
    }

    /// The error that says that a plugin is missing.
    fn missing_plugin_error<T>(&self, msg: String) -> (failed: Result<T, DiagnosticError>)
        ensures
            failed matches Err(error) && error@ == failure(msg@),
    {
        Err(DiagnosticError::new(msg))
    }
}

} // verus!
