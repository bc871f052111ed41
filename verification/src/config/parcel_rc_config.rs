//! Finding the configuration of a project, and folding the configurations
//! that it builds on into it.

use crate::config::parcel_config::failure;
use crate::config::parcel_rc::{texts, ParcelRcFile};
use crate::config::partial_parcel_config::{
    config_of, merged_config, PartialParcelConfig, PartialView,
};
use crate::diagnostic::DiagnosticError;
use crate::fs::FileSystem;
use crate::package_manager::{PackageManager, Resolution};
use crate::paths::{
    diff_paths, is_absolute, is_absolute_path, join, joined, parent, parent_of, path_starts_with,
    relative_to, starts_with,
};
use vstd::prelude::*;
use vstd::string::StringExecFns;

verus! {

/// A configuration file together with the files that it builds on, each
/// with those that it builds on in turn.
pub struct ConfigTree {
    pub file: ParcelRcFile,
    pub extended: Vec<ConfigTree>,
}

/// The configuration that a file and the files that it builds on give, and
/// the paths of all these files.
pub open spec fn processed(tree: ConfigTree) -> (PartialView, Seq<Seq<char>>)
    decreases tree,
{
    if tree.extended@.len() == 0 {
        (config_of(tree.file), seq![tree.file.path@])
    } else {
        let below = folded(tree.extended@, tree.extended@.len() as int);
        (merged_config(config_of(tree.file), below.0), seq![tree.file.path@] + below.1)
    }
}

/// The configurations of the first `upto` of `trees`, merged in their
/// order, and the paths of their files.
pub open spec fn folded(trees: Seq<ConfigTree>, upto: int) -> (PartialView, Seq<Seq<char>>)
    decreases trees, upto,
{
    if upto <= 0 || upto > trees.len() {
        (crate::config::partial_parcel_config::empty_config(), Seq::empty())
    } else if upto == 1 {
        processed(trees[0])
    } else {
        let before = folded(trees, upto - 1);
        let next = processed(trees[upto - 1]);
        (merged_config(before.0, next.0), before.1 + next.1)
    }
}

/// Folds the configurations that the file of `tree` builds on into its own,
/// and lists the paths of all the files: that of the file first, then those
/// of the files that it builds on, each followed by its own.
pub fn process_config(tree: &ConfigTree) -> (done: (PartialParcelConfig, Vec<String>))
    ensures
        done.0@ == processed(*tree).0,
        texts(done.1@) == processed(*tree).1,
    decreases tree,
{
    let mut files: Vec<String> = Vec::new();
    files.push(tree.file.path.clone());
    assert(texts(files@) =~= seq![tree.file.path@]);
    if tree.extended.len() == 0 {
        return (PartialParcelConfig::from_file(&tree.file), files);
    }
    let (first, mut more) = process_config(&tree.extended[0]);
    let mut merged = first;
    let mut below: Vec<String> = Vec::new();
    below.append(&mut more);
    assert(texts(below@) =~= folded(tree.extended@, 1).1);
    let mut i: usize = 1;
    while i < tree.extended.len()
        invariant
            1 <= i <= tree.extended@.len(),
            merged@ == folded(tree.extended@, i as int).0,
            texts(below@) == folded(tree.extended@, i as int).1,
        decreases tree.extended@.len() - i,
    {
        let (next, mut paths) = process_config(&tree.extended[i]);
        let ghost before = below@;
        let ghost added = paths@;
        merged = PartialParcelConfig::merge(merged, next);
        below.append(&mut paths);
        assert(texts(below@) =~= texts(before) + texts(added));
        i += 1;
    }
    let own = PartialParcelConfig::from_file(&tree.file);
    let ghost head = files@;
    files.append(&mut below);
    assert(texts(files@) =~= texts(head) + folded(
        tree.extended@,
        tree.extended@.len() as int,
    ).1);
    (PartialParcelConfig::merge(own, merged), files)
}

/// The directory from which the search for a configuration file starts:
/// that in which `path` lies, or `path` itself where it lies in none.
pub open spec fn start_of(path: Seq<char>) -> Seq<char> {
    match parent_of(path) {
        Some(dir) => dir,
        None => path,
    }
}

/// Whether the path `relative`, which leads from the root of a project to
/// the current working directory, stays inside the project.
pub open spec fn stays_inside(relative: Option<Seq<char>>) -> bool {
    match relative {
        Some(path) => !path_starts_with(path, ".."@) && !is_absolute_path(path),
        None => false,
    }
}

/// The path from which the packages of a project are resolved: `index` in
/// the current working directory `cwd` where that lies inside the project
/// at `project_root`, else `index` in the project's root.
pub open spec fn resolved_from(cwd: Seq<char>, project_root: Seq<char>) -> Seq<char> {
    if stays_inside(relative_to(cwd, project_root)) {
        joined(cwd, "index"@)
    } else {
        joined(project_root, "index"@)
    }
}

/// The message that says that the configuration `extend`, which the file at
/// `config_path` builds on, was not found.
pub open spec fn unresolved(extend: Seq<char>, config_path: Seq<char>) -> Seq<char> {
    "Failed to resolve extended config "@ + extend + " from "@ + config_path
}

/// The directory from which the search for a configuration file starts.
pub fn start_dir(path: &String) -> (dir: String)
    ensures
        dir@ == start_of(path@),
{
    match parent(path.as_str()) {
        Some(dir) => dir,
        None => path.clone(),
    }
}

/// `config` is what a search for `.parcelrc` from the directory `from`
/// comes to when the file system answers `found`: the file that was found,
/// or the error that says that none was.
pub open spec fn is_located(
    found: Option<String>,
    from: Seq<char>,
    config: Result<String, DiagnosticError>,
) -> bool {
    match config {
        Ok(path) => found == Some(path),
        Err(error) => found is None && error@ == failure(
            "Unable to locate .parcelrc from "@ + from,
        ),
    }
}

/// What a search for `.parcelrc` from the directory `from` comes to: the
/// file that was found, or the error that says that none was.
pub fn located(found: Option<String>, from: &String) -> (config: Result<String, DiagnosticError>)
    ensures
        is_located(found, from@, config),
{
    match found {
        Some(path) => Ok(path),
        None => Err(
            DiagnosticError::new(
                String::from_str("Unable to locate .parcelrc from ").concat(from.as_str()),
            ),
        ),
    }
}

/// The path from which the packages of a project are resolved, for the
/// current working directory `cwd`.
pub fn resolve_from_cwd(cwd: &String, project_root: &String) -> (from: String)
    ensures
        from@ == resolved_from(cwd@, project_root@),
{
    let inside = match diff_paths(cwd.as_str(), project_root.as_str()) {
        Some(relative) => !starts_with(relative.as_str(), "..") && !is_absolute(
            relative.as_str(),
        ),
        None => false,
    };
    if inside {
        join(cwd.as_str(), "index")
    } else {
        join(project_root.as_str(), "index")
    }
}

/// The error that says that the configuration `extend`, which the file at
/// `config_path` builds on, was not found.
pub fn extend_error(extend: &String, config_path: &String) -> (error: DiagnosticError)
    ensures
        error@ == failure(unresolved(extend@, config_path@)),
{
    DiagnosticError::new(
        String::from_str("Failed to resolve extended config ").concat(extend.as_str()).concat(
            " from ",
        ).concat(config_path.as_str()),
    )
}

/// The path of the file named `extend` beside the file at `config_path`.
pub fn beside(config_path: &String, extend: &String) -> (path: String)
    ensures
        path@ == joined(start_of(config_path@), extend@),
{
    join(start_dir(config_path).as_str(), extend.as_str())
}

/// The path at which a package was found, or the error that said that it
/// was not.
pub open spec fn path_of(found: Result<Resolution, DiagnosticError>) -> Result<
    String,
    DiagnosticError,
> {
    match found {
        Ok(resolution) => Ok(resolution.resolved),
        Err(error) => Err(error),
    }
}

/// The path at which a package was found, or the error that said that it
/// was not.
pub fn resolved_path(found: Result<Resolution, DiagnosticError>) -> (path: Result<
    String,
    DiagnosticError,
>)
    ensures
        path == path_of(found),
{
    match found {
        Ok(resolution) => Ok(resolution.resolved),
        Err(error) => Err(error),
    }
}

/// `path` is what a step of the search for the configuration `extend`,
/// which the file at `config_path` builds on, comes to when the step answers
/// `found`: the path that it found, or the error that names the
/// configuration and the file.
pub open spec fn is_resolved(
    found: Result<String, DiagnosticError>,
    extend: Seq<char>,
    config_path: Seq<char>,
    path: Result<String, DiagnosticError>,
) -> bool {
    match path {
        Ok(same) => found == Ok::<String, DiagnosticError>(same),
        Err(error) => found is Err && error@ == failure(unresolved(extend, config_path)),
    }
}

/// What a step of the search for the configuration `extend`, which the file
/// at `config_path` builds on, comes to: the path that it found, or the
/// error that names the configuration and the file.
pub fn or_unresolved(
    found: Result<String, DiagnosticError>,
    extend: &String,
    config_path: &String,
) -> (path: Result<String, DiagnosticError>)
    ensures
        is_resolved(found, extend@, config_path@, path),
{
    match found {
        Ok(path) => Ok(path),
        Err(_) => Err(extend_error(extend, config_path)),
    }
}

/// Finds the configuration files of a project, by way of a file system and
/// a package manager.
pub struct ParcelRcConfig<'a, T, U> {
    fs: &'a T,
    package_manager: &'a U,
}

impl<'a, T: FileSystem, U: PackageManager> ParcelRcConfig<'a, T, U> {
    /// The file system that the finder looks through.
    pub closed spec fn fs(&self) -> &T {
        self.fs
    }

    /// The package manager that the finder asks.
    pub closed spec fn package_manager(&self) -> &U {
        self.package_manager
    }

    /// The file system, asked for its current working directory, answers
    /// `cwd`.
    pub open spec fn works_in(&self, cwd: String) -> bool {
        T::cwd.ensures((self.fs(),), cwd)
    }

    /// The file system, asked for a file with one of the names `names` in
    /// the directory `from` or above it, as far as `root`, answers `found`.
    pub open spec fn finds_above(
        &self,
        names: Vec<String>,
        from: String,
        root: String,
        found: Option<String>,
    ) -> bool {
        T::find_ancestor_file.ensures((self.fs(), &names, &from, &root), found)
    }

    /// The file system, asked for the canonical form of `path`, answers
    /// `found`.
    pub open spec fn canonical(&self, path: String, found: Result<String, DiagnosticError>) -> bool {
        T::canonicalize.ensures((self.fs(), &path), found)
    }

    /// What `resolve_config` returns for the project at `project_root` and
    /// the path `path`: what a search for `.parcelrc` comes to, from the
    /// directory of `path` and as far as the root of the project, whatever
    /// the file system answers.
    pub open spec fn config_resolved(
        &self,
        project_root: String,
        path: String,
        config: Result<String, DiagnosticError>,
    ) -> bool {
        exists|names: Vec<String>, from: String, found: Option<String>|
            {
                &&& texts(names@) == seq![".parcelrc"@]
                &&& from@ == start_of(path@)
                &&& #[trigger] self.finds_above(names, from, project_root, found)
                &&& is_located(found, from@, config)
            }
    }

    /// What `resolve_extends` returns for the file at `config_path` and the
    /// configuration `extend` that it builds on. A name that starts with a
    /// dot is the file of that name beside the file; any other is a
    /// package, and where the package manager does not find it, the search
    /// has failed. Of the path that was found, the file system gives the
    /// canonical form, or makes the search fail.
    pub open spec fn extends_resolved(
        &self,
        config_path: String,
        extend: String,
        config: Result<String, DiagnosticError>,
    ) -> bool {
        if "."@.is_prefix_of(extend@) {
            exists|path: String, found: Result<String, DiagnosticError>|
                {
                    &&& path@ == joined(start_of(config_path@), extend@)
                    &&& #[trigger] self.canonical(path, found)
                    &&& is_resolved(found, extend@, config_path@, config)
                }
        } else {
            exists|looked: Result<Resolution, DiagnosticError>|
                {
                    &&& #[trigger] asked(self.package_manager(), extend, config_path, looked)
                    &&& match looked {
                        Ok(resolution) => exists|found: Result<String, DiagnosticError>|
                            {
                                &&& #[trigger] self.canonical(resolution.resolved, found)
                                &&& is_resolved(found, extend@, config_path@, config)
                            },
                        Err(_) => config matches Err(error) && error@ == failure(
                            unresolved(extend@, config_path@),
                        ),
                    }
                }
        }
    }

    /// What `resolve_from` returns for the project at `project_root`: the
    /// path from which packages are resolved, for the current working
    /// directory that the file system gives.
    pub open spec fn resolves_from(&self, project_root: String, from: String) -> bool {
        exists|cwd: String|
            #[trigger] self.works_in(cwd) && from@ == resolved_from(cwd@, project_root@)
    }

    /// The first place in which `config_path` looks, seen from `from`: the
    /// package `config` where one is named, else the `.parcelrc` of the
    /// project.
    pub open spec fn first_choice(
        &self,
        project_root: String,
        config: Option<String>,
        from: String,
        first: Result<String, DiagnosticError>,
    ) -> bool {
        match config {
            Some(specifier) => exists|looked: Result<Resolution, DiagnosticError>|
                #[trigger] asked(self.package_manager(), specifier, from, looked) && first
                    == path_of(looked),
            None => self.config_resolved(project_root, from, first),
        }
    }

    /// What `config_path` returns: the first choice, seen from the path
    /// from which packages are resolved, and behind it the fallback.
    pub open spec fn path_found(
        &self,
        project_root: String,
        config: Option<String>,
        fallback_config: Option<String>,
        path: Result<String, DiagnosticError>,
    ) -> bool {
        exists|from: String, first: Result<String, DiagnosticError>|
            {
                &&& self.resolves_from(project_root, from)
                &&& #[trigger] self.first_choice(project_root, config, from, first)
                &&& fallen_back(first, fallback_config, self.package_manager(), from, path)
            }
    }

    /// A finder that looks through `fs` and asks `package_manager`.
    pub fn new(fs: &'a T, package_manager: &'a U) -> (config: Self)
        ensures
            config.fs() == fs,
            config.package_manager() == package_manager,
    {
        ParcelRcConfig { fs, package_manager }
    }

    /// Searches for `.parcelrc` from the directory of `path` upwards, as
    /// far as `project_root`. Where the file system finds none, the error
    /// names the directory from which the search started.
    pub fn resolve_config(&self, project_root: &String, path: &String) -> (config: Result<
        String,
        DiagnosticError,
    >)
        ensures
            self.config_resolved(*project_root, *path, config),
            config matches Err(error) ==> error@ == failure(
                "Unable to locate .parcelrc from "@ + start_of(path@),
            ),
    {
        let from = start_dir(path);
        let mut names: Vec<String> = Vec::new();
        names.push(String::from_str(".parcelrc"));
        assert(texts(names@) =~= seq![".parcelrc"@]);
        let found = self.fs.find_ancestor_file(&names, &from, project_root);
        assert(self.finds_above(names, from, *project_root, found));
        located(found, &from)
    }

    /// Finds the configuration `extend` that the file at `config_path`
    /// builds on: the file of that name beside it where the name starts
    /// with a dot, else the package of that name; and, of what was found,
    /// the canonical path. Whatever fails, the error names the
    /// configuration and the file.
    pub fn resolve_extends(&self, config_path: &String, extend: &String) -> (config: Result<
        String,
        DiagnosticError,
    >)
        ensures
            self.extends_resolved(*config_path, *extend, config),
            config matches Err(error) ==> error@ == failure(unresolved(extend@, config_path@)),
    {
        if crate::text::starts_with(extend.as_str(), ".") {
            let path = beside(config_path, extend);
            let found = self.fs.canonicalize(&path);
            assert(self.canonical(path, found));
            or_unresolved(found, extend, config_path)
        } else {
            let looked = self.package_manager.resolve(extend, config_path);
            assert(asked(self.package_manager(), *extend, *config_path, looked));
            match looked {
                Ok(resolution) => {
                    let found = self.fs.canonicalize(&resolution.resolved);
                    assert(self.canonical(resolution.resolved, found));
                    or_unresolved(found, extend, config_path)
                },
                Err(_) => Err(extend_error(extend, config_path)),
            }
        }
    }

    /// The path from which the packages of the project at `project_root`
    /// are resolved, for the current working directory of the file system.
    pub fn resolve_from(&self, project_root: &String) -> (from: String)
        ensures
            self.resolves_from(*project_root, from),
    {
        let cwd = self.fs.cwd();
        assert(self.works_in(cwd));
        resolve_from_cwd(&cwd, project_root)
    }

    /// Finds the configuration file of the project at `project_root`: the
    /// package `config` where one is named, else the `.parcelrc` of the
    /// project; and where that fails, the package `fallback_config` if one
    /// is named.
    pub fn config_path(
        &self,
        project_root: &String,
        config: Option<String>,
        fallback_config: Option<String>,
    ) -> (path: Result<String, DiagnosticError>)
        ensures
            self.path_found(*project_root, config, fallback_config, path),
    {
        let resolve_from = self.resolve_from(project_root);
        let first = match config {
            Some(specifier) => {
                let looked = self.package_manager.resolve(&specifier, &resolve_from);
                assert(asked(self.package_manager(), specifier, resolve_from, looked));
                resolved_path(looked)
            },
            None => self.resolve_config(project_root, &resolve_from),
        };
        assert(self.first_choice(*project_root, config, resolve_from, first));
        fall_back(first, fallback_config, self.package_manager, &resolve_from)
    }
}

/// The package manager `package_manager`, asked for the package `specifier`
/// as `from` names it, answers `looked`.
pub open spec fn asked<U: PackageManager>(
    package_manager: &U,
    specifier: String,
    from: String,
    looked: Result<Resolution, DiagnosticError>,
) -> bool {
    U::resolve.ensures((package_manager, &specifier, &from), looked)
}

/// `path` is what the search for a configuration file comes to once the
/// fallback has had its turn: the file that was found first; or, where none
/// was, what the package manager answers for the package `fallback_config`,
/// if one is named, and else the first error.
pub open spec fn fallen_back<U: PackageManager>(
    first: Result<String, DiagnosticError>,
    fallback_config: Option<String>,
    package_manager: &U,
    resolve_from: String,
    path: Result<String, DiagnosticError>,
) -> bool {
    match (first, fallback_config) {
        (Err(_), Some(specifier)) => exists|looked: Result<Resolution, DiagnosticError>|
            #[trigger] asked(package_manager, specifier, resolve_from, looked) && path == path_of(
                looked,
            ),
        _ => path == first,
    }
}

/// What the search for a configuration file comes to once the fallback has
/// had its turn: the file that was found first, or the package
/// `fallback_config` where none was and one is named, or the first error.
pub fn fall_back<U: PackageManager>(
    first: Result<String, DiagnosticError>,
    fallback_config: Option<String>,
    package_manager: &U,
    resolve_from: &String,
) -> (path: Result<String, DiagnosticError>)
    ensures
        fallen_back(first, fallback_config, package_manager, *resolve_from, path),
{
    match first {
        Ok(found) => Ok(found),
        Err(error) => match fallback_config {
            Some(specifier) => {
                let looked = package_manager.resolve(&specifier, resolve_from);
                assert(asked(package_manager, specifier, *resolve_from, looked));
                resolved_path(looked)
            },
            None => Err(error),
        },
    }
}

} // verus!
