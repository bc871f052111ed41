use indexmap::IndexMap;
use parcel_heap::config::parcel_config::{
    filter_out_extends, filter_out_extends_from_map, ParcelConfig,
};
use parcel_heap::config::partial_parcel_config::PartialParcelConfig;
use parcel_heap::config::plugin::PluginNode;
use parcel_heap::diagnostic::DiagnosticError;
use parcel_heap::paths::FilePath;
use std::rc::Rc;

fn plugin(name: &str) -> PluginNode {
    PluginNode {
        package_name: String::from(name),
        resolve_from: Rc::new(String::from("/.parcelrc")),
    }
}

fn pipelines(entries: Vec<(&str, Vec<&str>)>) -> IndexMap<String, Vec<PluginNode>> {
    let mut map = IndexMap::new();
    for (pattern, names) in entries {
        map.insert(
            String::from(pattern),
            names.into_iter().map(plugin).collect(),
        );
    }
    map
}

fn file(path: &str) -> FilePath {
    FilePath::new(String::from(path)).unwrap()
}

fn failure(message: &str) -> DiagnosticError {
    DiagnosticError::new(String::from(message))
}

fn partial() -> PartialParcelConfig {
    let mut packagers = IndexMap::new();
    packagers.insert(String::from("*.{js,mjs}"), plugin("packager-js"));
    packagers.insert(String::from("*.js"), plugin("packager-late"));
    packagers.insert(String::from("*.css"), plugin("packager-css"));
    PartialParcelConfig {
        bundler: Some(plugin("bundler")),
        compressors: pipelines(vec![("*.js", vec!["...", "gzip", "..."])]),
        namers: vec![plugin("..."), plugin("namer")],
        optimizers: pipelines(vec![
            ("*.js", vec!["swc"]),
            ("data-url:*", vec!["data-url"]),
        ]),
        packagers,
        reporters: vec![plugin("reporter"), plugin("...")],
        resolvers: vec![plugin("resolver")],
        runtimes: vec![plugin("...")],
        transformers: pipelines(vec![
            ("*.{js,ts}", vec!["js"]),
            ("types:*.ts", vec!["types", "..."]),
        ]),
        validators: pipelines(vec![("*.ts", vec!["tsc"])]),
    }
}

fn config() -> ParcelConfig {
    ParcelConfig::try_from(partial()).unwrap()
}

#[test]
fn a_configuration_without_a_bundler_is_not_complete() {
    let missing = PartialParcelConfig {
        bundler: None,
        ..partial()
    };
    assert_eq!(
        ParcelConfig::try_from(missing).err(),
        Some(failure("Missing bundler"))
    );
    assert_eq!(
        ParcelConfig::try_from(PartialParcelConfig::default()).err(),
        Some(failure("Missing bundler"))
    );
}

#[test]
fn the_spreads_are_filtered_out() {
    assert_eq!(
        filter_out_extends(vec![plugin("..."), plugin("a"), plugin("..."), plugin("b")]),
        vec![plugin("a"), plugin("b")]
    );
    assert_eq!(filter_out_extends(vec![plugin("...")]), vec![]);
    assert_eq!(filter_out_extends(vec![]), vec![]);
    let filtered = filter_out_extends_from_map(pipelines(vec![
        ("*.js", vec!["...", "a"]),
        ("*.ts", vec!["..."]),
        ("*.css", vec!["b", "c"]),
    ]));
    let entries: Vec<(&String, &Vec<PluginNode>)> = filtered.iter().collect();
    assert_eq!(
        entries,
        vec![
            (&String::from("*.js"), &vec![plugin("a")]),
            (&String::from("*.ts"), &vec![]),
            (&String::from("*.css"), &vec![plugin("b"), plugin("c")]),
        ]
    );
}

#[test]
fn the_complete_configuration_has_lost_its_spreads() {
    let config = config();
    assert_eq!(config.bundler(), Ok(plugin("bundler")));
    assert_eq!(config.namers(), Ok(vec![plugin("namer")]));
    assert_eq!(config.reporters(), Ok(vec![plugin("reporter")]));
    assert_eq!(config.resolvers(), Ok(vec![plugin("resolver")]));
    assert_eq!(config.runtimes(), Ok(vec![]));
    assert_eq!(config.compressors(&file("a.js")), Ok(vec![plugin("gzip")]));
}

#[test]
fn missing_plugins_are_errors_where_they_are_needed() {
    let bare = ParcelConfig::try_from(PartialParcelConfig {
        bundler: Some(plugin("bundler")),
        ..PartialParcelConfig::default()
    })
    .unwrap();
    assert_eq!(
        bare.namers(),
        Err(failure("No namer plugins specified in .parcelrc config"))
    );
    assert_eq!(
        bare.resolvers(),
        Err(failure("No resolvers specified in .parcelrc config"))
    );
    assert_eq!(bare.reporters(), Ok(vec![]));
    assert_eq!(bare.runtimes(), Ok(vec![]));
    assert_eq!(bare.validators(&file("a.js")), Ok(vec![]));
    assert_eq!(bare.optimizers(&file("a.js"), &None), Ok(vec![]));
    assert_eq!(
        bare.compressors(&file("src/a.js")),
        Err(failure("No compressors found for src/a.js"))
    );
    assert_eq!(
        bare.packager(&file("src/a.js")),
        Err(failure("No packager found for src/a.js"))
    );
    assert_eq!(
        bare.transformers(&file("src/a.js"), &None, false),
        Err(failure("No transformers found for src/a.js."))
    );
    assert_eq!(
        bare.transformers(&file("src/a.js"), &Some(String::from("types")), false),
        Err(failure(
            "No transformers found for src/a.js with pipeline \"types\"."
        ))
    );
    assert_eq!(bare.transformers(&file("src/a.js"), &None, true), Ok(vec![]));
}

#[test]
fn transformers_follow_the_pipeline() {
    let config = config();
    assert_eq!(
        config.transformers(&file("a.ts"), &None, false),
        Ok(vec![plugin("js")])
    );
    assert_eq!(
        config.transformers(&file("a.ts"), &Some(String::from("types")), false),
        Ok(vec![plugin("types"), plugin("js")])
    );
    assert_eq!(
        config.transformers(&file("a.js"), &Some(String::from("types")), true),
        Ok(vec![])
    );
    assert_eq!(
        config.transformers(&file("a.css"), &None, false),
        Err(failure("No transformers found for a.css."))
    );
    assert_eq!(config.validators(&file("a.ts")), Ok(vec![plugin("tsc")]));
    assert_eq!(config.validators(&file("a.js")), Ok(vec![]));
}

#[test]
fn the_first_packager_that_matches_is_taken() {
    let config = config();
    assert_eq!(config.packager(&file("a.js")), Ok(plugin("packager-js")));
    assert_eq!(config.packager(&file("a.mjs")), Ok(plugin("packager-js")));
    assert_eq!(
        config.packager(&file("src/a.css")),
        Ok(plugin("packager-css"))
    );
    assert_eq!(
        config.packager(&file("a.html")),
        Err(failure("No packager found for a.html"))
    );
}

#[test]
fn optimizers_ignore_a_pipeline_that_they_do_not_name() {
    let config = config();
    assert_eq!(
        config.optimizers(&file("a.js"), &None),
        Ok(vec![plugin("swc")])
    );
    assert_eq!(
        config.optimizers(&file("a.js"), &Some(String::from("types"))),
        Ok(vec![plugin("swc")])
    );
    assert_eq!(
        config.optimizers(&file("a.js"), &Some(String::from("data-url"))),
        Ok(vec![plugin("data-url"), plugin("swc")])
    );
    assert_eq!(
        config.optimizers(&file("a.css"), &Some(String::from("data-url"))),
        Ok(vec![plugin("data-url")])
    );
    assert_eq!(config.optimizers(&file("a.css"), &None), Ok(vec![]));
}
