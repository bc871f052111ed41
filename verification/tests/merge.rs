use indexmap::IndexMap;
use parcel_heap::config::parcel_rc::{Extends, ParcelRc, ParcelRcFile};
use parcel_heap::config::partial_parcel_config::{
    merge_pipeline_map, merge_pipelines, merge_pipelines_map, PartialParcelConfig,
};
use parcel_heap::config::plugin::PluginNode;
use std::rc::Rc;

fn plugin(name: &str, from: &str) -> PluginNode {
    PluginNode {
        package_name: String::from(name),
        resolve_from: Rc::new(String::from(from)),
    }
}

fn with_bundler(plugin: PluginNode) -> PartialParcelConfig {
    PartialParcelConfig {
        bundler: Some(plugin),
        ..PartialParcelConfig::default()
    }
}

fn with_compressors(entries: Vec<(&str, Vec<PluginNode>)>) -> PartialParcelConfig {
    let mut compressors = IndexMap::new();
    for (pattern, plugins) in entries {
        compressors.insert(String::from(pattern), plugins);
    }
    PartialParcelConfig {
        compressors,
        ..PartialParcelConfig::default()
    }
}

fn with_namers(namers: Vec<PluginNode>) -> PartialParcelConfig {
    PartialParcelConfig {
        namers,
        ..PartialParcelConfig::default()
    }
}

#[test]
fn partial_parcel_config_uses_from_when_extend_missing() {
    // bundler
    let from = with_bundler(plugin("a", "/"));
    let extend = PartialParcelConfig::default();
    let expected = from.clone();
    assert_eq!(PartialParcelConfig::merge(from, extend), expected);

    // compressors
    let from = with_compressors(vec![("*.js", vec![plugin("a", "/")])]);
    let extend = PartialParcelConfig::default();
    let expected = from.clone();
    assert_eq!(PartialParcelConfig::merge(from, extend), expected);

    // namers
    let from = with_namers(vec![plugin("a", "/")]);
    let extend = PartialParcelConfig::default();
    let expected = from.clone();
    assert_eq!(PartialParcelConfig::merge(from, extend), expected);
}

#[test]
fn partial_parcel_config_uses_extend_when_from_missing() {
    // bundler
    let from = PartialParcelConfig::default();
    let extend = with_bundler(plugin("a", "/"));
    let expected = extend.clone();
    assert_eq!(PartialParcelConfig::merge(from, extend), expected);

    // compressors
    let from = PartialParcelConfig::default();
    let extend = with_compressors(vec![("*.js", vec![plugin("a", "/")])]);
    let expected = extend.clone();
    assert_eq!(PartialParcelConfig::merge(from, extend), expected);

    // namers
    let from = PartialParcelConfig::default();
    let extend = with_namers(vec![plugin("a", "/")]);
    let expected = extend.clone();
    assert_eq!(PartialParcelConfig::merge(from, extend), expected);
}

#[test]
fn merges_using_from() {
    let from = with_bundler(plugin("a", "/"));
    let extend = with_bundler(plugin("b", "/"));
    let expected = from.clone();

    assert_eq!(PartialParcelConfig::merge(from, extend), expected);
}

#[test]
fn merges_patterns() {
    let from = with_compressors(vec![("*.js", vec![plugin("a", "/")])]);
    let extend = with_compressors(vec![("*.{cjs,js,mjs}", vec![plugin("b", "~")])]);

    assert_eq!(
        PartialParcelConfig::merge(from, extend),
        with_compressors(vec![
            ("*.js", vec![plugin("a", "/")]),
            ("*.{cjs,js,mjs}", vec![plugin("b", "~")]),
        ])
    );
}

#[test]
fn partial_parcel_config_merges_pipelines_with_missing_dot_dot_dot() {
    // compressors
    let from = with_compressors(vec![("*.js", vec![plugin("a", "/"), plugin("b", "/")])]);
    let extend = with_compressors(vec![("*.js", vec![plugin("c", "/")])]);
    let expected = from.clone();
    assert_eq!(PartialParcelConfig::merge(from, extend), expected);

    // namers
    let from = with_namers(vec![plugin("a", "/"), plugin("b", "/")]);
    let extend = with_namers(vec![plugin("c", "/")]);
    let expected = from.clone();
    assert_eq!(PartialParcelConfig::merge(from, extend), expected);
}

#[test]
fn partial_parcel_config_merges_pipelines_with_dot_dot_dot() {
    // compressors
    let from = with_compressors(vec![(
        "*.js",
        vec![plugin("a", "/"), plugin("...", "/"), plugin("c", "/")],
    )]);
    let extend = with_compressors(vec![("*.js", vec![plugin("b", "~")])]);
    assert_eq!(
        PartialParcelConfig::merge(from, extend),
        with_compressors(vec![(
            "*.js",
            vec![plugin("a", "/"), plugin("b", "~"), plugin("c", "/")]
        )])
    );

    // namers
    let from = with_namers(vec![plugin("a", "/"), plugin("...", "/"), plugin("c", "/")]);
    let extend = with_namers(vec![plugin("b", "~")]);
    assert_eq!(
        PartialParcelConfig::merge(from, extend),
        with_namers(vec![plugin("a", "/"), plugin("b", "~"), plugin("c", "/")])
    );
}

#[test]
fn partial_parcel_config_merges_pipelines_with_dot_dot_dot_match_in_grandparent() {
    // compressors
    let from = with_compressors(vec![(
        "*.js",
        vec![plugin("a", "/"), plugin("...", "/"), plugin("c", "/")],
    )]);
    let extend_1 = PartialParcelConfig::default();
    let extend_2 = with_compressors(vec![("*.js", vec![plugin("b", "~")])]);
    assert_eq!(
        PartialParcelConfig::merge(PartialParcelConfig::merge(from, extend_1), extend_2),
        with_compressors(vec![(
            "*.js",
            vec![plugin("a", "/"), plugin("b", "~"), plugin("c", "/")]
        )])
    );

    // namers
    let from = with_namers(vec![plugin("a", "/"), plugin("...", "/"), plugin("c", "/")]);
    let extend_1 = PartialParcelConfig::default();
    let extend_2 = with_namers(vec![plugin("b", "~")]);
    assert_eq!(
        PartialParcelConfig::merge(PartialParcelConfig::merge(from, extend_1), extend_2),
        with_namers(vec![plugin("a", "/"), plugin("b", "~"), plugin("c", "/")])
    );
}

#[test]
fn only_the_first_spread_is_replaced() {
    let from = vec![plugin("...", "/"), plugin("a", "/"), plugin("...", "/")];
    let extend = vec![plugin("x", "~"), plugin("y", "~")];
    assert_eq!(
        merge_pipelines(from, extend),
        vec![
            plugin("x", "~"),
            plugin("y", "~"),
            plugin("a", "/"),
            plugin("...", "/")
        ]
    );
    assert_eq!(
        merge_pipelines(vec![plugin("a", "/"), plugin("...", "/")], vec![]),
        vec![plugin("a", "/"), plugin("...", "/")]
    );
    assert_eq!(
        merge_pipelines(vec![], vec![plugin("...", "~")]),
        vec![plugin("...", "~")]
    );
}

#[test]
fn a_merged_map_starts_with_what_is_built_on() {
    let mut map = IndexMap::new();
    map.insert(String::from("*.js"), vec![plugin("a", "/"), plugin("...", "/")]);
    map.insert(String::from("*.css"), vec![plugin("c", "/")]);
    let mut extend = IndexMap::new();
    extend.insert(String::from("*.ts"), vec![plugin("t", "~")]);
    extend.insert(String::from("*.js"), vec![plugin("b", "~")]);
    let merged = merge_pipelines_map(map, extend);
    let entries: Vec<(&String, &Vec<PluginNode>)> = merged.iter().collect();
    assert_eq!(
        entries,
        vec![
            (&String::from("*.ts"), &vec![plugin("t", "~")]),
            (&String::from("*.js"), &vec![plugin("a", "/"), plugin("b", "~")]),
            (&String::from("*.css"), &vec![plugin("c", "/")]),
        ]
    );
}

#[test]
fn a_merged_packager_is_the_one_of_the_configuration_itself() {
    let mut map = IndexMap::new();
    map.insert(String::from("*.js"), plugin("a", "/"));
    map.insert(String::from("*.css"), plugin("c", "/"));
    let mut extend = IndexMap::new();
    extend.insert(String::from("*.ts"), plugin("t", "~"));
    extend.insert(String::from("*.js"), plugin("b", "~"));
    let merged = merge_pipeline_map(map, extend);
    let entries: Vec<(&String, &PluginNode)> = merged.iter().collect();
    assert_eq!(
        entries,
        vec![
            (&String::from("*.ts"), &plugin("t", "~")),
            (&String::from("*.js"), &plugin("a", "/")),
            (&String::from("*.css"), &plugin("c", "/")),
        ]
    );
    let mut only = IndexMap::new();
    only.insert(String::from("*"), plugin("p", "/"));
    assert_eq!(merge_pipeline_map(only.clone(), IndexMap::new()), only);
    assert_eq!(merge_pipeline_map(IndexMap::new(), only.clone()), only);
}

#[test]
fn configurations_are_equal_whatever_the_order_of_their_maps() {
    let a = with_compressors(vec![
        ("*.js", vec![plugin("a", "/")]),
        ("*.ts", vec![plugin("b", "/")]),
    ]);
    let b = with_compressors(vec![
        ("*.ts", vec![plugin("b", "/")]),
        ("*.js", vec![plugin("a", "/")]),
    ]);
    assert_eq!(a, b);
    let c = with_compressors(vec![
        ("*.ts", vec![plugin("b", "/")]),
        ("*.js", vec![plugin("a", "~")]),
    ]);
    assert_ne!(a, c);
    assert_ne!(with_namers(vec![plugin("a", "/")]), with_namers(vec![]));
    assert_ne!(
        with_bundler(plugin("a", "/")),
        PartialParcelConfig::default()
    );
}

fn parcel_rc() -> ParcelRc {
    ParcelRc {
        extends: None,
        bundler: None,
        compressors: None,
        namers: None,
        optimizers: None,
        packagers: None,
        reporters: None,
        resolvers: None,
        runtimes: None,
        transformers: None,
        validators: None,
    }
}

#[test]
fn a_file_gives_plugins_that_are_resolved_from_it() {
    let file = ParcelRcFile {
        path: String::from("/project/.parcelrc"),
        contents: ParcelRc {
            bundler: Some(String::from("@parcel/bundler-default")),
            namers: Some(vec![String::from("n1"), String::from("...")]),
            compressors: Some(vec![
                (String::from("*"), vec![String::from("raw")]),
                (String::from("*.js"), vec![String::from("gzip")]),
                (String::from("*"), vec![String::from("brotli"), String::from("raw")]),
            ]),
            packagers: Some(vec![
                (String::from("*.js"), String::from("js")),
                (String::from("*.css"), String::from("css")),
                (String::from("*.js"), String::from("other")),
            ]),
            ..parcel_rc()
        },
    };
    let from = "/project/.parcelrc";
    let config = PartialParcelConfig::from_file(&file);
    assert_eq!(config.bundler, Some(plugin("@parcel/bundler-default", from)));
    assert_eq!(config.namers, vec![plugin("n1", from), plugin("...", from)]);
    assert_eq!(config.reporters, vec![]);
    let compressors: Vec<(&String, &Vec<PluginNode>)> = config.compressors.iter().collect();
    assert_eq!(
        compressors,
        vec![
            (
                &String::from("*"),
                &vec![plugin("brotli", from), plugin("raw", from)]
            ),
            (&String::from("*.js"), &vec![plugin("gzip", from)]),
        ]
    );
    let packagers: Vec<(&String, &PluginNode)> = config.packagers.iter().collect();
    assert_eq!(
        packagers,
        vec![
            (&String::from("*.js"), &plugin("other", from)),
            (&String::from("*.css"), &plugin("css", from)),
        ]
    );
    assert!(config.transformers.is_empty());
    assert_eq!(PartialParcelConfig::from(&file), config);
    assert_eq!(
        PartialParcelConfig::from_file(&ParcelRcFile {
            path: String::from("x"),
            contents: parcel_rc()
        }),
        PartialParcelConfig::default()
    );
}

#[test]
fn a_file_lists_what_it_builds_on() {
    let mut contents = parcel_rc();
    assert_eq!(contents.extends_list(), Vec::<String>::new());
    contents.extends = Some(Extends::One(String::from("")));
    assert_eq!(contents.extends_list(), Vec::<String>::new());
    contents.extends = Some(Extends::One(String::from("@parcel/config-default")));
    assert_eq!(contents.extends_list(), vec!["@parcel/config-default"]);
    contents.extends = Some(Extends::Many(vec![]));
    assert_eq!(contents.extends_list(), Vec::<String>::new());
    contents.extends = Some(Extends::Many(vec![String::from("./a"), String::from("b")]));
    assert_eq!(contents.extends_list(), vec!["./a", "b"]);
}

#[test]
fn a_copy_of_a_configuration_says_the_same() {
    let mut packagers = IndexMap::new();
    packagers.insert(String::from("*.js"), plugin("js", "/"));
    packagers.insert(String::from("*.css"), plugin("css", "~"));
    let config = PartialParcelConfig {
        packagers,
        ..with_compressors(vec![
            ("*.js", vec![plugin("a", "/")]),
            ("*", vec![plugin("b", "/"), plugin("c", "~")]),
        ])
    };
    let copy = config.clone();
    assert_eq!(copy, config);
    assert_eq!(copy.packagers, config.packagers);
    assert_eq!(copy.packagers.len(), 2);
    assert_eq!(copy.packagers.get_index(1), Some((&String::from("*.css"), &plugin("css", "~"))));
    assert_eq!(copy.compressors.get_index(1).unwrap().1.len(), 2);
    assert_ne!(copy, PartialParcelConfig::default());
    let mut other = IndexMap::new();
    other.insert(String::from("*.js"), plugin("js", "/"));
    other.insert(String::from("*.css"), plugin("css", "/"));
    assert_ne!(
        PartialParcelConfig {
            packagers: other,
            ..config.clone()
        },
        config
    );
}
