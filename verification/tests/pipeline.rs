use indexmap::IndexMap;
use parcel_heap::config::plugin::{PipelineMap, PluginNode};
use parcel_heap::paths::FilePath;
use std::rc::Rc;

fn plugin(name: &str) -> Vec<PluginNode> {
    vec![PluginNode {
        package_name: String::from(name),
        resolve_from: Rc::new(String::default()),
    }]
}

fn pipelines() -> Vec<PluginNode> {
    plugin("@parcel/plugin-1")
}

fn pipelines_two() -> Vec<PluginNode> {
    plugin("@parcel/plugin-2")
}

fn pipelines_three() -> Vec<PluginNode> {
    plugin("@parcel/plugin-3")
}

fn map_of(entries: Vec<(&str, Vec<PluginNode>)>) -> PipelineMap {
    let mut map = IndexMap::new();
    for (pattern, plugins) in entries {
        map.insert(String::from(pattern), plugins);
    }
    PipelineMap::new(map)
}

fn file(path: &str) -> FilePath {
    FilePath::new(String::from(path)).unwrap()
}

fn paths(filename: &str) -> Vec<FilePath> {
    let cwd = "/work/project";
    vec![
        file(filename),
        file(&format!("{}/{}", cwd, filename)),
        file(&format!("{}/src/{}", cwd, filename)),
    ]
}

fn named(pipeline: &str) -> Option<String> {
    Some(String::from(pipeline))
}

#[test]
fn returns_empty_vec_for_empty_map() {
    let empty_map = PipelineMap::default();
    let empty_pipeline: Option<String> = None;
    let empty_vec: Vec<PluginNode> = Vec::new();

    assert_eq!(empty_map.get(&file("a.js"), &empty_pipeline), empty_vec);

    assert_eq!(empty_map.get(&file("a.toml"), &empty_pipeline), empty_vec);
}

#[test]
fn returns_empty_vec_when_no_matching_path() {
    let empty_pipeline: Option<String> = None;
    let empty_vec: Vec<PluginNode> = Vec::new();
    let map = map_of(vec![("*.{js,ts}", pipelines()), ("*.toml", pipelines())]);

    assert_eq!(map.get(&file("a.css"), &empty_pipeline), empty_vec);
    assert_eq!(map.get(&file("a.jsx"), &empty_pipeline), empty_vec);
    assert_eq!(map.get(&file("a.tsx"), &empty_pipeline), empty_vec);
    assert_eq!(map.get(&file("a.tom"), &empty_pipeline), empty_vec);
    assert_eq!(map.get(&file("a.tomla"), &empty_pipeline), empty_vec);
}

#[test]
fn returns_empty_vec_when_no_matching_pipeline() {
    let empty_vec: Vec<PluginNode> = Vec::new();
    let map = map_of(vec![
        ("*.{js,ts}", pipelines()),
        ("*.toml", pipelines()),
        ("types:*.{ts,tsx}", pipelines()),
        ("url:*", pipelines_two()),
    ]);

    assert_eq!(map.get(&file("a.css"), &named("css")), empty_vec);
    assert_eq!(map.get(&file("a.jsx"), &named("jsx")), empty_vec);
    assert_eq!(map.get(&file("a.tsx"), &named("tsx")), empty_vec);
    assert_eq!(map.get(&file("a.ts"), &named("typesa")), empty_vec);
    assert_eq!(map.get(&file("a.js"), &named("data-url")), empty_vec);
}

#[test]
fn returns_matching_plugins_for_empty_pipeline() {
    let empty_pipeline: Option<String> = None;
    let map = map_of(vec![("*.{js,ts}", pipelines()), ("*.toml", pipelines_two())]);

    for path in paths("a.js") {
        assert_eq!(map.get(&path, &empty_pipeline), pipelines());
    }

    for path in paths("a.ts") {
        assert_eq!(map.get(&path, &empty_pipeline), pipelines());
    }

    for path in paths("a.toml") {
        assert_eq!(map.get(&path, &empty_pipeline), pipelines_two());
    }
}

#[test]
fn returns_matching_plugins_for_pipeline() {
    let map = map_of(vec![
        ("*.{js,ts}", pipelines_three()),
        ("*.toml", pipelines_three()),
        ("types:*.{ts,tsx}", pipelines()),
        ("url:*", pipelines_two()),
    ]);

    let expected_ts: Vec<PluginNode> = [pipelines(), pipelines_three()].concat();
    for path in paths("a.ts") {
        assert_eq!(map.get(&path, &named("types")), expected_ts);
    }

    for path in paths("a.tsx") {
        assert_eq!(map.get(&path, &named("types")), pipelines());
    }

    for path in paths("a.url") {
        assert_eq!(map.get(&path, &named("url")), pipelines_two());
    }
}

#[test]
fn returns_true_when_named_pipeline_exists() {
    let map = map_of(vec![("data-url:*", pipelines())]);

    assert_eq!(map.contains_named_pipeline("data-url"), true);
}

#[test]
fn returns_false_for_empty_map() {
    let empty_map = PipelineMap::default();

    assert_eq!(empty_map.contains_named_pipeline("data-url"), false);
    assert_eq!(empty_map.contains_named_pipeline("types"), false);
}

#[test]
fn returns_false_when_named_pipeline_does_not_exist() {
    let map = map_of(vec![
        ("*.{js,ts}", pipelines()),
        ("*.toml", pipelines()),
        ("url:*", pipelines()),
    ]);

    assert_eq!(map.contains_named_pipeline("*"), false);
    assert_eq!(map.contains_named_pipeline("data-url"), false);
    assert_eq!(map.contains_named_pipeline("types"), false);
    assert_eq!(map.contains_named_pipeline("urls"), false);
}

#[test]
fn returns_empty_vec_when_no_named_pipelines() {
    let empty_vec: Vec<&str> = Vec::new();

    assert_eq!(PipelineMap::default().named_pipelines(), empty_vec);
    assert_eq!(
        map_of(vec![("*.{js,ts}", pipelines()), ("*.toml", pipelines())]).named_pipelines(),
        empty_vec,
    );
}

#[test]
fn returns_list_of_named_pipelines() {
    assert_eq!(
        map_of(vec![("data-url:*", pipelines())]).named_pipelines(),
        vec!("data-url")
    );

    assert_eq!(
        map_of(vec![("types:*.{ts,tsx}", pipelines())]).named_pipelines(),
        vec!("types")
    );

    assert_eq!(
        map_of(vec![("url:*", pipelines())]).named_pipelines(),
        vec!("url")
    );

    assert_eq!(
        map_of(vec![
            ("*.{js,ts}", pipelines()),
            ("*.toml", pipelines()),
            ("bundle-text:*", pipelines()),
            ("data-url:*", pipelines()),
            ("types:*.{ts,tsx}", pipelines()),
            ("url:*", pipelines()),
        ])
        .named_pipelines(),
        vec!("bundle-text", "data-url", "types", "url")
    );
}

#[test]
fn a_named_pipeline_comes_before_the_unnamed_ones() {
    let map = map_of(vec![
        ("*.ts", pipelines_three()),
        ("types:*.ts", pipelines()),
        ("types:*", pipelines_two()),
        ("*", pipelines_two()),
    ]);
    let expected: Vec<PluginNode> = [pipelines(), pipelines_three(), pipelines_two()].concat();
    assert_eq!(map.get(&file("a.ts"), &named("types")), expected);
    let unnamed: Vec<PluginNode> = [pipelines_three(), pipelines_two()].concat();
    assert_eq!(map.get(&file("a.ts"), &None), unnamed);
    assert_eq!(map.get(&file("a.js"), &named("types")), [pipelines_two(), pipelines_two()].concat());
}

#[test]
fn a_path_without_a_file_name_is_no_file() {
    assert!(FilePath::new(String::from("/")).is_none());
    assert!(FilePath::new(String::from("a/..")).is_none());
    assert!(FilePath::new(String::from("")).is_none());
    let found = FilePath::new(String::from("/work/src/a.js")).unwrap();
    assert_eq!(found.path(), "/work/src/a.js");
    assert_eq!(found.basename(), "a.js");
}
