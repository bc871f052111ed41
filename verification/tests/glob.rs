use parcel_heap::config::glob::is_match;

#[test]
fn a_pattern_is_a_pipeline_and_a_glob() {
    assert!(is_match("*.js", "src/a.js", "a.js", ""));
    assert!(!is_match("*.js", "src/a.js", "a.js", "types"));
    assert!(is_match("types:*.ts", "src/a.ts", "a.ts", "types"));
    assert!(!is_match("types:*.ts", "src/a.ts", "a.ts", ""));
    assert!(!is_match("types:*.ts", "src/a.ts", "a.ts", "type"));
    assert!(!is_match("types:*.ts", "src/a.js", "a.js", "types"));
}

#[test]
fn only_the_first_colon_splits_a_pattern() {
    assert!(is_match("url:a:b", "a:b", "a:b", "url"));
    assert!(!is_match("url:a:b", "a:b", "a:b", "url:a"));
    assert!(is_match(":*.js", "a.js", "a.js", ""));
}

#[test]
fn the_glob_is_tried_on_the_base_name_and_on_the_path() {
    assert!(is_match("src/*.js", "src/a.js", "a.js", ""));
    assert!(!is_match("lib/*.js", "src/a.js", "a.js", ""));
    assert!(is_match("a.*", "src/a.js", "a.js", ""));
    assert!(is_match("*.{js,ts}", "src/a.ts", "a.ts", ""));
    assert!(!is_match("*.{js,ts}", "src/a.tsx", "a.tsx", ""));
}
