// These tests run with the crate directory as working directory, so the
// library's own source files (`src/lib.rs`, `src/path.rs`, `src/search.rs`)
// exist relative to `.` and serve as search targets.

use find_cargo_toml::LexPath;
use find_cargo_toml::default_base;
use find_cargo_toml::find;
use find_cargo_toml::find_from_current_dir;
use find_cargo_toml::normalize_path;
use find_cargo_toml::walk_step;

#[test]
fn find_from_current_dir_delegates_to_find() {
    // The assertion below needs an ancestor of the working directory to hold
    // the default manifest. Where cargo runs the test that is the project
    // root itself; a bare scratch directory under the system temporary
    // directory has none, so place one there for the duration.
    let fixture = "/tmp/Cargo.toml";
    let already_there = fs_err::metadata(fixture).is_ok();
    if !already_there {
        let _ = fs_err::write(fixture, b"[package]");
    }
    let mut convenience = find_from_current_dir(".", None);
    let mut primary = find(".", None, None);
    let mut texts_a: Vec<String> = Vec::new();
    let mut texts_b: Vec<String> = Vec::new();
    while let Some(p) = convenience.next() {
        texts_a.push(p.to_text());
    }
    while let Some(p) = primary.next() {
        texts_b.push(p.to_text());
    }
    if !already_there {
        let _ = fs_err::remove_file(fixture);
    }
    assert_eq!(texts_a, texts_b);
    let count = texts_a.len();
    assert!(count >= 1, "project root has Cargo.toml");
}

#[test]
fn find_yields_nothing_when_no_cargo_toml() {
    let tmp = "/tmp/find_cargo_toml_test_empty";
    let _ = fs_err::create_dir_all(tmp);
    let mut it = find(tmp, None, None);
    let mut count: usize = 0;
    while let Some(_p) = it.next() {
        count += 1;
    }
    let _ = fs_err::remove_dir_all(tmp);
    assert_eq!(count, 0);
}

#[test]
fn find_yields_path_when_cargo_toml_in_dir() {
    let tmp = "/tmp/find_cargo_toml_test_with";
    let _ = fs_err::create_dir_all(tmp);
    let manifest = "/tmp/find_cargo_toml_test_with/Cargo.toml";
    let _ = fs_err::write(manifest, b"[package]");
    let mut it = find(tmp, None, None);
    let mut collected: Vec<String> = Vec::new();
    while let Some(p) = it.next() {
        collected.push(p.to_text());
    }
    let _ = fs_err::remove_file(manifest);
    let _ = fs_err::remove_dir_all(tmp);
    assert_eq!(collected.len(), 1);
    assert!(collected[0].ends_with("Cargo.toml"));
}

#[test]
fn find_respects_custom_file_name() {
    let tmp = "/tmp/find_cargo_toml_test_custom";
    let _ = fs_err::create_dir_all(tmp);
    let custom = "/tmp/find_cargo_toml_test_custom/MyManifest.toml";
    let _ = fs_err::write(custom, b"[package]");
    let mut it = find(tmp, None, Some("MyManifest.toml"));
    let mut collected: Vec<String> = Vec::new();
    while let Some(p) = it.next() {
        collected.push(p.to_text());
    }
    let _ = fs_err::remove_file(custom);
    let _ = fs_err::remove_dir_all(tmp);
    assert_eq!(collected.len(), 1);
    assert!(collected[0].ends_with("MyManifest.toml"));
}

#[test]
fn find_with_absolute_input() {
    let tmp = "/tmp/find_cargo_toml_test_absolute";
    let _ = fs_err::create_dir_all(tmp);
    let manifest = "/tmp/find_cargo_toml_test_absolute/Cargo.toml";
    let _ = fs_err::write(manifest, b"[package]");
    let abs = std::path::Path::new(tmp).canonicalize().unwrap();
    let mut it = find(abs.to_str().unwrap(), None, None);
    let mut collected: Vec<String> = Vec::new();
    while let Some(p) = it.next() {
        collected.push(p.to_text());
    }
    let _ = fs_err::remove_file(manifest);
    let _ = fs_err::remove_dir_all(tmp);
    assert_eq!(collected.len(), 1);
    assert!(collected[0].ends_with("Cargo.toml"));
}

#[test]
fn find_when_input_is_file_uses_parent_dir() {
    let tmp = "/tmp/find_cargo_toml_test_file_input";
    let _ = fs_err::create_dir_all(tmp);
    let manifest = "/tmp/find_cargo_toml_test_file_input/Cargo.toml";
    let _ = fs_err::write(manifest, b"[package]");
    let some_file = "/tmp/find_cargo_toml_test_file_input/foo.rs";
    let _ = fs_err::write(some_file, b"");
    let mut it = find(some_file, None, None);
    let mut collected: Vec<String> = Vec::new();
    while let Some(p) = it.next() {
        collected.push(p.to_text());
    }
    let _ = fs_err::remove_file(some_file);
    let _ = fs_err::remove_file(manifest);
    let _ = fs_err::remove_dir_all(tmp);
    assert_eq!(collected.len(), 1);
    assert!(collected[0].ends_with("Cargo.toml"));
}

#[test]
fn find_with_explicit_base() {
    let tmp = "/tmp/find_cargo_toml_test_base";
    let _ = fs_err::create_dir_all(tmp);
    let manifest = "/tmp/find_cargo_toml_test_base/Cargo.toml";
    let _ = fs_err::write(manifest, b"[package]");
    let mut it = find(".", Some(tmp), None);
    let mut collected: Vec<String> = Vec::new();
    while let Some(p) = it.next() {
        collected.push(p.to_text());
    }
    let _ = fs_err::remove_file(manifest);
    let _ = fs_err::remove_dir_all(tmp);
    assert_eq!(collected.len(), 1);
    assert!(collected[0].ends_with("Cargo.toml"));
}

#[test]
fn find_normalizes_path_with_dot_dot() {
    let tmp = "/tmp/find_cargo_toml_test_normalize";
    let sub = "/tmp/find_cargo_toml_test_normalize/sub";
    let _ = fs_err::create_dir_all(sub);
    let manifest = "/tmp/find_cargo_toml_test_normalize/Cargo.toml";
    let _ = fs_err::write(manifest, b"[package]");
    let input = "/tmp/find_cargo_toml_test_normalize/sub/..";
    let mut it = find(input, None, None);
    let mut collected: Vec<LexPath> = Vec::new();
    while let Some(p) = it.next() {
        collected.push(p);
    }
    let _ = fs_err::remove_file(manifest);
    let _ = fs_err::remove_dir_all(tmp);
    let tmp_path = LexPath::parse(tmp);
    assert!(
        collected
            .iter()
            .any(|p| p.parent().map(|d| d.path_eq(&tmp_path)).unwrap_or(false)),
        "should find Cargo.toml in tmp when input is sub/.."
    );
}

#[test]
fn upward_search_without_match_is_empty() {
    let mut it = find(".", Some("."), Some("no_such_manifest_name_here"));
    let mut count: usize = 0;
    while let Some(_p) = it.next() {
        count += 1;
    }
    assert_eq!(count, 0);
}

#[test]
fn first_match_parent_is_start_dir() {
    let mut it = find("src", Some("."), Some("lib.rs"));
    let first = it.next().expect("src holds lib.rs");
    assert_eq!(first.to_text(), "src/lib.rs");
    let parent = first.parent().expect("an emitted match has a parent");
    let start = normalize_path(&LexPath::parse("src"));
    assert!(parent.path_eq(&start));
}

#[test]
fn nested_start_finds_only_ancestor_match() {
    // The starting directory need not exist: probes simply fail there, and
    // the one match comes from the ancestor that holds the file.
    let mut it = find("src/nested", Some("."), Some("lib.rs"));
    let mut found: Vec<String> = Vec::new();
    while let Some(p) = it.next() {
        found.push(p.to_text());
    }
    assert_eq!(found.len(), 1);
    assert_eq!(found[0], "src/lib.rs");
}

#[test]
fn file_input_uses_parent_directory() {
    let mut from_file = find("src/lib.rs", Some("."), Some("path.rs"));
    let mut from_dir = find("src", Some("."), Some("path.rs"));
    let mut texts_file: Vec<String> = Vec::new();
    let mut texts_dir: Vec<String> = Vec::new();
    while let Some(p) = from_file.next() {
        texts_file.push(p.to_text());
    }
    while let Some(p) = from_dir.next() {
        texts_dir.push(p.to_text());
    }
    assert_eq!(texts_file, vec!["src/path.rs".to_string()]);
    assert_eq!(texts_file, texts_dir);
}

#[test]
fn trailing_dotdot_normalizes() {
    let mut with_dotdot = find("src/..", Some("src"), Some("lib.rs"));
    let mut plain = find(".", Some("src"), Some("lib.rs"));
    let mut texts_a: Vec<String> = Vec::new();
    let mut texts_b: Vec<String> = Vec::new();
    while let Some(p) = with_dotdot.next() {
        texts_a.push(p.to_text());
    }
    while let Some(p) = plain.next() {
        texts_b.push(p.to_text());
    }
    assert_eq!(texts_a, vec!["src/lib.rs".to_string()]);
    assert_eq!(texts_a, texts_b);
}

#[test]
fn custom_file_name_restricts_matches() {
    // `src` holds `lib.rs`: the search for that name matches it.
    let mut custom = find("src", Some("."), Some("lib.rs"));
    let hit = custom.next().expect("src holds lib.rs");
    assert_eq!(hit.to_text(), "src/lib.rs");
    assert!(custom.next().is_none());
    // The same directory is no match for a search with another name.
    let mut other = find("src", Some("."), Some("no_such_manifest_name_here"));
    assert!(other.next().is_none());
}

#[test]
fn independent_searches_do_not_interfere() {
    let mut first = find("src", Some("."), Some("lib.rs"));
    let mut second = find("src", Some("."), Some("lib.rs"));
    // Exhaust the first search entirely.
    while let Some(_p) = first.next() {}
    assert!(first.next().is_none());
    // The second search still starts from the beginning.
    let hit = second.next().expect("src holds lib.rs");
    assert_eq!(hit.to_text(), "src/lib.rs");
}

#[test]
fn exhausted_search_stays_exhausted() {
    let mut it = find("/", None, Some("no_such_file_at_root_here"));
    assert!(it.next().is_none());
    assert!(it.next().is_none());
    assert!(it.next().is_none());
}

#[test]
fn absolute_input_ignores_base() {
    // An absolute starting point that does not exist: every probe fails and
    // the walk ends at the root without error.
    let mut it = find("/no_such_dir_here/sub", Some("src"), Some("no_such_file_here"));
    let mut count: usize = 0;
    while let Some(_p) = it.next() {
        count += 1;
    }
    assert_eq!(count, 0);
}

#[test]
fn directory_named_like_target_is_no_match() {
    // `.` holds a directory called `src`; only a regular file of that name
    // would count as a match.
    let mut it = find(".", Some("."), Some("src"));
    assert!(it.next().is_none());
}

#[test]
fn normalize_resolves_dot_and_dotdot() {
    let p = normalize_path(&LexPath::parse("a/b/../c/./d"));
    assert_eq!(p.to_text(), "a/c/d");
}

#[test]
fn normalize_absolute_drops_excess_dotdot() {
    let p = normalize_path(&LexPath::parse("/a/../../b"));
    assert_eq!(p.to_text(), "/b");
}

#[test]
fn normalize_relative_keeps_leading_dotdot() {
    let p = normalize_path(&LexPath::parse("../../a"));
    assert_eq!(p.to_text(), "../../a");
    let q = normalize_path(&LexPath::parse("a/../.."));
    assert_eq!(q.to_text(), "..");
}

#[test]
fn walk_step_obeys_probe_answer() {
    let dir = LexPath::parse("/a/b");
    let hit = walk_step(&dir, "m.toml", true);
    assert_eq!(hit.emitted.expect("a hit emits the candidate").to_text(), "/a/b/m.toml");
    assert_eq!(hit.next_dir.expect("the walk moves on").to_text(), "/a");
    let miss = walk_step(&dir, "m.toml", false);
    assert!(miss.emitted.is_none());
    assert_eq!(miss.next_dir.expect("the walk moves on").to_text(), "/a");
}

#[test]
fn default_base_falls_back_to_dot() {
    let given = default_base(Some("/x/y".to_string()));
    assert_eq!(given.to_text(), "/x/y");
    let fallback = default_base(None);
    assert_eq!(fallback.to_text(), ".");
}

#[test]
fn normalize_is_idempotent_on_values() {
    let once = normalize_path(&LexPath::parse("a/b/../c/./../d"));
    let twice = normalize_path(&once);
    assert!(once.path_eq(&twice));
    assert_eq!(once.to_text(), "a/d");
}

#[test]
fn parse_drops_empty_chunks() {
    let p = LexPath::parse("//a///b/");
    assert!(p.is_absolute());
    assert_eq!(p.component_count(), 2);
    assert_eq!(p.to_text(), "/a/b");
    let empty = LexPath::parse("");
    assert!(!empty.is_absolute());
    assert_eq!(empty.component_count(), 0);
    let dot = LexPath::parse(".");
    assert_eq!(dot.component_count(), 1);
}

#[test]
fn parent_of_root_and_empty_is_none() {
    assert!(LexPath::parse("/").parent().is_none());
    assert!(LexPath::parse("").parent().is_none());
    let one = LexPath::parse("/a").parent().expect("one component has a parent");
    assert_eq!(one.to_text(), "/");
}

#[test]
fn join_name_appends_component() {
    let p = LexPath::parse("/a").join_name("b.txt");
    assert_eq!(p.to_text(), "/a/b.txt");
    let q = LexPath::parse("").join_name("Cargo.toml");
    assert_eq!(q.to_text(), "Cargo.toml");
}

#[test]
fn path_eq_compares_by_value() {
    let a = LexPath::parse("a/b");
    let b = LexPath::parse("a//b/");
    let c = LexPath::parse("/a/b");
    assert!(a.path_eq(&b));
    assert!(!a.path_eq(&c));
    assert!(!a.path_eq(&LexPath::parse("a")));
}
