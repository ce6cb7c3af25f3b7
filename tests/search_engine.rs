use fast_search::search_engine::{SearchEngine, DEFAULT_RESULTS_LIMIT};
use fast_search::walk::{Entry, EntryKind, Walk};

fn file(path: &str) -> Entry {
    Entry { path: path.to_string(), kind: EntryKind::File }
}

fn dir(path: &str) -> Entry {
    Entry { path: path.to_string(), kind: EntryKind::Dir }
}

/// Walks a tree given as (directory, entries) listings.
fn walk_tree(root: &str, tree: &[(&str, Vec<(&str, EntryKind)>)]) -> Walk {
    let mut walk = Walk::new(root);
    while let Some(d) = walk.next_dir() {
        let mut entries = Vec::new();
        for (name, listing) in tree {
            if *name == d {
                for (p, k) in listing {
                    entries.push(Entry { path: p.to_string(), kind: *k });
                }
            }
        }
        walk.add_listing(entries);
    }
    walk
}

fn engine_with(root: &str, files: &[&str]) -> SearchEngine {
    let mut engine = SearchEngine::new();
    engine.set_root_dir(root.to_string());
    let mut walk = Walk::new(root);
    assert_eq!(walk.next_dir(), Some(root.to_string()));
    walk.add_listing(files.iter().map(|f| file(f)).collect());
    assert_eq!(walk.next_dir(), None);
    engine.generate_index(walk);
    engine
}

fn sample_tree() -> Vec<(&'static str, Vec<(&'static str, EntryKind)>)> {
    vec![
        (
            ".",
            vec![
                ("./src", EntryKind::Dir),
                ("./Cargo.toml", EntryKind::File),
                ("./pipe", EntryKind::Other),
            ],
        ),
        ("./src", vec![("./src/main.rs", EntryKind::File), ("./src/util", EntryKind::Dir)]),
        ("./src/util", vec![("./src/util/mod.rs", EntryKind::File)]),
    ]
}

#[test]
fn test_new() {
    let search = SearchEngine::new();
    assert!(search.get_index().is_empty());
    assert_eq!(search.get_root_dir(), "C:\\");
}

#[test]
fn test_set_root_dir() {
    let mut search = SearchEngine::new();
    let new_root = "D:\\".to_string();
    search.set_root_dir(new_root.clone());
    assert_eq!(search.get_root_dir(), &new_root);
}

#[test]
fn test_generate_index() {
    let mut search = SearchEngine::new();
    search.set_root_dir(".".to_string());
    search.generate_index(walk_tree(".", &sample_tree()));
    assert!(!search.get_index().is_empty());
}

#[test]
fn test_save_and_load_index() {
    let mut search = SearchEngine::new();
    search.set_root_dir(".".to_string());
    search.generate_index(walk_tree(".", &sample_tree()));
    let stored = search.save_index();

    let mut new_search = SearchEngine::new();
    new_search.set_root_dir(".".to_string());
    new_search.load_index(stored);
    assert_eq!(search.get_index(), new_search.get_index());
}

#[test]
fn test_get_index() {
    let mut search = SearchEngine::new();
    search.set_root_dir(".".to_string());
    search.generate_index(walk_tree(".", &sample_tree()));
    let index = search.get_index();
    assert_eq!(index.len(), search.len());
    assert_eq!(index, &vec!["./src/main.rs".to_string(), "./src/util/mod.rs".to_string(), "./Cargo.toml".to_string()]);
}

#[test]
fn walk_keeps_exactly_the_regular_files_in_pre_order() {
    let walk = walk_tree(".", &sample_tree());
    assert!(walk.is_done());
    let files = walk.into_files();
    assert_eq!(files, vec!["./src/main.rs", "./src/util/mod.rs", "./Cargo.toml"]);
}

#[test]
fn walk_of_unreadable_root_is_empty() {
    let walk = walk_tree("/missing", &[]);
    assert!(walk.into_files().is_empty());
}

#[test]
fn walk_lists_each_directory_before_its_later_siblings() {
    let mut walk = Walk::new("/r");
    assert_eq!(walk.next_dir(), Some("/r".to_string()));
    walk.add_listing(vec![dir("/r/a"), file("/r/x"), dir("/r/b")]);
    assert_eq!(walk.next_dir(), Some("/r/a".to_string()));
    walk.add_listing(vec![file("/r/a/y")]);
    assert_eq!(walk.next_dir(), Some("/r/b".to_string()));
    walk.add_listing(vec![]);
    assert_eq!(walk.next_dir(), None);
    assert_eq!(walk.into_files(), vec!["/r/a/y", "/r/x"]);
}

#[test]
fn save_of_empty_index_stores_nothing() {
    let search = SearchEngine::new();
    assert_eq!(search.save_index(), None);
}

#[test]
fn load_without_stored_index_is_empty() {
    let mut search = engine_with("/r", &["/r/a.txt"]);
    search.load_index(None);
    assert!(search.get_index().is_empty());
    assert_eq!(search.len(), 0);
}

#[test]
fn load_of_corrupt_bytes_is_empty() {
    let mut search = engine_with("/r", &["/r/a.txt"]);
    search.load_index(Some(vec![0xff, 0x01]));
    assert!(search.get_index().is_empty());
}

#[test]
fn saved_bytes_are_bincode_of_the_paths() {
    let search = engine_with("/r", &["/r/ab"]);
    let bytes = search.save_index().unwrap();
    let mut expected = vec![1, 0, 0, 0, 0, 0, 0, 0, 5, 0, 0, 0, 0, 0, 0, 0];
    expected.extend_from_slice(b"/r/ab");
    assert_eq!(bytes, expected);
}

#[test]
fn index_file_name_drops_separators() {
    let search = SearchEngine::new();
    assert_eq!(search.index_file_name(), "index C");
    let other = engine_with("/home/u:x\\y", &[]);
    assert_eq!(other.index_file_name(), "index homeuxy");
}

#[test]
fn search_keeps_first_match_of_each_matching_name() {
    let mut search = engine_with("/r", &["/r/report.pdf", "/r/report_final.pdf", "/r/image.png"]);
    search.search("report.*");
    let expected = vec![
        ("/r/report.pdf".to_string(), "report.pdf".to_string()),
        ("/r/report_final.pdf".to_string(), "report_final.pdf".to_string()),
    ];
    assert_eq!(search.get_results(), &expected);
}

#[test]
fn search_matches_file_names_only() {
    let mut search = engine_with("/report", &["/report/a.txt", "/report/report.txt"]);
    search.search("rep");
    assert_eq!(search.get_results(), &vec![("/report/report.txt".to_string(), "rep".to_string())]);
}

#[test]
fn search_with_invalid_pattern_finds_nothing() {
    let mut search = engine_with("/r", &["/r/None", "/r/a(b"]);
    search.search("a(b");
    assert!(search.get_results().is_empty());
}

#[test]
fn search_stops_at_the_limit() {
    let names: Vec<String> = (0..250).map(|i| format!("/r/f{}.txt", i)).collect();
    let refs: Vec<&str> = names.iter().map(|s| s.as_str()).collect();
    let mut search = engine_with("/r", &refs);
    search.search("txt");
    assert_eq!(search.get_results().len(), DEFAULT_RESULTS_LIMIT);
    assert_eq!(DEFAULT_RESULTS_LIMIT, 200);
    search.reset_search_results();
    search.set_search_results_limit(3);
    search.search("f1");
    let got: Vec<&str> = search.get_results().iter().map(|r| r.0.as_str()).collect();
    assert_eq!(got, vec!["/r/f1.txt", "/r/f10.txt", "/r/f11.txt"]);
}

#[test]
fn search_results_accumulate_until_reset() {
    let mut search = engine_with("/r", &["/r/a", "/r/b"]);
    search.search("a");
    search.search("b");
    assert_eq!(search.get_results().len(), 2);
    search.reset_search_results();
    assert!(search.get_results().is_empty());
    assert_eq!(search.len(), 2);
}

#[test]
fn clear_index_files_empties_the_index() {
    let mut search = engine_with("/r", &["/r/a"]);
    search.clear_index_files();
    assert_eq!(search.len(), 0);
}

#[test]
fn add_results_pairs_outcomes_with_entries_up_to_the_limit() {
    let mut search = engine_with("/r", &["/r/a1", "/r/b", "/r/a2", "/r/a3"]);
    search.set_search_results_limit(2);
    let outcomes = vec![Some("a".to_string()), None, Some("a2".to_string()), Some("3".to_string())];
    search.add_results(&outcomes);
    let expected = vec![
        ("/r/a1".to_string(), "a".to_string()),
        ("/r/a2".to_string(), "a2".to_string()),
    ];
    assert_eq!(search.get_results(), &expected);
}
