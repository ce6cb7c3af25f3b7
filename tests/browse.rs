use fast_search::browse::{Action, Listing, Session, PAGE_SIZE};
use fast_search::command::{parse_command, parse_index, trim_char_str, Command};
use fast_search::handle::{run_cli_mode, Handle, Request};
use fast_search::matcher::Matcher;
use fast_search::paths::{file_name, index_file_name, parent};

/// Advances until the session pauses or ends; returns the numbers listed.
fn run_page(s: &mut Session, index: &Vec<String>, m: &Matcher) -> (Vec<usize>, bool) {
    let mut listed = Vec::new();
    loop {
        match s.advance(index, m) {
            Listing::Match { number, .. } => listed.push(number),
            Listing::Skipped { .. } => {}
            Listing::Pause => return (listed, true),
            Listing::Done => return (listed, false),
        }
    }
}

fn index_of(names: &[String]) -> Vec<String> {
    names.to_vec()
}

#[test]
fn selection_counts_from_start_of_query() {
    let mut names = Vec::new();
    for i in 0..45 {
        names.push(format!("/d/match{}.txt", i));
        names.push(format!("/d/other{}.dat", i));
    }
    let index = index_of(&names);
    let m = Matcher::new("match");
    let mut s = Session::new(index.len());
    let (first, paused) = run_page(&mut s, &index, &m);
    assert!(paused);
    assert_eq!(first, (0..20).collect::<Vec<usize>>());
    match s.on_line(&index, "s5") {
        Action::Show(p) => assert_eq!(p, "/d/match5.txt"),
        _ => panic!("expected a path"),
    }
    let (second, paused) = run_page(&mut s, &index, &m);
    assert!(paused);
    assert_eq!(second, (20..40).collect::<Vec<usize>>());
    match s.on_line(&index, "s5") {
        Action::Show(p) => assert_eq!(p, "/d/match5.txt"),
        _ => panic!("expected a path"),
    }
    let (third, paused) = run_page(&mut s, &index, &m);
    assert!(paused);
    assert_eq!(third, (40..45).collect::<Vec<usize>>());
    match s.on_line(&index, "s44") {
        Action::Show(p) => assert_eq!(p, "/d/match44.txt"),
        _ => panic!("expected a path"),
    }
    let (rest, paused) = run_page(&mut s, &index, &m);
    assert!(rest.is_empty());
    assert!(!paused);
    assert!(s.is_over());
}

#[test]
fn open_parent_opens_the_containing_directory() {
    let index = vec![
        "/x/file.txt".to_string(),
        "/y/file.txt".to_string(),
        "/a/b/file.txt".to_string(),
    ];
    let m = Matcher::new("file");
    let mut s = Session::new(index.len());
    let (listed, paused) = run_page(&mut s, &index, &m);
    assert!(paused);
    assert_eq!(listed, vec![0, 1, 2]);
    match s.on_line(&index, "l2") {
        Action::Open(p) => assert_eq!(p, "/a/b"),
        _ => panic!("expected an open"),
    }
}

#[test]
fn bare_number_opens_the_entry_itself() {
    let index = vec!["/a/b/file.txt".to_string()];
    let m = Matcher::new("file");
    let mut s = Session::new(index.len());
    run_page(&mut s, &index, &m);
    match s.on_line(&index, "0") {
        Action::Open(p) => assert_eq!(p, "/a/b/file.txt"),
        _ => panic!("expected an open"),
    }
}

#[test]
fn quit_and_empty_line_end_the_query() {
    let index = vec!["/a/f".to_string()];
    let m = Matcher::new("f");
    let mut s = Session::new(index.len());
    run_page(&mut s, &index, &m);
    assert!(matches!(s.on_line(&index, "q"), Action::End));
    assert!(s.is_over());
    let mut t = Session::new(index.len());
    run_page(&mut t, &index, &m);
    assert!(matches!(t.on_line(&index, ""), Action::End));
    assert!(t.is_over());
}

#[test]
fn invalid_selection_keeps_waiting() {
    let index = vec!["/a/f".to_string()];
    let m = Matcher::new("f");
    let mut s = Session::new(index.len());
    run_page(&mut s, &index, &m);
    assert!(matches!(s.on_line(&index, "sx"), Action::InputError));
    assert!(matches!(s.on_line(&index, "abc"), Action::InputError));
    match s.on_line(&index, "s0") {
        Action::Show(p) => assert_eq!(p, "/a/f"),
        _ => panic!("expected a path"),
    }
}

#[test]
fn out_of_range_selection_does_nothing() {
    let index = vec!["/a/f".to_string()];
    let m = Matcher::new("f");
    let mut s = Session::new(index.len());
    run_page(&mut s, &index, &m);
    assert!(matches!(s.on_line(&index, "7"), Action::Nothing));
    assert!(!s.is_over());
}

#[test]
fn empty_index_lists_nothing() {
    let index: Vec<String> = Vec::new();
    let m = Matcher::new("a");
    let mut s = Session::new(0);
    assert!(matches!(s.advance(&index, &m), Listing::Done));
    assert!(s.is_over());
}

#[test]
fn no_match_still_pauses_at_the_end() {
    let index = vec!["/a/f".to_string(), "/a/g".to_string()];
    let m = Matcher::new("zzz");
    let mut s = Session::new(index.len());
    let (listed, paused) = run_page(&mut s, &index, &m);
    assert!(listed.is_empty());
    assert!(paused);
}

#[test]
fn match_reports_name_and_matched_text() {
    let index = vec!["/docs/report_final.pdf".to_string()];
    let m = Matcher::new("rep.rt");
    let mut s = Session::new(index.len());
    match s.advance(&index, &m) {
        Listing::Match { number, position, name, matched } => {
            assert_eq!(number, 0);
            assert_eq!(position, 0);
            assert_eq!(name, "report_final.pdf");
            assert_eq!(matched, "report");
        }
        _ => panic!("expected a match"),
    }
    assert_eq!(PAGE_SIZE, 20);
}

#[test]
fn matcher_finds_first_match_and_rejects_invalid_patterns() {
    let m = Matcher::new("[0-9]+");
    assert!(m.is_valid());
    assert_eq!(m.first_match("ab12cd345"), Some("12".to_string()));
    assert_eq!(m.first_match("abc"), None);
    let bad = Matcher::new("(");
    assert!(!bad.is_valid());
    assert_eq!(bad.first_match("("), None);
}

#[test]
fn commands_parse() {
    assert_eq!(parse_command(""), Command::End);
    assert_eq!(parse_command("q"), Command::End);
    assert_eq!(parse_command("s12"), Command::ShowPath(12));
    assert_eq!(parse_command("12s"), Command::ShowPath(12));
    assert_eq!(parse_command("s"), Command::Invalid);
    assert_eq!(parse_command("l3"), Command::OpenParent(3));
    assert_eq!(parse_command("ll3l"), Command::OpenParent(3));
    assert_eq!(parse_command("l3x"), Command::Invalid);
    assert_eq!(parse_command("42"), Command::Open(42));
    assert_eq!(parse_command("qq"), Command::Invalid);
    assert_eq!(parse_command("99999999999999999999999"), Command::Invalid);
}

#[test]
fn numbers_and_trimming() {
    assert_eq!(parse_index("007"), Some(7));
    assert_eq!(parse_index("18446744073709551615"), Some(usize::MAX));
    assert_eq!(parse_index("18446744073709551616"), None);
    assert_eq!(parse_index(""), None);
    assert_eq!(parse_index("-1"), None);
    assert_eq!(trim_char_str("ss1s2ss", 's'), "1s2");
    assert_eq!(trim_char_str("sss", 's'), "");
}

#[test]
fn path_parts() {
    assert_eq!(file_name("/a/b/file.txt"), "file.txt");
    assert_eq!(file_name("C:\\dir\\x.doc"), "x.doc");
    assert_eq!(file_name("plain"), "plain");
    assert_eq!(parent("/a/b/file.txt"), Some("/a/b"));
    assert_eq!(parent("/file"), Some("/"));
    assert_eq!(parent("plain"), None);
    assert_eq!(index_file_name("C:\\Users\\me"), "index CUsersme");
}

#[test]
fn cli_requests() {
    let mut h = Handle::new();
    assert_eq!(run_cli_mode(&mut h, ":?".to_string()), Request::Help);
    assert_eq!(run_cli_mode(&mut h, ":C".to_string()), Request::ChangeRoot);
    assert_eq!(run_cli_mode(&mut h, ":Q".to_string()), Request::Quit);
    assert_eq!(run_cli_mode(&mut h, ":U".to_string()), Request::Update);
    assert_eq!(run_cli_mode(&mut h, "report.*".to_string()), Request::Query);
    assert_eq!(h.get_command(), "report.*");
}

#[test]
fn change_root_can_be_cancelled() {
    let mut h = Handle::new();
    assert!(!h.change_root(":x".to_string()));
    assert_eq!(h.engine().get_root_dir(), "C:\\");
    assert!(h.change_root("/home".to_string()));
    assert_eq!(h.engine().get_root_dir(), "/home");
}

#[test]
fn record_numbers_matches_across_the_query() {
    let index = vec!["/a/x".to_string(), "/a/y".to_string(), "/a/z".to_string()];
    let mut s = Session::new(index.len());
    match s.record(&index, Some("x".to_string())) {
        Listing::Match { number, position, name, matched } => {
            assert_eq!((number, position), (0, 0));
            assert_eq!(name, "x");
            assert_eq!(matched, "x");
        }
        _ => panic!("expected a match"),
    }
    assert!(matches!(s.record(&index, None), Listing::Skipped { position: 1 }));
    match s.record(&index, Some("z".to_string())) {
        Listing::Match { number, position, .. } => assert_eq!((number, position), (1, 2)),
        _ => panic!("expected a match"),
    }
    assert!(matches!(s.advance(&index, &Matcher::new("x")), Listing::Pause));
    match s.on_line(&index, "1") {
        Action::Open(p) => assert_eq!(p, "/a/z"),
        _ => panic!("expected an open"),
    }
    assert!(matches!(s.advance(&index, &Matcher::new("x")), Listing::Done));
}

#[test]
fn numbers_may_carry_a_plus_sign() {
    assert_eq!(parse_index("+5"), Some(5));
    assert_eq!(parse_index("+"), None);
    assert_eq!(parse_index("++5"), None);
    assert_eq!(parse_command("s+5"), Command::ShowPath(5));
    assert_eq!(parse_command("+3"), Command::Open(3));
}

#[test]
fn bare_root_has_no_parent() {
    assert_eq!(parent("/"), None);
    assert_eq!(parent("/a"), Some("/"));
}
