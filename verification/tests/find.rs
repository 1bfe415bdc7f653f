use regex::Regex;
use stracer::find::options::{gather, parse_dirs, parse_patterns};
use stracer::find::pattern::{get_matches, keep_marked};
use stracer::find::walk::Walker;

fn strings(words: &[&str]) -> Vec<String> {
    words.iter().map(|w| w.to_string()).collect()
}

#[test]
fn get_matches_tests() {
    let paths: Vec<String> = strings(&[
        "../temp/homework1/src/lib3.rs",
        "../temp/homework1/src/lib2.rs",
        "../temp/homework1/src/lib.rs",
        "../homework1/lib3.rs",
        "../homework1/lib2.rs",
        "../homework1/lib.rs",
        "../rust_find/src/main.rs",
    ]);
    let fpaths: Vec<String> = strings(&[
        "../temp/homework1/src/lib3.rs",
        "../temp/homework1/src/lib2.rs",
        "../temp/homework1/src/lib.rs",
        "../rust_find/src/main.rs",
    ]);
    assert_eq!(get_matches(&paths, &Regex::new(r"src/.*\.rs").unwrap()), fpaths);
}

#[test]
fn get_matches_of_no_path_and_of_no_match() {
    let pattern = Regex::new("^a+$").unwrap();
    assert_eq!(get_matches(&vec![], &pattern), Vec::<String>::new());
    assert_eq!(get_matches(&strings(&["b", "ab", ""]), &pattern), Vec::<String>::new());
    assert_eq!(get_matches(&strings(&["a", "b", "aa", "a"]), &pattern), strings(&["a", "aa", "a"]));
}

#[test]
fn marked_paths_are_kept_in_order() {
    let paths = strings(&["a", "b", "c", "d"]);
    assert_eq!(keep_marked(&paths, &vec![true, false, false, true]), strings(&["a", "d"]));
    assert_eq!(keep_marked(&paths, &vec![false; 4]), Vec::<String>::new());
    assert_eq!(keep_marked(&paths, &vec![true; 4]), paths);
    assert_eq!(keep_marked(&paths, &vec![true; 3]), Vec::<String>::new());
    assert_eq!(keep_marked(&paths, &vec![true; 5]), Vec::<String>::new());
}

#[test]
fn gathering_passes_over_what_is_missing_only_when_robust() {
    let items = vec![Some(1), None, Some(3), None];
    let gathered = gather(items.clone(), true).unwrap();
    assert_eq!(gathered.values, vec![1, 3]);
    assert_eq!(gathered.skipped, 2);
    assert!(gather(items, false).is_none());
    let gathered = gather(vec![Some('a'), Some('b')], false).unwrap();
    assert_eq!(gathered.values, vec!['a', 'b']);
    assert_eq!(gathered.skipped, 0);
    let gathered = gather(Vec::<Option<u8>>::new(), false).unwrap();
    assert_eq!(gathered.values, Vec::<u8>::new());
}


#[test]
fn patterns_come_from_the_lines_and_the_option() {
    let lines = strings(&["a+", "b.*c"]);
    let extra = "x$".to_string();
    let parsed = parse_patterns(&lines, Some(&extra), false).unwrap();
    assert_eq!(parsed.sources(), strings(&["a+", "b.*c", "x$"]));
    assert_eq!(parsed.patterns[1].as_str(), "b.*c");
    assert_eq!(parsed.malformed, 0);
    assert!(parsed.patterns[0].is_match("caab"));
    assert!(!parsed.patterns[2].is_match("xy"));
    let parsed = parse_patterns(&lines, None, false).unwrap();
    assert_eq!(parsed.sources(), lines);
    let parsed = parse_patterns(&vec![], Some(&extra), false).unwrap();
    assert_eq!(parsed.sources(), strings(&["x$"]));
}

#[test]
fn malformed_patterns_are_passed_over_only_when_robust() {
    let lines = strings(&["a+", "(", "b", "[z"]);
    assert!(parse_patterns(&lines, None, false).is_none());
    let parsed = parse_patterns(&lines, None, true).unwrap();
    assert_eq!(parsed.sources(), strings(&["a+", "b"]));
    assert_eq!(parsed.malformed, 2);
    let broken = "(".to_string();
    assert!(parse_patterns(&lines, Some(&broken), true).is_none());
    assert!(parse_patterns(&strings(&["("]), None, true).is_none());
    assert!(parse_patterns(&vec![], None, true).is_none());
    assert!(parse_patterns(&vec![], None, false).is_none());
}

fn entries(list: &[(&str, bool)]) -> Vec<(String, bool)> {
    list.iter().map(|(path, is_dir)| (path.to_string(), *is_dir)).collect()
}

#[test]
fn directories_come_from_the_lines_and_the_option() {
    let lines = entries(&[("/a", true), ("/b", true)]);
    let extra = ("/c".to_string(), true);
    let parsed = parse_dirs(&lines, Some(&extra), false).unwrap();
    assert_eq!(parsed.dirs, strings(&["/a", "/b", "/c"]));
    assert_eq!(parsed.invalid, 0);
    let file = ("/f".to_string(), false);
    let parsed = parse_dirs(&lines, Some(&file), false).unwrap();
    assert_eq!(parsed.dirs, strings(&["/a", "/b"]));
    let parsed = parse_dirs(&vec![], Some(&extra), false).unwrap();
    assert_eq!(parsed.dirs, strings(&["/c"]));
}

#[test]
fn paths_that_are_no_directories_are_passed_over_only_when_robust() {
    let lines = entries(&[("/a", true), ("/f", false), ("/b", true), ("/g", false)]);
    assert!(parse_dirs(&lines, None, false).is_none());
    let parsed = parse_dirs(&lines, None, true).unwrap();
    assert_eq!(parsed.dirs, strings(&["/a", "/b"]));
    assert_eq!(parsed.invalid, 2);
    assert!(parse_dirs(&entries(&[("/f", false)]), None, true).is_none());
    let file = ("/f".to_string(), false);
    assert!(parse_dirs(&vec![], Some(&file), true).is_none());
    assert!(parse_dirs(&vec![], None, false).is_none());
}

/// The entries of a directory of a small tree.
fn listing(dir: &str) -> Vec<(String, bool)> {
    match dir {
        "/r" => entries(&[("/r/a", false), ("/r/d", true), ("/r/b", false), ("/r/e", true)]),
        "/r/d" => entries(&[("/r/d/x", false), ("/r/d/dd", true), ("/r/d/y", false)]),
        "/r/d/dd" => entries(&[("/r/d/dd/deep", false)]),
        "/r/e" => entries(&[]),
        other => panic!("no such directory: {}", other),
    }
}

#[test]
fn walk_finds_the_files_in_the_order_of_the_tree() {
    let mut walker = Walker::new(listing("/r"));
    let mut asked = Vec::new();
    while let Some(dir) = walker.next() {
        walker.supply(listing(&dir));
        asked.push(dir);
    }
    assert_eq!(asked, strings(&["/r/d", "/r/d/dd", "/r/e"]));
    assert_eq!(
        walker.into_files(),
        strings(&["/r/a", "/r/d/x", "/r/d/dd/deep", "/r/d/y", "/r/b"])
    );
}

#[test]
fn walk_waits_for_the_listing_it_asked_for() {
    let mut walker = Walker::new(entries(&[("/f", false), ("/d", true), ("/g", false)]));
    assert_eq!(walker.next(), Some("/d".to_string()));
    assert_eq!(walker.files(), &strings(&["/f"]));
    assert_eq!(walker.next(), None);
    assert_eq!(walker.files(), &strings(&["/f"]));
    walker.supply(vec![]);
    assert_eq!(walker.next(), None);
    assert_eq!(walker.files(), &strings(&["/f", "/g"]));
}

#[test]
fn walk_of_an_empty_directory_finds_nothing() {
    let mut walker = Walker::new(vec![]);
    assert_eq!(walker.next(), None);
    assert_eq!(walker.into_files(), Vec::<String>::new());
}
