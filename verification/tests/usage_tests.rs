use api_drift::usage::{build_targets, scan, PathOccurrence};

fn occ(segments: &[&str], file: &str, line: u32) -> PathOccurrence {
    PathOccurrence { segments: segments.iter().map(|s| (*s).to_owned()).collect(), file: file.to_owned(), line }
}

#[test]
fn targets_are_the_last_two_segments() {
    let t = build_targets(&["bro_tui::backend::BackendEvent::Output", "single", "a::b"]);
    assert_eq!(
        t,
        vec![
            ("BackendEvent".to_owned(), "Output".to_owned(), "bro_tui::backend::BackendEvent::Output".to_owned()),
            ("a".to_owned(), "b".to_owned(), "a::b".to_owned()),
        ]
    );
}

#[test]
fn targets_split_like_str_split() {
    // `a::::b` splits into ["a", "", "b"]: the last two are "" and "b".
    let t = build_targets(&["a::::b", "x::"]);
    assert_eq!(t[0], ("".to_owned(), "b".to_owned(), "a::::b".to_owned()));
    assert_eq!(t[1], ("x".to_owned(), "".to_owned(), "x::".to_owned()));
}

#[test]
fn scan_matches_used_and_fully_qualified_paths() {
    let occurrences = vec![
        occ(&["BackendEvent", "Output"], "src/a.rs", 3),
        occ(&["bro_tui", "backend", "BackendEvent", "Output"], "src/b.rs", 9),
        occ(&["Output"], "src/c.rs", 1),
        occ(&["Other", "Output"], "src/d.rs", 2),
    ];
    let sites = scan(&occurrences, &["bro_tui::backend::BackendEvent::Output"]);
    assert_eq!(sites.len(), 2);
    assert_eq!(sites[0].item_path, "bro_tui::backend::BackendEvent::Output");
    assert_eq!((sites[0].file.as_str(), sites[0].line), ("src/a.rs", 3));
    assert_eq!((sites[1].file.as_str(), sites[1].line), ("src/b.rs", 9));
}

#[test]
fn scan_reports_each_matching_target() {
    let occurrences = vec![occ(&["E", "V"], "src/a.rs", 5)];
    let sites = scan(&occurrences, &["x::E::V", "y::E::V", "E::W"]);
    let paths: Vec<&str> = sites.iter().map(|s| s.item_path.as_str()).collect();
    assert_eq!(paths, vec!["x::E::V", "y::E::V"]);
}
