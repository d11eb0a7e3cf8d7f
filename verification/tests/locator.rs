use codesign::Architecture;
use codesign::CodeSignError;
use codesign::InstalledRoots;
use codesign::SignTool;

fn roots(root: &str, versions: &[&str]) -> InstalledRoots {
    InstalledRoots {
        kits_root: root.to_string(),
        versions: versions.iter().map(|v| v.to_string()).collect(),
    }
}

#[test]
fn lexical_order_decides_by_first_difference() {
    assert!(codesign::str_lex_lt("10.0.15063.0", "10.0.17763.0"));
    assert!(!codesign::str_lex_lt("10.0.17763.0", "10.0.15063.0"));
    assert!(!codesign::str_lex_lt("10.0.17763.0", "10.0.17763.0"));
    // Lexical, not numeric: "10" sorts before "9".
    assert!(codesign::str_lex_lt("10", "9"));
    // A proper prefix sorts first.
    assert!(codesign::str_lex_lt("10.0", "10.0.1"));
}

#[test]
fn versions_sort_newest_first() {
    let sorted = codesign::sort_versions_descending(&vec![
        "10.0.15063.0".to_string(),
        "10.0.22000.0".to_string(),
        "10.0.17763.0".to_string(),
    ]);
    assert_eq!(
        sorted,
        vec![
            "10.0.22000.0".to_string(),
            "10.0.17763.0".to_string(),
            "10.0.15063.0".to_string(),
        ]
    );
}

#[test]
fn search_order_is_descending_with_one_fallback_last() {
    let order = codesign::search_order(
        "C:\\Kits\\10",
        &vec![
            "10.0.15063.0".to_string(),
            "10.0.17763.0".to_string(),
            "10.0.16299.0".to_string(),
        ],
    );
    assert_eq!(
        order,
        vec![
            "C:\\Kits\\10\\bin\\10.0.17763.0".to_string(),
            "C:\\Kits\\10\\bin\\10.0.16299.0".to_string(),
            "C:\\Kits\\10\\bin\\10.0.15063.0".to_string(),
            "C:\\Kits\\10\\bin".to_string(),
        ]
    );
}

#[test]
fn search_order_of_no_versions_is_fallback_only() {
    let order = codesign::search_order("C:\\Kits\\10", &Vec::new());
    assert_eq!(order, vec!["C:\\Kits\\10\\bin".to_string()]);
}

#[test]
fn candidate_tool_paths_append_architecture_and_tool() {
    let paths = codesign::candidate_tool_paths(
        &roots("C:\\Kits\\10", &["10.0.17763.0"]),
        Architecture::Bits32,
    );
    assert_eq!(
        paths,
        vec![
            "C:\\Kits\\10\\bin\\10.0.17763.0\\x86\\signtool.exe".to_string(),
            "C:\\Kits\\10\\bin\\x86\\signtool.exe".to_string(),
        ]
    );
}

#[test]
fn arch_directories_are_x86_and_x64() {
    assert_eq!(codesign::arch_directory(Architecture::Bits32), "x86");
    assert_eq!(codesign::arch_directory(Architecture::Bits64), "x64");
}

#[test]
fn locate_returns_fallback_when_only_it_has_the_tool() {
    // Newer version directories exist but lack the executable; only the
    // bare bin path holds it.
    let lookup = Some(roots("C:\\Kits\\10", &["10.0.17763.0", "10.0.15063.0"]));
    let present = vec![false, false, true];
    let tool = SignTool::locate_latest(&lookup, Some(Architecture::Bits64), &present).unwrap();
    assert_eq!(tool.tool_path(), "C:\\Kits\\10\\bin\\x64\\signtool.exe");
}

#[test]
fn locate_prefers_lexically_greatest_version() {
    // Two version directories hold the executable; the lexically greater
    // version wins.
    let lookup = Some(roots("C:\\Kits\\10", &["10.0.15063.0", "10.0.17763.0"]));
    let present = vec![true, true, false];
    let tool = SignTool::locate_latest(&lookup, Some(Architecture::Bits64), &present).unwrap();
    assert_eq!(
        tool.tool_path(),
        "C:\\Kits\\10\\bin\\10.0.17763.0\\x64\\signtool.exe"
    );
}

#[test]
fn locate_skips_absent_newer_version() {
    let lookup = Some(roots("C:\\Kits\\10", &["10.0.15063.0", "10.0.17763.0"]));
    let present = vec![false, true, true];
    let tool = SignTool::locate_latest(&lookup, Some(Architecture::Bits64), &present).unwrap();
    assert_eq!(
        tool.tool_path(),
        "C:\\Kits\\10\\bin\\10.0.15063.0\\x64\\signtool.exe"
    );
}

#[test]
fn locate_fails_with_lookup_failed_when_roots_unreadable() {
    let r = SignTool::locate_latest(&None, Some(Architecture::Bits64), &Vec::new());
    assert_eq!(r.unwrap_err(), CodeSignError::LookupFailed);
}

#[test]
fn locate_fails_on_unsupported_architecture() {
    let lookup = Some(roots("C:\\Kits\\10", &["10.0.17763.0"]));
    let r = SignTool::locate_latest(&lookup, None, &Vec::new());
    assert_eq!(r.unwrap_err(), CodeSignError::UnsupportedArchitecture);
}

#[test]
fn locate_fails_with_not_found_when_no_candidate_present() {
    let lookup = Some(roots("C:\\Kits\\10", &["10.0.17763.0"]));
    let present = vec![false, false];
    let r = SignTool::locate_latest(&lookup, Some(Architecture::Bits64), &present);
    assert_eq!(r.unwrap_err(), CodeSignError::NotFound);
}

#[test]
fn architecture_detection_reports_something() {
    // The outcome depends on the machine; it only has to be consistent.
    let first = codesign::detect_architecture();
    let second = codesign::detect_architecture();
    assert_eq!(first, second);
}
