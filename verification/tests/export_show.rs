use setup::commands::export::{
    checking_text, count_available, export_config, export_entry, is_from_winget, truncate,
};
use setup::commands::show::{header_line, row_line, rule_line, total_text};
use setup::types::InstalledApp;

fn app(name: &str, id: &str, version: &str, source: &str) -> InstalledApp {
    InstalledApp::new(name.to_string(), id.to_string(), version.to_string(), source.to_string())
}

#[test]
fn export_truncates_by_characters() {
    assert_eq!(truncate("abcdef", 4), "abc\u{2026}");
    assert_eq!(truncate("abc", 3), "abc");
    assert_eq!(truncate("abc", 0), "");
    assert_eq!(truncate("żółw", 3), "żó\u{2026}");
}

#[test]
fn winget_source_needs_no_lookup() {
    assert!(is_from_winget(&app("A", "a", "1", "WinGet")));
    assert!(!is_from_winget(&app("A", "a", "1", "msstore")));
    assert!(!is_from_winget(&app("A", "a", "1", "")));
}

#[test]
fn export_entries() {
    let ok = export_entry(&app("Tool", "Ven.Tool", "3.1", "winget"), true);
    assert_eq!(ok.id, "Ven.Tool");
    assert_eq!(ok.name, "Tool");
    assert_eq!(ok.version, "latest");
    assert!(ok.available_in_winget);
    assert_eq!(ok.note, None);
    let manual = export_entry(&app("Old", "ARP\\Old", "1", ""), false);
    assert!(!manual.available_in_winget);
    assert_eq!(manual.note, Some("Not available via winget - install manually".to_string()));
}

#[test]
fn export_puts_available_first_then_by_name() {
    let apps = vec![
        app("Zed", "Z", "1", "winget"),
        app("Alpha", "A", "1", ""),
        app("Beta", "B", "1", "winget"),
        app("Gamma", "G", "1", ""),
    ];
    let available = vec![true, false, true, true];
    let config = export_config(&apps, &available);
    let ids: Vec<&str> = config.apps.iter().map(|a| a.id.as_str()).collect();
    assert_eq!(ids, vec!["B", "G", "Z", "A"]);
    assert_eq!(count_available(&available), 3);
}

#[test]
fn checking_line_is_padded() {
    assert_eq!(checking_text(0, 3, "Name"), format!("\r  Checking 1/3: Name{}", " ".repeat(36)));
    let long = "x".repeat(50);
    assert_eq!(
        checking_text(9, 10, &long),
        format!("\r  Checking 10/10: {}\u{2026}", "x".repeat(39))
    );
}

#[test]
fn show_table_lines() {
    let rule = rule_line();
    assert_eq!(rule, format!("+-{}-+-{}-+-{}-+-{}-+", "-".repeat(40), "-".repeat(45), "-".repeat(18), "-".repeat(10)));
    assert_eq!(
        header_line(),
        format!("| {:<40} | {:<45} | {:<18} | {:<10} |", "Name", "ID", "Version", "Source")
    );
    let row = row_line(&app("Tool", "Ven.Tool", "1.0", ""));
    assert_eq!(
        row,
        format!("| {:<40} | {:<45} | {:<18} | {:<10} |", "Tool", "Ven.Tool", "1.0", "N/A")
    );
    let long = row_line(&app(&"n".repeat(41), "i", "v", "winget"));
    assert!(long.starts_with(&format!("| {}\u{2026} | i", "n".repeat(39))));
    assert_eq!(total_text(7), "\nTotal: 7 applications");
}
