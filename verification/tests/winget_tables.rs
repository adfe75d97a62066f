use setup::services::registry::parse_registry_uninstall_output;
use setup::services::winget::WingetService;

#[test]
fn parses_winget_tables_with_non_ascii_names() {
    let raw = "\
Name                 Id                         Version Source
-------------------- -------------------------- ------- ------
Zażółć gęślą jaźń    Example.Polish             1.0.0   winget
Visual Studio Code   Microsoft.VisualStudioCode 1.2.3   winget
";

    let apps = WingetService::new().parse_table(raw);

    assert_eq!(apps.len(), 2);
    assert_eq!(apps[0].name, "Zażółć gęślą jaźń");
    assert_eq!(apps[0].id, "Example.Polish");
    assert_eq!(apps[0].version, "1.0.0");
    assert_eq!(apps[0].source, "winget");
    assert_eq!(apps[1].id, "Microsoft.VisualStudioCode");
}

#[test]
fn parses_winget_tables_with_ansi_and_spacing_fallback() {
    let raw = "\
\x1b[?25lName              Id                          Version Match        Source
---------------------------------------------------------------------------
Visual Studio Code  Microsoft.VisualStudioCode  1.2.3   Moniker: code winget
Docker Desktop      Docker.DockerDesktop        4.0.0   Tag: docker   winget
\x1b[?25h";

    let apps = WingetService::new().parse_table(raw);

    assert_eq!(apps.len(), 2);
    assert_eq!(apps[0].name, "Visual Studio Code");
    assert_eq!(apps[0].id, "Microsoft.VisualStudioCode");
    assert_eq!(apps[1].source, "winget");
}

#[test]
fn parses_registry_uninstall_entries() {
    let raw = r"
HKEY_LOCAL_MACHINE\SOFTWARE\Microsoft\Windows\CurrentVersion\Uninstall\Example
    DisplayName    REG_SZ    Example App
    DisplayVersion    REG_SZ    2.3.4

HKEY_LOCAL_MACHINE\SOFTWARE\Microsoft\Windows\CurrentVersion\Uninstall\Hidden
    DisplayName    REG_SZ    Hidden Runtime
    SystemComponent    REG_DWORD    0x1
";

    let apps = parse_registry_uninstall_output(raw);

    assert_eq!(apps.len(), 1);
    assert_eq!(apps[0].name, "Example App");
    assert_eq!(apps[0].id, "Example");
    assert_eq!(apps[0].version, "2.3.4");
    assert_eq!(apps[0].source, "registry");
}

#[test]
fn registry_entry_with_winget_identifier_keeps_it() {
    let raw = "HKEY_CURRENT_USER\\Software\\X\\Uninstall\\{GUID}\r\n    DisplayName    REG_SZ    Tool  \r\n    WinGetPackageIdentifier    REG_SZ    Vendor.Tool\r\n";
    let apps = parse_registry_uninstall_output(raw);
    assert_eq!(apps.len(), 1);
    assert_eq!(apps[0].name, "Tool");
    assert_eq!(apps[0].id, "Vendor.Tool");
    assert_eq!(apps[0].version, "");
    assert_eq!(apps[0].source, "winget");
}

#[test]
fn table_with_bom_and_carriage_returns() {
    let raw = "\u{feff}Name   Id      Version Source\n-------------------------------\nspin\rApp A  Ven.A   1.0     winget\n";
    let apps = WingetService::new().parse_table(raw);
    assert_eq!(apps.len(), 1);
    assert_eq!(apps[0].name, "App A");
    assert_eq!(apps[0].id, "Ven.A");
    assert_eq!(apps[0].version, "1.0");
    assert_eq!(apps[0].source, "winget");
}

#[test]
fn lines_ending_in_carriage_returns_keep_only_what_follows_it() {
    let raw = "Name   Id      Version Source\r\n-------------------------------\r\nApp A  Ven.A   1.0     winget\r\n";
    let apps = WingetService::new().parse_table(raw);
    assert!(apps.is_empty());
}

#[test]
fn table_without_separator_gives_nothing() {
    let apps = WingetService::new().parse_table("No installed package found matching input criteria.");
    assert!(apps.is_empty());
}

#[test]
fn system_components_are_recognised() {
    let w = WingetService::new();
    let redist = setup::types::InstalledApp::new(
        "Microsoft Visual C++ 2015 Redistributable".to_string(),
        "Microsoft.VCRedist.2015+.x64".to_string(),
        "14.0".to_string(),
        "winget".to_string(),
    );
    let driver = setup::types::InstalledApp::new(
        "Realtek Audio Driver".to_string(),
        "ARP\\Machine\\X64\\Realtek".to_string(),
        "6.0".to_string(),
        String::new(),
    );
    let firefox = setup::types::InstalledApp::new(
        "Mozilla Firefox".to_string(),
        "Mozilla.Firefox".to_string(),
        "120.0".to_string(),
        "winget".to_string(),
    );
    assert!(w.is_system_app(&redist));
    assert!(w.is_system_app(&driver));
    assert!(!w.is_system_app(&firefox));
}

fn fields(raw: &str) -> Vec<(String, String, String, String)> {
    WingetService::new()
        .parse_table(raw)
        .into_iter()
        .map(|a| (a.name, a.id, a.version, a.source))
        .collect()
}

#[test]
fn byte_order_marks_and_overwritten_text_change_nothing() {
    let raw = "Name         Id          Version Source\n---------------------------------------\nTool One     Ven.One     1.0     winget\nTool Two     Ven.Two     2.0     winget\n";
    let plain = fields(raw);
    assert_eq!(plain.len(), 2);
    assert_eq!(fields(&format!("\u{feff}{raw}")), plain);
    let spun = raw.replace("Tool Two", "  - \\ | /   \rTool Two");
    assert_eq!(fields(&spun), plain);
    let header_spun = format!("\u{feff}\u{feff}50%\r{raw}");
    assert_eq!(fields(&header_spun), plain);
}
