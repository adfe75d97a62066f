use setup::services::winget::{
    apps_include_id, appx_install_location, available_in_index, catalog_args, catalog_failure,
    command_text, filter_catalog, index_has_id, install_args, install_result,
    installed_apps_from_registry, latest_source_package, list_args, search_id_args, search_plan,
    search_output_mentions, search_query_args, uninstall_args, uninstall_result, uninstall_roots,
    WingetService,
};
use setup::types::InstalledApp;

fn app(name: &str, id: &str, version: &str, source: &str) -> InstalledApp {
    InstalledApp::new(name.to_string(), id.to_string(), version.to_string(), source.to_string())
}

#[test]
fn install_outcomes() {
    let ok = install_result(false, true, false, "Found X\nDone\n");
    assert!(ok.success);
    assert_eq!(ok.message, "Installed successfully");
    let already = install_result(true, false, true, "Found X\nFound an existing package already installed.\n");
    assert!(already.success);
    assert_eq!(already.message, "Already installed");
    let not_before = install_result(false, true, true, "already installed\n");
    assert_eq!(not_before.message, "Installed successfully");
    let failed = install_result(false, false, false, "Found X\nInstaller failed with exit code: 1603\n");
    assert!(!failed.success);
    assert_eq!(failed.message, "Installer failed with exit code: 1603");
    let silent = install_result(false, false, false, "");
    assert!(!silent.success);
    assert_eq!(silent.message, "Installation failed");
}

#[test]
fn uninstall_outcomes() {
    let gone = uninstall_result(false, false);
    assert!(gone.success);
    assert_eq!(gone.message, "Uninstalled successfully");
    let exited = uninstall_result(true, true);
    assert!(exited.success);
    let stuck = uninstall_result(true, false);
    assert!(!stuck.success);
    assert_eq!(stuck.message, "Uninstall failed \u{2013} app still installed");
}

#[test]
fn command_output_joins_streams() {
    assert_eq!(command_text(b"out".to_vec(), b"err".to_vec()), "out\nerr");
    assert_eq!(command_text(b"out\n".to_vec(), b"err".to_vec()), "out\nerr");
    assert_eq!(command_text(Vec::new(), b"err".to_vec()), "err");
    assert_eq!(command_text(b"only".to_vec(), Vec::new()), "only");
    assert_eq!(command_text(vec![b'a', 0xff], Vec::new()), "a\u{fffd}");
}

#[test]
fn catalog_failure_messages() {
    let cmd = "winget search . --source winget --accept-source-agreements --disable-interactivity";
    assert_eq!(catalog_failure(Some(0), ""), format!("{cmd} returned no packages"));
    assert_eq!(
        catalog_failure(Some(2), "boom\nmore"),
        format!("{cmd} failed with exit code 2: boom")
    );
    assert_eq!(
        catalog_failure(Some(-1), "  \n"),
        format!("{cmd} failed with exit code -1")
    );
    assert_eq!(
        catalog_failure(None, "program not found"),
        format!("{cmd} could not be started: program not found: program not found")
    );
}

#[test]
fn catalog_from_search_reports_empty_listing() {
    let w = WingetService::new();
    let (apps, err) = w.catalog_from_search("", Some(0));
    assert!(apps.is_empty());
    assert_eq!(
        err.unwrap(),
        "winget search . --source winget --accept-source-agreements --disable-interactivity returned no packages"
    );
    let raw = "Name  Id     Version Source\n----------------------------\nTool  Ven.T  1.0     winget\n";
    let (apps, err) = w.catalog_from_search(raw, Some(0));
    assert_eq!(apps.len(), 1);
    assert!(err.is_none());
}

#[test]
fn lookups_ignore_case() {
    assert!(search_output_mentions(
        "Name Id\nVisual Studio Code Microsoft.VisualStudioCode",
        "microsoft.visualstudiocode"
    ));
    assert!(!search_output_mentions("No package found", "Vendor.Tool"));
    let installed = vec![app("Tool", "Vendor.Tool", "1", "winget")];
    assert!(apps_include_id(&installed, "VENDOR.TOOL"));
    assert!(!apps_include_id(&installed, "Vendor.Other"));
    assert!(index_has_id(&installed, "vendor.tool"));
    assert!(available_in_index(&installed, "VENDOR.tool"));
    assert!(!available_in_index(&installed, "Vendor.Tools"));
}

#[test]
fn catalog_filter_and_limit() {
    let apps = vec![
        app("Visual Studio Code", "Microsoft.VisualStudioCode", "1", "winget"),
        app("Code Runner", "Ex.CodeRunner", "2", "winget"),
        app("Docker", "Docker.Docker", "3", "winget"),
    ];
    let all = filter_catalog(
        vec![apps[0].clone(), apps[1].clone(), apps[2].clone()],
        None,
        Some(1),
    );
    assert_eq!(all.len(), 3);
    let hits = filter_catalog(
        vec![apps[0].clone(), apps[1].clone(), apps[2].clone()],
        Some("CODE"),
        None,
    );
    assert_eq!(hits.len(), 2);
    assert_eq!(hits[1].id, "Ex.CodeRunner");
    let one = filter_catalog(vec![apps[0].clone(), apps[1].clone(), apps[2].clone()], Some("code"), Some(1));
    assert_eq!(one.len(), 1);
    assert_eq!(one[0].id, "Microsoft.VisualStudioCode");
}

#[test]
fn registry_lists_are_merged_by_name_and_sorted() {
    let first = "HKEY_LOCAL_MACHINE\\A\\Zeta\n    DisplayName    REG_SZ    Zeta App\nHKEY_LOCAL_MACHINE\\A\\alpha\n    DisplayName    REG_SZ    alpha tool\n    DisplayVersion    REG_SZ    1.0\n".to_string();
    let second = "HKEY_CURRENT_USER\\B\\Alpha\n    DisplayName    REG_SZ    Alpha Tool\n    DisplayVersion    REG_SZ    9.9\nHKEY_CURRENT_USER\\B\\Beta\n    DisplayName    REG_SZ    Beta\n".to_string();
    let apps = installed_apps_from_registry(&vec![first, second]);
    assert_eq!(apps.len(), 3);
    assert_eq!(apps[0].name, "alpha tool");
    assert_eq!(apps[0].version, "1.0");
    assert_eq!(apps[1].name, "Beta");
    assert_eq!(apps[2].name, "Zeta App");
    assert_eq!(apps[2].id, "Zeta");
}

#[test]
fn command_lines() {
    assert_eq!(list_args(), vec!["list", "--disable-interactivity"]);
    assert_eq!(
        install_args("Ven.App"),
        vec![
            "install",
            "--id",
            "Ven.App",
            "--accept-source-agreements",
            "--accept-package-agreements",
            "--disable-interactivity",
            "--silent",
            "--force"
        ]
    );
    assert_eq!(
        uninstall_args("Ven.App"),
        vec!["uninstall", "--id", "Ven.App", "--disable-interactivity", "--silent", "--force", "--purge"]
    );
    assert_eq!(search_id_args("Ven.App")[2], "Ven.App");
    assert_eq!(search_id_args("Ven.App").len(), 8);
    assert_eq!(search_query_args("code")[1], "--query");
    assert_eq!(search_query_args("code")[2], "code");
    assert_eq!(catalog_args()[1], ".");
    assert_eq!(uninstall_roots().len(), 3);
    assert_eq!(
        uninstall_roots()[1],
        "HKLM\\SOFTWARE\\WOW6432Node\\Microsoft\\Windows\\CurrentVersion\\Uninstall"
    );
}

#[test]
fn search_and_source_decisions() {
    assert_eq!(search_plan("  code  "), Some("code".to_string()));
    assert_eq!(search_plan(" \t "), None);
    assert_eq!(appx_install_location("  C:\\Apps\\Source \r\n"), Some("C:\\Apps\\Source".to_string()));
    assert_eq!(appx_install_location("\r\n"), None);
    let names = vec![
        "Microsoft.Winget.Source_2023.1.0".to_string(),
        "Microsoft.Winget.Source_2024.5.0".to_string(),
        "Zeta.Other_9".to_string(),
        "Microsoft.Winget.Source_2025.1.0".to_string(),
    ];
    assert_eq!(latest_source_package(&names, &vec![true, true, true, false]), Some(1));
    assert_eq!(latest_source_package(&names, &vec![false, false, true, false]), None);
    let w = WingetService::new();
    assert!(w.installed_from_list("").is_none());
    let listed = w
        .installed_from_list("Name Id  Version\n---- --- -------\nA    V.A 1.0\n")
        .unwrap();
    assert_eq!(listed[0].id, "V.A");
}
