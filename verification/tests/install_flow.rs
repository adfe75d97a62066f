use setup::commands::install::{
    after_choice, app_count_text, preset_status, done_message, first_shown_line, installed_ids, installer_title_text, preset_info,
    result_mark_text, result_widths, run, skip_message, start_message, InstallAction, InstallMsg,
    InstallerApp, PresetInfo, SelectorApp,
};
use setup::commands::keys::{Key, KeyInput};
use setup::services::winget::InstallResult;
use setup::types::{AppConfig, Config, InstalledApp};

fn key(code: Key) -> KeyInput {
    KeyInput { code, ctrl: false, press: true }
}

fn entry(id: &str, name: &str, available: bool, note: Option<&str>) -> AppConfig {
    AppConfig {
        id: id.to_string(),
        name: name.to_string(),
        version: "latest".to_string(),
        available_in_winget: available,
        note: note.map(|n| n.to_string()),
    }
}

fn preset(name: &str) -> PresetInfo {
    PresetInfo {
        name: name.to_string(),
        path: format!("presets/{name}.json"),
        app_count: 1,
        all_installed: false,
    }
}

#[test]
fn run_starts_from_a_file_or_the_selector() {
    assert!(matches!(run(Some("apps.json".to_string())), InstallAction::PerformInstallation(p) if p == "apps.json"));
    assert!(matches!(run(None), InstallAction::ChoosePreset));
    assert!(matches!(after_choice(Some("p.json".to_string())), InstallAction::PerformInstallation(p) if p == "p.json"));
    assert!(matches!(after_choice(None), InstallAction::Finish));
}

#[test]
fn selector_needs_presets() {
    match SelectorApp::new(vec![], "presets") {
        Err(e) => assert_eq!(e, "No presets found in presets"),
        Ok(_) => panic!("expected an error"),
    }
}

#[test]
fn selector_orders_moves_and_chooses() {
    let mut s = match SelectorApp::new(vec![preset("work"), preset("gaming"), preset("basic")], "presets") {
        Ok(s) => s,
        Err(e) => panic!("{e}"),
    };
    let names: Vec<&str> = s.presets.iter().map(|p| p.name.as_str()).collect();
    assert_eq!(names, vec!["basic", "gaming", "work"]);
    assert_eq!(s.cursor, 0);
    assert_eq!(s.list_selected, Some(0));
    s.handle_key(key(Key::Up));
    assert_eq!(s.cursor, 2);
    s.handle_key(key(Key::Char('j')));
    assert_eq!(s.cursor, 0);
    s.handle_key(key(Key::PageDown));
    assert_eq!(s.cursor, 1);
    assert_eq!(s.list_selected, Some(1));
    s.handle_key(KeyInput { code: Key::Enter, ctrl: false, press: false });
    assert!(!s.should_quit);
    s.handle_key(key(Key::Enter));
    assert!(s.should_quit);
    assert_eq!(s.selected_path, Some("presets/gaming.json".to_string()));
}

#[test]
fn selector_quits_without_choosing() {
    let mut s = SelectorApp::new(vec![preset("a")], "presets").ok().unwrap();
    s.handle_key(key(Key::Char('q')));
    assert!(s.should_quit);
    assert_eq!(s.selected_path, None);
    let mut t = SelectorApp::new(vec![preset("a")], "presets").ok().unwrap();
    t.handle_key(key(Key::Esc));
    assert!(t.should_quit);
}

#[test]
fn presets_know_whether_they_are_installed() {
    let installed = vec![InstalledApp::new(
        "App".to_string(),
        "Vendor.App".to_string(),
        "1".to_string(),
        "winget".to_string(),
    )];
    let ids = installed_ids(&installed);
    assert_eq!(ids, vec!["vendor.app".to_string()]);
    let done = Config {
        apps: vec![entry("VENDOR.APP", "App", true, None), entry("Manual", "Manual", false, Some("by hand"))],
    };
    let info = preset_info("dev".to_string(), "presets/dev.json".to_string(), &done, &ids);
    assert_eq!(info.app_count, 2);
    assert!(info.all_installed);
    let pending = Config { apps: vec![entry("Other.App", "Other", true, None)] };
    let info = preset_info("x".to_string(), "x.json".to_string(), &pending, &ids);
    assert!(!info.all_installed);
}

#[test]
fn worker_messages() {
    let a = entry("Vendor.App", "App", true, None);
    let m = entry("Manual", "Manual Tool", false, Some("Not available via winget - install manually"));
    let n = entry("Bare", "Bare", false, None);
    assert!(matches!(start_message(3, &a), InstallMsg::AppStart { idx: 3, name, id } if name == "App" && id == "Vendor.App"));
    assert!(skip_message(&a).is_none());
    assert!(matches!(skip_message(&m), Some(InstallMsg::AppDone { name, status, message })
        if name == "Manual Tool" && status == "SKIP" && message == "Not available via winget - install manually"));
    assert!(matches!(skip_message(&n), Some(InstallMsg::AppDone { message, .. }) if message.is_empty()));
    let ok = done_message(&a, InstallResult { success: true, message: "Installed successfully".to_string() });
    assert!(matches!(ok, InstallMsg::AppDone { status, message, .. } if status == "OK" && message == "Installed successfully"));
    let fail = done_message(&a, InstallResult { success: false, message: "boom".to_string() });
    assert!(matches!(fail, InstallMsg::AppDone { status, .. } if status == "FAIL"));
}

#[test]
fn installer_screen_follows_messages() {
    let mut s = InstallerApp::new(2);
    assert_eq!(s.current_text(), "Starting...");
    assert_eq!(s.bottom_text(), "  Installing 1 of 2\u{2026}  please wait");
    s.poll(vec![
        InstallMsg::AppStart { idx: 0, name: "App".to_string(), id: "Vendor.App".to_string() },
        InstallMsg::AppLine("\x1b[2K\rProgress 10%".to_string()),
        InstallMsg::AppLine("   ".to_string()),
    ]);
    assert_eq!(s.log_lines, vec!["Progress 10%".to_string()]);
    assert_eq!(s.current_text(), "App (Vendor.App)");
    s.poll(vec![
        InstallMsg::AppDone { name: "App".to_string(), status: "OK".to_string(), message: "Installed successfully".to_string() },
        InstallMsg::AppStart { idx: 1, name: "Manual".to_string(), id: "Manual".to_string() },
        InstallMsg::AppDone { name: "Manual".to_string(), status: "SKIP".to_string(), message: "by hand".to_string() },
    ]);
    assert!(s.log_lines.is_empty());
    assert_eq!(s.current_idx, 1);
    assert_eq!(s.bottom_text(), "  Installing 2 of 2\u{2026}  please wait");
    assert_eq!(s.progress_label(), "2/2");
    s.poll(vec![InstallMsg::Done]);
    assert!(s.done);
    assert_eq!(s.current_text(), "All done");
    assert_eq!(s.count_results("OK"), 1);
    assert_eq!(s.count_results("SKIP"), 1);
    assert_eq!(s.bottom_text(), "  OK: 1  Skipped: 1  Failed: 0    [Press any key to exit]");
}

#[test]
fn installer_screen_layout() {
    assert_eq!(installer_title_text(false), "Installing Applications");
    assert_eq!(installer_title_text(true), "Installation Complete");
    assert_eq!(result_mark_text(&"OK".to_string()), "\u{2713}");
    assert_eq!(result_mark_text(&"SKIP".to_string()), "\u{2500}");
    assert_eq!(result_mark_text(&"FAIL".to_string()), "\u{2717}");
    assert_eq!(result_widths(100), (35, 53));
    assert_eq!(result_widths(30), (15, 3));
    assert_eq!(result_widths(10), (5, 0));
    assert_eq!(first_shown_line(10, 5), 5);
    assert_eq!(first_shown_line(3, 5), 0);
}

#[test]
fn selector_rows() {
    assert_eq!(preset_status(true), ("\u{2713}", "Installed"));
    assert_eq!(preset_status(false), ("\u{25cb}", "Pending"));
    assert_eq!(app_count_text(7), format!(" {:>3} apps  ", 7));
    assert_eq!(app_count_text(42), "  42 apps  ");
    assert_eq!(app_count_text(1234), " 1234 apps  ");
}
