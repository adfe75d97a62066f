use setup::commands::create::{
    available_widths, cycle, marker, selected_widths, truncate, CreateApp, Mode, Panel,
    PendingAction, StatusColor,
};
use setup::commands::keys::{Key, KeyInput};
use setup::commands::matching::{build_installed_index, find_installed_fields, normalize_name};
use setup::commands::progress::{ProgressMsg, RunStatus};
use setup::services::winget::WingetService;
use setup::types::InstalledApp;
use unicode_width::UnicodeWidthStr;

fn app(name: &str, id: &str, version: &str, source: &str) -> InstalledApp {
    InstalledApp::new(name.to_string(), id.to_string(), version.to_string(), source.to_string())
}

fn key(code: Key) -> KeyInput {
    KeyInput { code, ctrl: false, press: true }
}

fn ctrl(c: char) -> KeyInput {
    KeyInput { code: Key::Char(c), ctrl: true, press: true }
}

fn catalog() -> Vec<InstalledApp> {
    vec![
        app("Visual Studio Code", "Microsoft.VisualStudioCode", "1.2.3", "winget"),
        app("Docker Desktop", "Docker.DockerDesktop", "4.0.0", "winget"),
        app("Mozilla Firefox", "Mozilla.Firefox", "120.0", "winget"),
    ]
}

fn installed() -> Vec<InstalledApp> {
    vec![
        app("Docker Desktop", "Docker.DockerDesktop", "4.0.0", "winget"),
        app(
            "Microsoft Visual C++ 2015 Redistributable",
            "Microsoft.VCRedist.2015+.x64",
            "14.0",
            "winget",
        ),
    ]
}

fn screen() -> CreateApp {
    CreateApp::new(&WingetService::new(), installed(), catalog(), None)
}

#[test]
fn truncate_does_not_split_utf8_chars() {
    let input = format!("{}{}{}", "a".repeat(22), '\u{30cf}', "tail");
    let output = truncate(&input, 24);

    assert!(UnicodeWidthStr::width(output.as_str()) <= 24);
    assert!(output.ends_with('\u{2026}'));
}

#[test]
fn truncate_and_fit_exact_values() {
    assert_eq!(truncate("hello", 10), "hello");
    assert_eq!(truncate("hello world", 5), "hell\u{2026}");
    assert_eq!(truncate("hello", 0), "");
    assert_eq!(setup::commands::create::fit_cell("ab", 4), "ab  ");
    assert_eq!(setup::commands::create::fit_cell("abcdef", 4), "abc\u{2026}");
    assert_eq!(setup::commands::create::strip_ansi_cr("old\rnew \x1b[32mgreen\x1b[0m"), "new green");
}

#[test]
fn names_are_normalized() {
    assert_eq!(normalize_name("Google Chrome x64"), "google chrome");
    assert_eq!(normalize_name("Mozilla Firefox (x64 en-US)"), "mozilla firefox en us");
    assert_eq!(normalize_name("Brave Browser"), "brave");
    assert_eq!(normalize_name("7-Zip 23.01 (x64)"), "7 zip 23 01");
    assert_eq!(normalize_name("Stable Diffusion"), "diffusion");
    assert_eq!(normalize_name("  !!  "), "");
}

#[test]
fn installed_index_lookups() {
    let apps = vec![
        app("Google Chrome", "Google.Chrome", "120.0", "winget"),
        app("Notepad++ (64-bit x64)", "Notepad++", "8.6", ""),
    ];
    let (by_id, by_name) = build_installed_index(&apps);
    assert_eq!(by_id[0].0, "google.chrome");
    assert_eq!(by_name[1].0, "notepad 64 bit");
    let by_case = find_installed_fields(&by_id, &by_name, &app("X", "GOOGLE.CHROME", "", "")).unwrap();
    assert_eq!(by_case.version, "120.0");
    assert_eq!(by_case.source, "winget");
    let by_exact_name = find_installed_fields(&by_id, &by_name, &app("Google Chrome", "Other", "", "")).unwrap();
    assert_eq!(by_exact_name.version, "120.0");
    let loose = find_installed_fields(&by_id, &by_name, &app("Notepad", "Y", "", "")).unwrap();
    assert_eq!(loose.version, "8.6");
    assert_eq!(loose.source, "local");
    assert!(find_installed_fields(&by_id, &by_name, &app("Go", "Z", "", "")).is_none());
    assert!(find_installed_fields(&by_id, &by_name, &app("!!!", "W", "", "")).is_none());
}

#[test]
fn screen_opens_on_the_catalog() {
    let s = screen();
    assert_eq!(s.filtered.len(), 3);
    assert_eq!(s.installed_apps.len(), 1);
    assert_eq!(s.list_avail, Some(0));
    assert_eq!(s.list_sel, None);
    assert!(s.status_msg.is_none());
    assert_eq!(s.available_rows(), vec![(false, false), (false, true), (false, false)]);
    assert_eq!(s.available_title(), " Available  (3 apps)  Page 1/1");
    assert_eq!(s.selected_title(), " Selected (0) ");
    let empty = CreateApp::new(&WingetService::new(), vec![], vec![], None);
    assert_eq!(
        empty.status_msg,
        Some(("Winget catalog returned no packages".to_string(), StatusColor::Red))
    );
    let failed = CreateApp::new(&WingetService::new(), vec![], vec![], Some("boom".to_string()));
    assert_eq!(failed.status_msg, Some(("boom".to_string(), StatusColor::Red)));
}

#[test]
fn typing_filters_and_tab_shows_installed_only() {
    let mut s = screen();
    assert!(s.handle_normal_event(key(Key::Char('d'))));
    assert!(s.handle_normal_event(key(Key::Char('o'))));
    assert_eq!(s.filter_text, "do");
    assert!(s.filter_pending);
    assert_eq!(s.filtered.len(), 1);
    assert_eq!(s.filtered[0].id, "Docker.DockerDesktop");
    assert!(!s.handle_normal_event(key(Key::Tab)));
    assert!(s.show_installed_only);
    assert_eq!(s.filtered.len(), 1);
    assert!(s.handle_normal_event(key(Key::Backspace)));
    assert!(s.handle_normal_event(key(Key::Backspace)));
    assert!(s.handle_normal_event(key(Key::Backspace)));
    assert_eq!(s.filter_text, "");
    assert_eq!(s.filtered.len(), 1);
    s.handle_normal_event(key(Key::Tab));
    assert_eq!(s.filtered.len(), 3);
    let released = KeyInput { code: Key::Char('x'), ctrl: false, press: false };
    assert!(!s.handle_normal_event(released));
    assert_eq!(s.filter_text, "");
}

#[test]
fn selecting_moving_and_confirming() {
    let mut s = screen();
    s.handle_normal_event(key(Key::Enter));
    assert_eq!(s.selected.len(), 1);
    assert_eq!(s.selected[0].id, "Microsoft.VisualStudioCode");
    assert!(s.selected[0].available_in_winget);
    assert_eq!(s.selected[0].note, None);
    s.handle_normal_event(key(Key::Down));
    assert_eq!(s.cursor_avail, 1);
    s.handle_normal_event(key(Key::Enter));
    assert_eq!(s.selected.len(), 2);
    assert_eq!(s.cursor_sel, 1);
    assert_eq!(s.list_sel, Some(1));
    s.handle_normal_event(key(Key::Up));
    s.handle_normal_event(key(Key::Up));
    assert_eq!(s.cursor_avail, 2);
    s.handle_normal_event(key(Key::PageDown));
    assert_eq!(s.cursor_avail, 2);
    assert_eq!(s.available_rows(), vec![(true, false), (true, true), (false, false)]);

    s.handle_normal_event(key(Key::F(5)));
    match &s.mode {
        Mode::Confirm { message, action } => {
            assert_eq!(message, "Install 2 app(s)? (Visual Studio Code, Docker Desktop)");
            assert!(matches!(action, PendingAction::Install(v) if v.len() == 2));
        }
        _ => panic!("expected a confirmation"),
    }
    assert!(s.handle_confirm_event(key(Key::Char('n'))).is_none());
    assert!(matches!(s.mode, Mode::Normal));

    s.handle_normal_event(key(Key::F(6)));
    match &s.mode {
        Mode::Confirm { message, .. } => {
            assert_eq!(message, "Uninstall 1 app(s)? (Docker Desktop)");
        }
        _ => panic!("expected a confirmation"),
    }
    let action = s.handle_confirm_event(key(Key::Enter)).unwrap();
    assert!(matches!(&action, PendingAction::Uninstall(v) if v[0].id == "Docker.DockerDesktop"));
    assert!(s.selected.is_empty());
    assert_eq!(s.cursor_sel, 0);
    match &s.mode {
        Mode::Progress { board } => {
            assert_eq!(board.title, "Uninstalling");
            assert_eq!(board.apps.len(), 1);
            assert_eq!(board.apps[0].name, "Docker Desktop");
            assert_eq!(board.apps[0].status, RunStatus::Waiting);
        }
        _ => panic!("expected the progress board"),
    }
}

#[test]
fn selected_panel_removes_under_cursor() {
    let mut s = screen();
    s.handle_normal_event(key(Key::Enter));
    s.handle_normal_event(key(Key::Down));
    s.handle_normal_event(key(Key::Enter));
    s.handle_normal_event(key(Key::Right));
    assert_eq!(s.panel, Panel::Selected);
    s.handle_normal_event(key(Key::Down));
    assert_eq!(s.cursor_sel, 0);
    s.handle_normal_event(key(Key::Enter));
    assert_eq!(s.selected.len(), 1);
    assert_eq!(s.selected[0].id, "Docker.DockerDesktop");
    assert_eq!(s.cursor_sel, 0);
    s.handle_normal_event(key(Key::Enter));
    assert!(s.selected.is_empty());
    assert_eq!(s.list_sel, None);
    s.handle_normal_event(key(Key::Left));
    assert_eq!(s.panel, Panel::Available);
}

#[test]
fn toggling_twice_restores_the_selection() {
    let mut s = screen();
    let vs = catalog()[0].clone();
    s.toggle_app(&vs);
    s.toggle_app(&vs);
    assert!(s.selected.is_empty());
}

#[test]
fn nothing_selected_messages() {
    let mut s = screen();
    s.handle_normal_event(ctrl('s'));
    assert_eq!(s.status_msg, Some(("No applications selected!".to_string(), StatusColor::Red)));
    s.handle_normal_event(key(Key::F(5)));
    assert_eq!(s.status_msg, Some(("Nothing selected.".to_string(), StatusColor::Yellow)));
    s.handle_normal_event(key(Key::F(6)));
    assert_eq!(
        s.status_msg,
        Some(("No selected apps are installed.".to_string(), StatusColor::Yellow))
    );
    s.handle_normal_event(ctrl('x'));
    assert!(matches!(s.mode, Mode::Normal));
    s.handle_normal_event(ctrl('q'));
    assert!(s.should_quit);
}

#[test]
fn saving_a_preset() {
    let mut s = screen();
    assert_eq!(s.preset_file_name("x"), Err("No applications selected".to_string()));
    s.handle_normal_event(key(Key::Enter));
    s.handle_normal_event(ctrl('s'));
    assert!(matches!(&s.mode, Mode::FilenameInput { input } if input.is_empty()));
    for c in ['m', 'y', ' ', '-', 'x', '/'] {
        assert!(s.handle_filename_event(key(Key::Char(c))).is_none());
    }
    s.handle_filename_event(key(Key::Backspace));
    assert!(matches!(&s.mode, Mode::FilenameInput { input } if input == "my-"));
    let name = s.handle_filename_event(key(Key::Enter)).unwrap();
    assert_eq!(name, "my-");
    assert_eq!(s.preset_file_name(&name), Ok("my-.json".to_string()));
    assert_eq!(s.preset_file_name("  dev.json "), Ok("dev.json".to_string()));
    assert_eq!(s.preset_file_name("   "), Err("Filename cannot be empty".to_string()));
    s.finish_save(Ok("presets/my-.json".to_string()));
    assert_eq!(s.status_msg, Some(("Saved to presets/my-.json".to_string(), StatusColor::Green)));
    assert!(matches!(s.mode, Mode::Normal));
    s.finish_save(Err("disk full".to_string()));
    assert_eq!(s.status_msg, Some(("Error: disk full".to_string(), StatusColor::Red)));
    s.handle_normal_event(ctrl('s'));
    assert!(s.handle_filename_event(key(Key::Enter)).is_none());
    assert!(matches!(s.mode, Mode::Normal));
    s.handle_normal_event(ctrl('s'));
    s.handle_filename_event(key(Key::Esc));
    assert!(matches!(s.mode, Mode::Normal));
}

#[test]
fn progress_board_follows_the_workers() {
    let mut s = screen();
    s.handle_normal_event(key(Key::Enter));
    s.handle_normal_event(key(Key::Down));
    s.handle_normal_event(key(Key::Enter));
    s.handle_normal_event(key(Key::F(5)));
    let action = s.handle_confirm_event(key(Key::Enter)).unwrap();
    assert!(matches!(action, PendingAction::Install(_)));
    let back = s.handle_progress_event(
        vec![
            ProgressMsg::AppStart { idx: 0 },
            ProgressMsg::AppProgress { idx: 0, last_line: "\x1b[32mDownloading\r  50%".to_string() },
            ProgressMsg::AppProgress { idx: 0, last_line: "   ".to_string() },
            ProgressMsg::AppStart { idx: 7 },
        ],
        false,
        Some(key(Key::Enter)),
    );
    assert!(!back);
    match &s.mode {
        Mode::Progress { board } => {
            assert_eq!(board.apps[0].status, RunStatus::Running);
            assert_eq!(board.apps[0].last_line, "  50%");
            assert_eq!(board.apps[1].status, RunStatus::Waiting);
            assert_eq!(board.running_line(), "  Running: 1  Waiting: 1    [\u{2191}\u{2193}/j/k] scroll");
            assert_eq!(board.gauge_label(), "0/2");
            assert_eq!(board.list_title(true), "Applications (1 running)");
        }
        _ => panic!("expected the progress board"),
    }
    let back = s.handle_progress_event(
        vec![
            ProgressMsg::AppDone { idx: 0, status: "OK".to_string(), message: "Installed successfully".to_string() },
            ProgressMsg::AppDone { idx: 1, status: "FAIL".to_string(), message: "Installer failed".to_string() },
            ProgressMsg::Done("All done.".to_string()),
        ],
        false,
        Some(key(Key::Down)),
    );
    assert!(!back);
    match &s.mode {
        Mode::Progress { board } => {
            assert!(board.done);
            assert_eq!(board.result_msg, "All done.");
            assert_eq!(board.scroll_offset, 1);
            assert_eq!(board.summary_title(), "Installing \u{2013} Complete (with errors)");
            assert_eq!(
                board.summary_line(),
                "  \u{2713} OK: 1   \u{2717} Failed: 1   \u{2500} Skipped: 0    [Enter] return to app list"
            );
            assert_eq!(board.list_title(false), "Results (2 apps)");
        }
        _ => panic!("expected the progress board"),
    }
    assert!(s.handle_progress_event(vec![], false, Some(key(Key::Enter))));
    s.return_to_list(&WingetService::new(), installed());
    assert!(matches!(s.mode, Mode::Normal));
    assert_eq!(s.panel, Panel::Available);
    assert_eq!(s.cursor_avail, 0);
    assert!(s.selected.is_empty());
}

#[test]
fn vanished_workers_end_the_run() {
    let mut s = screen();
    s.handle_normal_event(key(Key::Enter));
    s.handle_normal_event(key(Key::F(5)));
    s.handle_confirm_event(key(Key::Enter)).unwrap();
    assert!(s.handle_progress_event(vec![], true, Some(key(Key::Enter))));
}

#[test]
fn catalog_search_is_debounced_and_merged() {
    let mut s = screen();
    for c in ['d', 'o', 'c'] {
        s.handle_normal_event(key(Key::Char(c)));
    }
    assert_eq!(s.poll_search(100_000_000), None);
    assert_eq!(s.poll_search(450_000_000), Some("doc".to_string()));
    assert!(s.is_searching);
    assert!(!s.filter_pending);
    assert_eq!(s.poll_search(900_000_000), None);
    s.finish_search(
        "doc".to_string(),
        vec![
            app("Docker Compose", "Docker.DockerCompose", "2.0", "winget"),
            app("Docker Desktop", "docker.dockerdesktop", "4.0.0", "winget"),
        ],
    );
    assert!(!s.is_searching);
    assert_eq!(s.all_apps.len(), 4);
    assert_eq!(s.all_apps[3].id, "Docker.DockerCompose");
    assert_eq!(s.filtered.len(), 2);
    assert_eq!(s.search_cache, vec!["doc".to_string()]);
    s.handle_normal_event(key(Key::Backspace));
    s.handle_normal_event(key(Key::Char('c')));
    assert_eq!(s.poll_search(500_000_000), None);
    assert!(!s.filter_pending);
    s.handle_normal_event(key(Key::Backspace));
    assert_eq!(s.poll_search(500_000_000), None);
}

#[test]
fn status_line_expires() {
    let mut s = screen();
    let serial = s.status_serial;
    s.set_status("oops".to_string(), StatusColor::Red);
    s.set_status("oops".to_string(), StatusColor::Red);
    assert_eq!(s.status_serial, serial + 2);
    s.expire_status(10_000_000_000);
    assert!(s.status_msg.is_some());
    s.expire_status(10_000_000_001);
    assert!(s.status_msg.is_none());
    s.set_status("saved".to_string(), StatusColor::Green);
    s.expire_status(2_000_000_001);
    assert!(s.status_msg.is_none());
}

#[test]
fn cursor_cycles_around() {
    assert_eq!(cycle(0, -1, 5), 4);
    assert_eq!(cycle(4, 1, 5), 0);
    assert_eq!(cycle(3, 15, 5), 3);
    assert_eq!(cycle(2, -15, 4), 3);
    assert_eq!(cycle(1, i32::MIN, 7), (1i64 + i32::MIN as i64).rem_euclid(7) as usize);
    assert_eq!(cycle(1, i32::MAX, 7), (1i64 + i32::MAX as i64).rem_euclid(7) as usize);
    let (a, b) = (cycle(2, 9, 5), 2);
    assert_eq!(cycle(a, -9, 5), b);
}

#[test]
fn panel_columns_and_markers() {
    assert_eq!(available_widths(100), (28, 24));
    assert_eq!(available_widths(40), (11, 11));
    assert_eq!(available_widths(3), (8, 8));
    assert_eq!(selected_widths(60), (25, 22));
    assert_eq!(selected_widths(30), (14, 11));
    assert_eq!(marker(true, true), "[x]");
    assert_eq!(marker(false, true), "[i]");
    assert_eq!(marker(false, false), "[ ]");
}

#[test]
fn normalized_names_are_plain_and_settled() {
    let names = [
        "  Google   Chrome\tx64  ",
        "Some-App (WIN32) Browser Edition",
        "xx6464 Tool",
        "win6x644 — Stable—Build",
        "Ünïcödé App 2.0",
        "",
    ];
    for name in names {
        let r = normalize_name(name);
        assert_eq!(r, r.trim());
        assert!(!r.contains("  "));
        assert!(r.chars().all(|c| c == ' ' || c.is_alphanumeric()));
        for word in ["x64", "x86", "win64", "win32", "stable", "browser"] {
            assert!(!r.contains(word), "{r:?} holds {word}");
        }
        assert_eq!(normalize_name(&r), r);
    }
    assert_eq!(normalize_name("xx6464 Tool"), "x 64 tool");
    assert_eq!(normalize_name("win6x644 Stable"), "win6 4");
}
