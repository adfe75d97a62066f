//! Installing a configuration: choosing a preset, and the screen that follows
//! the installation of its applications one after another.
//!
//! Reading the presets, running `winget` and drawing are the caller's; the
//! decisions and the state of both screens are here.
use vstd::prelude::*;
use crate::commands::create::cycle;
use crate::commands::create::cycled;
use crate::commands::keys::{Key, KeyInput};
use crate::display::shown_line;
use crate::display::strip_ansi_cr;
use crate::order::{key_views, sort_by_keys, sorted_by_keys, SortKey};
use crate::pattern::string_views;
use crate::services::winget::InstallResult;
use crate::text::{
    append_chars, chars_of, decimal, is_blank, lowercase, same_chars, string_of,
    to_lowercase, trim_chars, usize_digits, lemma_trim_empty,
};
use crate::types::{config_records, records, AppConfig, AppRecord, Config, ConfigRecord, InstalledApp};

verus! {

// ───────────────────────── what to do ─────────────────────────

/// The next thing an installation does.
#[derive(Debug)]
pub enum InstallAction {
    /// Install the configuration in this file.
    PerformInstallation(String),
    /// Let the user choose a preset.
    ChoosePreset,
    /// Nothing more to do.
    Finish,
}

/// Starts an installation: from the given configuration file, or, without one,
/// by letting the user choose a preset.
pub fn run(config_path: Option<String>) -> (res: InstallAction)
    ensures
        match config_path {
            Some(p) => res matches InstallAction::PerformInstallation(q) && q@ == p@,
            None => res is ChoosePreset,
        },
{
    match config_path {
        Some(path) => InstallAction::PerformInstallation(path),
        None => InstallAction::ChoosePreset,
    }
}

/// Goes on once the user chose a preset, or chose none.
pub fn after_choice(choice: Option<String>) -> (res: InstallAction)
    ensures
        match choice {
            Some(p) => res matches InstallAction::PerformInstallation(q) && q@ == p@,
            None => res is Finish,
        },
{
    match choice {
        Some(path) => InstallAction::PerformInstallation(path),
        None => InstallAction::Finish,
    }
}

// ───────────────────────── the preset selector ─────────────────────────

/// A preset as the selector lists it.
#[derive(Debug)]
pub struct PresetInfo {
    pub name: String,
    pub path: String,
    pub app_count: usize,
    pub all_installed: bool,
}

pub ghost struct PresetView {
    pub name: Seq<char>,
    pub path: Seq<char>,
    pub app_count: usize,
    pub all_installed: bool,
}

impl View for PresetInfo {
    type V = PresetView;

    open spec fn view(&self) -> PresetView {
        PresetView {
            name: self.name@,
            path: self.path@,
            app_count: self.app_count,
            all_installed: self.all_installed,
        }
    }
}

pub open spec fn preset_views(v: Seq<PresetInfo>) -> Seq<PresetView> {
    v.map_values(|p: PresetInfo| p@)
}

/// The ids of the installed applications, in lower case.
pub open spec fn installed_id_set(apps: Seq<AppRecord>) -> Seq<Seq<char>> {
    apps.map_values(|a: AppRecord| lowercase(a.id))
}

/// An entry needs nothing installed when it is not available in `winget` or
/// its id (in lower case) is installed.
pub open spec fn entry_satisfied(a: ConfigRecord, installed_ids: Seq<Seq<char>>) -> bool {
    !a.available_in_winget || installed_ids.contains(lowercase(a.id))
}

/// A preset whose every entry needs nothing installed.
pub open spec fn all_satisfied(apps: Seq<ConfigRecord>, installed_ids: Seq<Seq<char>>) -> bool {
    forall|i: int| 0 <= i < apps.len() ==> entry_satisfied(#[trigger] apps[i], installed_ids)
}

/// The ids of the installed applications, in lower case.
pub fn installed_ids(apps: &Vec<InstalledApp>) -> (res: Vec<String>)
    ensures
        string_views(res@) == installed_id_set(records(apps@)),
{
    let ghost want = installed_id_set(records(apps@));
    let mut out: Vec<String> = Vec::new();
    let mut k: usize = 0;
    while k < apps.len()
        invariant
            k <= apps@.len(),
            want == installed_id_set(records(apps@)),
            string_views(out@) == want.take(k as int),
        decreases apps@.len() - k,
    {
        let ghost before = string_views(out@);
        out.push(to_lowercase(apps[k].id.as_str()));
        assert(string_views(out@) =~= before.push(want[k as int]));
        assert(want.take(k + 1) =~= want.take(k as int).push(want[k as int]));
        k = k + 1;
    }
    assert(want.take(apps@.len() as int) =~= want);
    out
}

fn holds_id(ids: &Vec<String>, id: &Vec<char>) -> (res: bool)
    ensures
        res == string_views(ids@).contains(id@),
{
    let ghost sv = string_views(ids@);
    let mut k: usize = 0;
    while k < ids.len()
        invariant
            k <= ids@.len(),
            sv == string_views(ids@),
            forall|j: int| 0 <= j < k ==> sv[j] != id@,
        decreases ids@.len() - k,
    {
        let c = chars_of(ids[k].as_str());
        assert(sv[k as int] == ids@[k as int]@);
        if same_chars(&c, id) {
            assert(sv.contains(id@));
            return true;
        }
        k = k + 1;
    }
    false
}

/// What the selector shows of a preset: its name and file, how many entries it
/// has, and whether all of them are installed (or not available in `winget`).
pub fn preset_info(name: String, path: String, config: &Config, installed_ids: &Vec<String>) -> (res: PresetInfo)
    ensures
        res@ == (PresetView {
            name: name@,
            path: path@,
            app_count: config.apps@.len() as usize,
            all_installed: all_satisfied(config_records(config.apps@), string_views(installed_ids@)),
        }),
{
    let ghost apps = config_records(config.apps@);
    let ghost ids = string_views(installed_ids@);
    let mut all = true;
    let mut k: usize = 0;
    while k < config.apps.len()
        invariant
            k <= config.apps@.len(),
            apps == config_records(config.apps@),
            ids == string_views(installed_ids@),
            all == (forall|i: int| 0 <= i < k ==> entry_satisfied(#[trigger] apps[i], ids)),
        decreases config.apps@.len() - k,
    {
        let a = &config.apps[k];
        assert(apps[k as int] == a@);
        let ok = !a.available_in_winget || holds_id(
            installed_ids,
            &chars_of(to_lowercase(a.id.as_str()).as_str()),
        );
        if !ok {
            all = false;
        }
        proof {
            if all {
                assert forall|i: int| 0 <= i < k + 1 implies entry_satisfied(#[trigger] apps[i], ids) by {
                    if i == k {
                        assert(ok);
                    }
                }
            }
        }
        k = k + 1;
    }
    PresetInfo { name, path, app_count: config.apps.len(), all_installed: all }
}

/// The preset selector.
#[derive(Debug)]
pub struct SelectorApp {
    pub presets: Vec<PresetInfo>,
    pub cursor: usize,
    /// The row the list highlights.
    pub list_selected: Option<usize>,
    pub should_quit: bool,
    pub selected_path: Option<String>,
}

pub ghost struct SelectorView {
    pub presets: Seq<PresetView>,
    pub cursor: usize,
    pub list_selected: Option<usize>,
    pub should_quit: bool,
    pub selected_path: Option<Seq<char>>,
}

impl View for SelectorApp {
    type V = SelectorView;

    open spec fn view(&self) -> SelectorView {
        SelectorView {
            presets: preset_views(self.presets@),
            cursor: self.cursor,
            list_selected: self.list_selected,
            should_quit: self.should_quit,
            selected_path: match self.selected_path {
                Some(p) => Some(p@),
                None => None,
            },
        }
    }
}

/// The presets ordered by name.
pub open spec fn presets_by_name(presets: Seq<PresetView>) -> Seq<PresetView> {
    sorted_by_keys(presets.map_values(|p: PresetView| (p.name, Seq::<char>::empty())), presets)
}

/// The selector's cursor is on a preset.
pub open spec fn selector_wf(s: SelectorView) -> bool {
    s.cursor < s.presets.len()
}

/// The selector after a key: up and down (or `k` and `j`) move by one, Page Up
/// and Page Down by ten, around the list; Enter chooses the preset under the
/// cursor and quits; `q` and Esc quit.
pub open spec fn selector_step(s: SelectorView, key: KeyInput) -> SelectorView {
    if !key.press {
        s
    } else {
        match key.code {
            Key::Up => selector_moved(s, -1),
            Key::Down => selector_moved(s, 1),
            Key::PageUp => selector_moved(s, -10),
            Key::PageDown => selector_moved(s, 10),
            Key::Char(c) => if c == 'k' {
                selector_moved(s, -1)
            } else if c == 'j' {
                selector_moved(s, 1)
            } else if c == 'q' {
                SelectorView { should_quit: true, ..s }
            } else {
                s
            },
            Key::Enter => SelectorView {
                selected_path: Some(s.presets[s.cursor as int].path),
                should_quit: true,
                ..s
            },
            Key::Esc => SelectorView { should_quit: true, ..s },
            _ => s,
        }
    }
}

/// The selector with its cursor moved by `delta` around the list.
pub open spec fn selector_moved(s: SelectorView, delta: int) -> SelectorView {
    if s.presets.len() == 0 {
        s
    } else {
        let c = cycled(s.cursor, delta, s.presets.len());
        SelectorView { cursor: c, list_selected: Some(c), ..s }
    }
}

impl SelectorApp {
    pub open spec fn wf(&self) -> bool {
        selector_wf(self@)
    }

    /// The selector over the presets read from `dir`, ordered by name, the
    /// first one under the cursor; an error when there are none.
    pub fn new(presets: Vec<PresetInfo>, dir: &str) -> (res: Result<SelectorApp, String>)
        ensures
            match res {
                Ok(s) => presets@.len() > 0 && s@ == (SelectorView {
                    presets: presets_by_name(preset_views(presets@)),
                    cursor: 0,
                    list_selected: Some(0),
                    should_quit: false,
                    selected_path: None,
                }) && s.wf(),
                Err(e) => presets@.len() == 0 && e@ == "No presets found in "@ + dir@,
            },
    {
        if presets.len() == 0 {
            let mut msg = chars_of("No presets found in ");
            append_chars(&mut msg, &chars_of(dir));
            return Err(string_of(&msg));
        }
        let ghost views = preset_views(presets@);
        let mut keys: Vec<SortKey> = Vec::new();
        let mut k: usize = 0;
        while k < presets.len()
            invariant
                k <= presets@.len(),
                views == preset_views(presets@),
                key_views(keys@) == views.map_values(|p: PresetView| (p.name, Seq::<char>::empty())).take(
                    k as int,
                ),
            decreases presets@.len() - k,
        {
            let ghost before = key_views(keys@);
            keys.push(SortKey { first: chars_of(presets[k].name.as_str()), second: Vec::new() });
            assert(key_views(keys@) =~= before.push((views[k as int].name, Seq::<char>::empty())));
            assert(views.map_values(|p: PresetView| (p.name, Seq::<char>::empty())).take(k + 1)
                =~= views.map_values(|p: PresetView| (p.name, Seq::<char>::empty())).take(k as int).push(
                (views[k as int].name, Seq::<char>::empty()),
            ));
            k = k + 1;
        }
        let ghost ks = views.map_values(|p: PresetView| (p.name, Seq::<char>::empty()));
        assert(ks.take(presets@.len() as int) =~= ks);
        let ghost items = presets@;
        let sorted = sort_by_keys(presets, keys);
        proof {
            crate::order::lemma_sorted_by_keys_map(ks, items, |p: PresetInfo| p@);
            crate::order::lemma_sorted_by_keys_len(ks, items);
        }
        Ok(SelectorApp {
            presets: sorted,
            cursor: 0,
            list_selected: Some(0),
            should_quit: false,
            selected_path: None,
        })
    }

    /// Moves the cursor by `delta` presets, around the list.
    pub fn move_cursor(&mut self, delta: i32)
        ensures
            final(self)@ == selector_moved(old(self)@, delta as int),
    {
        let len = self.presets.len();
        if len == 0 {
            return;
        }
        self.cursor = cycle(self.cursor, delta, len);
        self.list_selected = Some(self.cursor);
    }

    /// Takes a key (see `selector_step`).
    pub fn handle_key(&mut self, key: KeyInput)
        requires
            old(self).wf(),
        ensures
            final(self)@ == selector_step(old(self)@, key),
            final(self).wf(),
    {
        if !key.press {
            return;
        }
        match key.code {
            Key::Up => self.move_cursor(-1),
            Key::Down => self.move_cursor(1),
            Key::PageUp => self.move_cursor(-10),
            Key::PageDown => self.move_cursor(10),
            Key::Char(c) => {
                if c == 'k' {
                    self.move_cursor(-1);
                } else if c == 'j' {
                    self.move_cursor(1);
                } else if c == 'q' {
                    self.should_quit = true;
                }
            },
            Key::Enter => {
                self.selected_path = Some(self.presets[self.cursor].path.clone());
                self.should_quit = true;
            },
            Key::Esc => {
                self.should_quit = true;
            },
            _ => {},
        }
    }
}

/// A key that went down.
pub open spec fn pressed(code: Key, ctrl: bool) -> KeyInput {
    KeyInput { code: code, ctrl: ctrl, press: true }
}

/// In the preset selector Down, like `j`, moves the cursor to the next preset,
/// and from the last one back to the first; Up, like `k`, moves it to the
/// previous one, and from the first to the last. So Up undoes Down, Down undoes
/// Up, and Enter after Down chooses the preset after the one that was under the
/// cursor. Page Down and Page Up move ten presets around the list; Enter
/// chooses the preset under the cursor and quits; Esc and `q` quit. The presets
/// themselves stay as they are. (The presets of a selector
/// are held in a `Vec`, so there are at most `usize::MAX` of them.)
pub proof fn lemma_selector_up_down(s: SelectorView, ctrl: bool)
    requires
        selector_wf(s),
        s.presets.len() <= usize::MAX,
    ensures
        ({
            let n = s.presets.len();
            let next: int = if s.cursor + 1 < n { s.cursor + 1 } else { 0 };
            let prev: int = if s.cursor > 0 { s.cursor - 1 } else { n - 1 };
            let down = selector_step(s, pressed(Key::Down, ctrl));
            let up = selector_step(s, pressed(Key::Up, ctrl));
            &&& down.cursor == next && down.presets == s.presets && selector_wf(down)
            &&& up.cursor == prev && up.presets == s.presets && selector_wf(up)
            &&& selector_step(s, pressed(Key::Char('j'), ctrl)) == down
            &&& selector_step(s, pressed(Key::Char('k'), ctrl)) == up
            &&& selector_step(down, pressed(Key::Up, ctrl)).cursor == s.cursor
            &&& selector_step(up, pressed(Key::Down, ctrl)).cursor == s.cursor
            &&& selector_step(down, pressed(Key::Enter, ctrl)).selected_path == Some(s.presets[next].path)
            &&& selector_step(s, pressed(Key::PageDown, ctrl)).cursor == (s.cursor + 10) % (n as int)
            &&& selector_step(s, pressed(Key::PageUp, ctrl)).cursor == (s.cursor - 10) % (n as int)
            &&& selector_step(s, pressed(Key::Enter, ctrl)).selected_path == Some(s.presets[s.cursor as int].path)
            &&& selector_step(s, pressed(Key::Enter, ctrl)).should_quit
            &&& selector_step(s, pressed(Key::Esc, ctrl)).should_quit
            &&& selector_step(s, pressed(Key::Esc, ctrl)).selected_path == s.selected_path
            &&& selector_step(s, pressed(Key::Char('q'), ctrl)).should_quit
        }),
{
    let n = s.presets.len() as int;
    let c = s.cursor as int;
    assert(forall|x: int| 0 <= x < n ==> #[trigger] (x % n) == x) by {
        assert forall|x: int| 0 <= x < n implies #[trigger] (x % n) == x by {
            vstd::arithmetic::div_mod::lemma_small_mod(x as nat, n as nat);
        }
    }
    assert(n % n == 0) by {
        vstd::arithmetic::div_mod::lemma_mod_self_0(n);
    }
    assert((-1int) % n == n - 1) by {
        vstd::arithmetic::div_mod::lemma_mod_add_multiples_vanish(-1, n);
        assert((n - 1) % n == n - 1);
    }
    assert((c + 1) % n == if c + 1 < n { c + 1 } else { 0 });
    assert((c - 1) % n == if c > 0 { c - 1 } else { n - 1 });
    let down = selector_step(s, pressed(Key::Down, ctrl));
    let up = selector_step(s, pressed(Key::Up, ctrl));
    let dc = down.cursor as int;
    let uc = up.cursor as int;
    assert((dc - 1) % n == if dc > 0 { dc - 1 } else { n - 1 });
    assert((uc + 1) % n == if uc + 1 < n { uc + 1 } else { 0 });
    assert(0 <= (c + 10) % n < n) by {
        vstd::arithmetic::div_mod::lemma_mod_bound(c + 10, n);
    }
    assert(0 <= (c - 10) % n < n) by {
        vstd::arithmetic::div_mod::lemma_mod_bound(c - 10, n);
    }
}

// ───────────────────────── the installation ─────────────────────────

/// What the installing worker reports.
#[derive(Debug)]
pub enum InstallMsg {
    AppStart { idx: usize, name: String, id: String },
    AppLine(String),
    AppDone { name: String, status: String, message: String },
    Done,
}

/// The message that an application's turn began.
pub fn start_message(idx: usize, app: &AppConfig) -> (res: InstallMsg)
    ensures
        res matches InstallMsg::AppStart { idx: i, name, id } && i == idx && name@ == app.name@
            && id@ == app.id@,
{
    InstallMsg::AppStart { idx, name: app.name.clone(), id: app.id.clone() }
}

/// An application not available in `winget` is skipped, with its note (or
/// nothing) as the message; the others must be installed.
pub fn skip_message(app: &AppConfig) -> (res: Option<InstallMsg>)
    ensures
        app.available_in_winget ==> res is None,
        !app.available_in_winget ==> (res matches Some(InstallMsg::AppDone { name, status, message })
            && name@ == app.name@ && status@ == "SKIP"@ && message@ == match app.note {
            Some(n) => n@,
            None => Seq::<char>::empty(),
        }),
{
    if app.available_in_winget {
        None
    } else {
        let message = match &app.note {
            Some(n) => n.clone(),
            None => String::new(),
        };
        Some(InstallMsg::AppDone { name: app.name.clone(), status: String::from_str("SKIP"), message })
    }
}

/// The message that an application was installed (`OK`) or not (`FAIL`).
pub fn done_message(app: &AppConfig, result: InstallResult) -> (res: InstallMsg)
    ensures
        res matches InstallMsg::AppDone { name, status, message } && name@ == app.name@ && status@ == (
        if result.success {
            "OK"@
        } else {
            "FAIL"@
        }) && message@ == result.message@,
{
    let status = if result.success {
        String::from_str("OK")
    } else {
        String::from_str("FAIL")
    };
    InstallMsg::AppDone { name: app.name.clone(), status, message: result.message }
}

/// The installation screen.
#[derive(Debug)]
pub struct InstallerApp {
    pub total: usize,
    pub current_idx: usize,
    pub current_name: String,
    pub current_id: String,
    pub log_lines: Vec<String>,
    pub results: Vec<(String, String, String)>,
    pub done: bool,
}

#[verifier::ext_equal]
pub ghost struct InstallerView {
    pub total: usize,
    pub current_idx: usize,
    pub current_name: Seq<char>,
    pub current_id: Seq<char>,
    pub log_lines: Seq<Seq<char>>,
    pub results: Seq<(Seq<char>, Seq<char>, Seq<char>)>,
    pub done: bool,
}

pub open spec fn result_views(v: Seq<(String, String, String)>) -> Seq<(Seq<char>, Seq<char>, Seq<char>)> {
    v.map_values(|r: (String, String, String)| (r.0@, r.1@, r.2@))
}

impl View for InstallerApp {
    type V = InstallerView;

    open spec fn view(&self) -> InstallerView {
        InstallerView {
            total: self.total,
            current_idx: self.current_idx,
            current_name: self.current_name@,
            current_id: self.current_id@,
            log_lines: string_views(self.log_lines@),
            results: result_views(self.results@),
            done: self.done,
        }
    }
}

/// The screen after one message: a new application clears the log; a line is
/// logged as it shows, unless it shows only whitespace; a result is added; the
/// end is noted.
pub open spec fn installer_applied(s: InstallerView, m: InstallMsg) -> InstallerView {
    match m {
        InstallMsg::AppStart { idx, name, id } => InstallerView {
            current_idx: idx,
            current_name: name@,
            current_id: id@,
            log_lines: Seq::empty(),
            ..s
        },
        InstallMsg::AppLine(line) => if is_blank(shown_line(line@)) {
            s
        } else {
            InstallerView { log_lines: s.log_lines.push(shown_line(line@)), ..s }
        },
        InstallMsg::AppDone { name, status, message } => InstallerView {
            results: s.results.push((name@, status@, message@)),
            ..s
        },
        InstallMsg::Done => InstallerView { done: true, ..s },
    }
}

/// The screen after the messages, in order.
pub open spec fn installer_applied_all(s: InstallerView, msgs: Seq<InstallMsg>) -> InstallerView
    decreases msgs.len(),
{
    if msgs.len() == 0 {
        s
    } else {
        installer_applied(installer_applied_all(s, msgs.drop_last()), msgs.last())
    }
}

/// How many results have the status `status`.
pub open spec fn count_results(results: Seq<(Seq<char>, Seq<char>, Seq<char>)>, status: Seq<char>) -> nat {
    results.filter(|r: (Seq<char>, Seq<char>, Seq<char>)| r.1 == status).len()
}

/// The title of the screen.
pub open spec fn installer_title(done: bool) -> Seq<char> {
    if done {
        "Installation Complete"@
    } else {
        "Installing Applications"@
    }
}

/// What the screen says of the current application.
pub open spec fn current_text(s: InstallerView) -> Seq<char> {
    if s.done {
        "All done"@
    } else if s.current_name.len() == 0 {
        "Starting..."@
    } else {
        s.current_name + " ("@ + s.current_id + ")"@
    }
}

/// The line at the bottom: the counts once done, else which application is
/// being installed.
pub open spec fn bottom_text(s: InstallerView) -> Seq<char> {
    if s.done {
        "  OK: "@ + decimal(count_results(s.results, "OK"@) as int) + "  Skipped: "@ + decimal(
            count_results(s.results, "SKIP"@) as int,
        ) + "  Failed: "@ + decimal(count_results(s.results, "FAIL"@) as int)
            + "    [Press any key to exit]"@
    } else {
        "  Installing "@ + decimal(s.current_idx + 1) + " of "@ + decimal(s.total as int)
            + "\u{2026}  please wait"@
    }
}

/// The results so far out of all applications.
pub open spec fn progress_label(s: InstallerView) -> Seq<char> {
    decimal(s.results.len() as int) + "/"@ + decimal(s.total as int)
}

/// The mark of a result.
pub open spec fn result_mark(status: Seq<char>) -> Seq<char> {
    if status == "OK"@ {
        "\u{2713}"@
    } else if status == "SKIP"@ {
        "\u{2500}"@
    } else {
        "\u{2717}"@
    }
}

/// The name and message columns of the results in a list `width` columns wide:
/// half for the name (at most 35), the rest but twelve for the message.
pub open spec fn result_widths_of(width: nat) -> (nat, nat) {
    let name = if width / 2 > 35 { 35 } else { width / 2 };
    (name, if width > name + 12 { (width - (name + 12)) as nat } else { 0 })
}

/// The first of the log lines that fit in `height` rows: the last ones are shown.
pub open spec fn first_shown(len: nat, height: nat) -> nat {
    if len > height {
        (len - height) as nat
    } else {
        0
    }
}

fn is_named(s: &String, name: &str) -> (res: bool)
    ensures
        res == (s@ == name@),
{
    let a = chars_of(s.as_str());
    let b = chars_of(name);
    same_chars(&a, &b)
}

impl InstallerApp {
    /// The screen before anything happened, for `total` applications.
    pub fn new(total: usize) -> (res: InstallerApp)
        ensures
            res@ == (InstallerView {
                total,
                current_idx: 0,
                current_name: Seq::empty(),
                current_id: Seq::empty(),
                log_lines: Seq::empty(),
                results: Seq::empty(),
                done: false,
            }),
    {
        let res = InstallerApp {
            total,
            current_idx: 0,
            current_name: String::new(),
            current_id: String::new(),
            log_lines: Vec::new(),
            results: Vec::new(),
            done: false,
        };
        assert(res@ =~= InstallerView {
            total,
            current_idx: 0,
            current_name: Seq::empty(),
            current_id: Seq::empty(),
            log_lines: Seq::empty(),
            results: Seq::empty(),
            done: false,
        });
        res
    }

    fn apply(&mut self, msg: InstallMsg)
        ensures
            final(self)@ == installer_applied(old(self)@, msg),
    {
        let ghost s = self@;
        match msg {
            InstallMsg::AppStart { idx, name, id } => {
                self.current_idx = idx;
                self.current_name = name;
                self.current_id = id;
                self.log_lines = Vec::new();
            },
            InstallMsg::AppLine(line) => {
                let clean = strip_ansi_cr(line.as_str());
                let cc = chars_of(clean.as_str());
                let t = trim_chars(&cc);
                proof {
                    lemma_trim_empty(cc@);
                }
                if t.len() > 0 {
                    let ghost l0 = string_views(self.log_lines@);
                    self.log_lines.push(clean);
                    assert(string_views(self.log_lines@) =~= l0.push(shown_line(line@)));
                }
            },
            InstallMsg::AppDone { name, status, message } => {
                let ghost r0 = result_views(self.results@);
                self.results.push((name, status, message));
                assert(result_views(self.results@) =~= r0.push((name@, status@, message@)));
            },
            InstallMsg::Done => {
                self.done = true;
            },
        }
        assert(self@ =~= installer_applied(s, msg));
    }

    /// Takes the messages that arrived from the worker, in order.
    pub fn poll(&mut self, msgs: Vec<InstallMsg>)
        ensures
            final(self)@ == installer_applied_all(old(self)@, msgs@),
    {
        let ghost all = msgs@;
        let ghost s0 = self@;
        let mut rest = msgs;
        let total = rest.len();
        let mut k: usize = 0;
        assert(all.skip(0) =~= all);
        while rest.len() > 0
            invariant
                k + rest@.len() == all.len(),
                all.len() == total,
                rest@ == all.skip(k as int),
                self@ == installer_applied_all(s0, all.take(k as int)),
            decreases rest@.len(),
        {
            let m = rest.remove(0);
            proof {
                assert(all.skip(k as int)[0] == all[k as int]);
                assert(all.take(k + 1).drop_last() =~= all.take(k as int));
                assert(rest@ =~= all.skip(k + 1));
            }
            self.apply(m);
            k = k + 1;
        }
        assert(all.take(all.len() as int) =~= all);
    }

    /// How many results have the status `status`.
    pub fn count_results(&self, status: &str) -> (res: usize)
        ensures
            res == count_results(self@.results, status@),
    {
        let ghost all = self@.results;
        let ghost pred = |r: (Seq<char>, Seq<char>, Seq<char>)| r.1 == status@;
        let mut n: usize = 0;
        let mut k: usize = 0;
        while k < self.results.len()
            invariant
                k <= self.results@.len(),
                all == self@.results,
                pred == (|r: (Seq<char>, Seq<char>, Seq<char>)| r.1 == status@),
                n == all.take(k as int).filter(pred).len(),
                n <= k,
            decreases self.results@.len() - k,
        {
            reveal_with_fuel(Seq::<_>::filter, 1);
            assert(all.take(k + 1).drop_last() =~= all.take(k as int));
            assert(all[k as int].1 == self.results@[k as int].1@);
            if is_named(&self.results[k].1, status) {
                n = n + 1;
            }
            k = k + 1;
        }
        assert(all.take(self.results@.len() as int) =~= all);
        n
    }

    pub fn current_text(&self) -> (res: String)
        ensures
            res@ == current_text(self@),
    {
        if self.done {
            String::from_str("All done")
        } else if self.current_name.as_str().is_empty() {
            String::from_str("Starting...")
        } else {
            let mut out = chars_of(self.current_name.as_str());
            append_chars(&mut out, &chars_of(" ("));
            append_chars(&mut out, &chars_of(self.current_id.as_str()));
            append_chars(&mut out, &chars_of(")"));
            string_of(&out)
        }
    }

    pub fn bottom_text(&self) -> (res: String)
        ensures
            res@ == bottom_text(self@),
    {
        if self.done {
            let mut out = chars_of("  OK: ");
            append_chars(&mut out, &usize_digits(self.count_results("OK")));
            append_chars(&mut out, &chars_of("  Skipped: "));
            append_chars(&mut out, &usize_digits(self.count_results("SKIP")));
            append_chars(&mut out, &chars_of("  Failed: "));
            append_chars(&mut out, &usize_digits(self.count_results("FAIL")));
            append_chars(&mut out, &chars_of("    [Press any key to exit]"));
            string_of(&out)
        } else {
            let mut out = chars_of("  Installing ");
            append_chars(&mut out, &crate::text::digits_u128(self.current_idx as u128 + 1));
            append_chars(&mut out, &chars_of(" of "));
            append_chars(&mut out, &usize_digits(self.total));
            append_chars(&mut out, &chars_of("\u{2026}  please wait"));
            string_of(&out)
        }
    }

    pub fn progress_label(&self) -> (res: String)
        ensures
            res@ == progress_label(self@),
    {
        let mut out = usize_digits(self.results.len());
        append_chars(&mut out, &chars_of("/"));
        append_chars(&mut out, &usize_digits(self.total));
        string_of(&out)
    }
}

/// See `installer_title`.
pub fn installer_title_text(done: bool) -> (res: &'static str)
    ensures
        res@ == installer_title(done),
{
    if done {
        "Installation Complete"
    } else {
        "Installing Applications"
    }
}

/// See `result_mark`.
pub fn result_mark_text(status: &String) -> (res: &'static str)
    ensures
        res@ == result_mark(status@),
{
    if is_named(status, "OK") {
        "\u{2713}"
    } else if is_named(status, "SKIP") {
        "\u{2500}"
    } else {
        "\u{2717}"
    }
}

/// See `result_widths_of`.
pub fn result_widths(width: usize) -> (res: (usize, usize))
    ensures
        res.0 == result_widths_of(width as nat).0,
        res.1 == result_widths_of(width as nat).1,
{
    let name: usize = if width / 2 > 35 { 35 } else { width / 2 };
    let msg: usize = if width > name + 12 { width - (name + 12) } else { 0 };
    (name, msg)
}

/// See `first_shown`.
pub fn first_shown_line(len: usize, height: usize) -> (res: usize)
    ensures
        res == first_shown(len as nat, height as nat),
{
    if len > height {
        len - height
    } else {
        0
    }
}

/// The selector lists the presets ordered by name, each preset once.
pub proof fn lemma_presets_by_name_sorted(presets: Seq<PresetView>)
    ensures
        forall|i: int, j: int|
            0 <= i < j < presets_by_name(presets).len() ==> !crate::text::lex_lt(
                (#[trigger] presets_by_name(presets)[j]).name,
                (#[trigger] presets_by_name(presets)[i]).name,
            ),
        presets_by_name(presets).to_multiset() == presets.to_multiset(),
{
    let key = |p: PresetView| (p.name, Seq::<char>::empty());
    assert(presets.map_values(|p: PresetView| (p.name, Seq::<char>::empty())) =~= presets.map_values(key));
    crate::order::lemma_sorted_by_keys_ordered(presets, key);
    crate::order::lemma_sorted_by_keys_permutes(presets.map_values(key), presets);
    let out = presets_by_name(presets);
    assert forall|i: int, j: int| 0 <= i < j < out.len() implies !crate::text::lex_lt(
        (#[trigger] out[j]).name,
        (#[trigger] out[i]).name,
    ) by {
        assert(!crate::order::key_lt(key(out[j]), key(out[i])));
    }
}

/// The messages that report a result.
pub open spec fn result_messages(msgs: Seq<InstallMsg>) -> nat {
    msgs.filter(|m: InstallMsg| m is AppDone).len()
}

/// The screen shows one result per reported result, in the order they came,
/// after the ones it showed before.
pub proof fn lemma_one_result_per_report(s: InstallerView, msgs: Seq<InstallMsg>)
    ensures
        installer_applied_all(s, msgs).results.len() == s.results.len() + result_messages(msgs),
        installer_applied_all(s, msgs).results.take(s.results.len() as int) == s.results,
        installer_applied_all(s, msgs).total == s.total,
    decreases msgs.len(),
{
    reveal_with_fuel(Seq::<_>::filter, 1);
    if msgs.len() > 0 {
        lemma_one_result_per_report(s, msgs.drop_last());
        let t = installer_applied_all(s, msgs.drop_last());
        if msgs.last() is AppDone {
            assert(installer_applied_all(s, msgs).results.take(s.results.len() as int) =~= t.results.take(
                s.results.len() as int,
            ));
        }
    }
}

/// How the selector marks a preset: `✓ Installed` when all of it is, else `○ Pending`.
pub open spec fn preset_status_text(all_installed: bool) -> (Seq<char>, Seq<char>) {
    if all_installed {
        ("\u{2713}"@, "Installed"@)
    } else {
        ("\u{25cb}"@, "Pending"@)
    }
}

/// See `preset_status_text`.
pub fn preset_status(all_installed: bool) -> (res: (&'static str, &'static str))
    ensures
        (res.0@, res.1@) == preset_status_text(all_installed),
{
    if all_installed {
        ("\u{2713}", "Installed")
    } else {
        ("\u{25cb}", "Pending")
    }
}

/// The count column of the selector: ` <n> apps  `, the number right-aligned
/// in three characters.
pub open spec fn app_count_column(n: nat) -> Seq<char> {
    let d = decimal(n as int);
    " "@ + Seq::new(if d.len() < 3 { (3 - d.len()) as nat } else { 0 }, |i: int| ' ') + d + " apps  "@
}

/// See `app_count_column`.
pub fn app_count_text(n: usize) -> (res: String)
    ensures
        res@ == app_count_column(n as nat),
{
    let d = usize_digits(n);
    let mut out = chars_of(" ");
    let ghost before = out@;
    let pad: usize = if d.len() < 3 { 3 - d.len() } else { 0 };
    let mut k: usize = 0;
    while k < pad
        invariant
            k <= pad,
            out@ == before + Seq::new(k as nat, |i: int| ' '),
        decreases pad - k,
    {
        out.push(' ');
        assert(before + Seq::new((k + 1) as nat, |i: int| ' ') =~= (before + Seq::new(
            k as nat,
            |i: int| ' ',
        )).push(' '));
        k = k + 1;
    }
    append_chars(&mut out, &d);
    append_chars(&mut out, &chars_of(" apps  "));
    string_of(&out)
}

} // verus!
