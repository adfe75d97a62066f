//! The preset builder: a two-panel screen to pick applications from the
//! `winget` catalog, save them as a preset, or install and uninstall them.
//!
//! The screen's state and every decision it takes on a key, a message from a
//! worker or a tick of the clock live here; drawing, the clock, the workers and
//! the files are the caller's.
use vstd::prelude::*;
use vstd::utf8::encode_utf8;
use crate::commands::keys::{Key, KeyInput};
use crate::commands::matching::{
    build_installed_index, entry_views, find_installed_fields, id_entries, installed_match,
    name_entries, InstalledMatch,
};
use crate::commands::progress::{fresh_board, BoardView, ProgressBoard, ProgressMsg, applied_all, scrolled};
use crate::pattern::string_views;
use crate::services::winget::{matches_any, WingetService};
use crate::text::{
    alphanumeric, append_chars, chars_of, contains_chars, decimal, digits_u64, has_sub,
    is_alphanumeric, lowercase, same_chars, string_of, to_lowercase, trim, trim_chars, trim_str,
    utf8_len_at_least, usize_digits,
};
use crate::types::{
    clone_apps, clone_configs, config_records, records, AppConfig, AppRecord, ConfigRecord,
    InstalledApp,
};

pub use crate::display::{fit_cell, strip_ansi_cr, truncate};

verus! {

/// How far Page Up and Page Down move the cursor.
pub const PAGE_SIZE: usize = 15;

/// The panel that has the focus.
#[derive(Clone, Copy, Debug, PartialEq, Eq, Structural)]
pub enum Panel {
    Available,
    Selected,
}

/// The colour of the status line.
#[derive(Clone, Copy, Debug, PartialEq, Eq, Structural)]
pub enum StatusColor {
    Red,
    Yellow,
    Green,
}

/// A run waiting for confirmation.
#[derive(Debug)]
pub enum PendingAction {
    Install(Vec<AppConfig>),
    Uninstall(Vec<AppConfig>),
}

/// What the screen is doing.
#[derive(Debug)]
pub enum Mode {
    Normal,
    FilenameInput { input: String },
    Confirm { message: String, action: PendingAction },
    Progress { board: ProgressBoard },
}

pub ghost enum ActionView {
    Install(Seq<ConfigRecord>),
    Uninstall(Seq<ConfigRecord>),
}

pub ghost enum ModeView {
    Normal,
    FilenameInput(Seq<char>),
    Confirm(Seq<char>, ActionView),
    Progress(BoardView),
}

impl View for PendingAction {
    type V = ActionView;

    open spec fn view(&self) -> ActionView {
        match self {
            PendingAction::Install(v) => ActionView::Install(config_records(v@)),
            PendingAction::Uninstall(v) => ActionView::Uninstall(config_records(v@)),
        }
    }
}

impl View for Mode {
    type V = ModeView;

    open spec fn view(&self) -> ModeView {
        match self {
            Mode::Normal => ModeView::Normal,
            Mode::FilenameInput { input } => ModeView::FilenameInput(input@),
            Mode::Confirm { message, action } => ModeView::Confirm(message@, action@),
            Mode::Progress { board } => ModeView::Progress(board@),
        }
    }
}

/// The state of the preset builder.
///
/// `list_avail` and `list_sel` are the rows the two lists highlight; the clock
/// behind the debounce of catalog searches and behind the status line is the
/// caller's, who reports elapsed time.
#[derive(Debug)]
pub struct CreateApp {
    pub mode: Mode,
    pub panel: Panel,
    pub cursor_avail: usize,
    pub cursor_sel: usize,
    pub list_avail: Option<usize>,
    pub list_sel: Option<usize>,
    pub filter_text: String,
    pub show_installed_only: bool,
    pub all_apps: Vec<InstalledApp>,
    pub installed_apps: Vec<InstalledApp>,
    pub filtered: Vec<InstalledApp>,
    pub selected: Vec<AppConfig>,
    /// Installed applications by id in lower case; a later entry replaces an earlier one.
    pub installed_map: Vec<(String, InstalledMatch)>,
    /// Installed applications by normalized name, in list order; looked up both
    /// exactly (a later entry replacing an earlier one) and loosely (the first fits).
    pub installed_entries: Vec<(String, InstalledMatch)>,
    /// The queries already searched in the catalog.
    pub search_cache: Vec<String>,
    pub is_searching: bool,
    /// The filter changed since the last search was considered.
    pub filter_pending: bool,
    pub status_msg: Option<(String, StatusColor)>,
    /// Counts the times a status was set (wrapping), so that the caller can
    /// restart the status clock even when the same message is set again.
    pub status_serial: u64,
    pub should_quit: bool,
}

#[verifier::ext_equal]
pub ghost struct CreateView {
    pub mode: ModeView,
    pub panel: Panel,
    pub cursor_avail: usize,
    pub cursor_sel: usize,
    pub list_avail: Option<usize>,
    pub list_sel: Option<usize>,
    pub filter_text: Seq<char>,
    pub show_installed_only: bool,
    pub all_apps: Seq<AppRecord>,
    pub installed_apps: Seq<AppRecord>,
    pub filtered: Seq<AppRecord>,
    pub selected: Seq<ConfigRecord>,
    pub installed_map: Seq<(Seq<char>, (Seq<char>, Seq<char>))>,
    pub installed_entries: Seq<(Seq<char>, (Seq<char>, Seq<char>))>,
    pub search_cache: Seq<Seq<char>>,
    pub is_searching: bool,
    pub filter_pending: bool,
    pub status_msg: Option<(Seq<char>, StatusColor)>,
    pub status_serial: u64,
    pub should_quit: bool,
}

pub open spec fn status_view(s: Option<(String, StatusColor)>) -> Option<(Seq<char>, StatusColor)> {
    match s {
        Some((m, c)) => Some((m@, c)),
        None => None,
    }
}

impl View for CreateApp {
    type V = CreateView;

    open spec fn view(&self) -> CreateView {
        CreateView {
            mode: self.mode@,
            panel: self.panel,
            cursor_avail: self.cursor_avail,
            cursor_sel: self.cursor_sel,
            list_avail: self.list_avail,
            list_sel: self.list_sel,
            filter_text: self.filter_text@,
            show_installed_only: self.show_installed_only,
            all_apps: records(self.all_apps@),
            installed_apps: records(self.installed_apps@),
            filtered: records(self.filtered@),
            selected: config_records(self.selected@),
            installed_map: entry_views(self.installed_map@),
            installed_entries: entry_views(self.installed_entries@),
            search_cache: string_views(self.search_cache@),
            is_searching: self.is_searching,
            filter_pending: self.filter_pending,
            status_msg: status_view(self.status_msg),
            status_serial: self.status_serial,
            should_quit: self.should_quit,
        }
    }
}

// ───────────────────────── the model ─────────────────────────

/// No two selected entries have the same id.
pub open spec fn ids_distinct(sel: Seq<ConfigRecord>) -> bool {
    forall|i: int, j: int| 0 <= i < j < sel.len() ==> (#[trigger] sel[i]).id != (#[trigger] sel[j]).id
}

/// The selection cursor stays on a selected entry, and no application is
/// selected twice.
pub open spec fn view_wf(m: CreateView) -> bool {
    &&& m.selected.len() > 0 ==> m.cursor_sel < m.selected.len()
    &&& ids_distinct(m.selected)
}

/// The filter as the lists apply it: trimmed, in lower case.
pub open spec fn filter_query(m: CreateView) -> Seq<char> {
    lowercase(trim(m.filter_text))
}

/// The list the filter applies to.
pub open spec fn filter_source(m: CreateView) -> Seq<AppRecord> {
    if m.show_installed_only {
        m.installed_apps
    } else {
        m.all_apps
    }
}

/// An application passes the filter when its name or id, in lower case, holds it.
pub open spec fn matches_filter(a: AppRecord, q: Seq<char>) -> bool {
    has_sub(lowercase(a.name), q) || has_sub(lowercase(a.id), q)
}

/// The applications that pass the filter `q` (all of them for an empty filter).
pub open spec fn filter_result(source: Seq<AppRecord>, q: Seq<char>) -> Seq<AppRecord> {
    if q.len() == 0 {
        source
    } else {
        source.filter(|a: AppRecord| matches_filter(a, q))
    }
}

/// A cursor kept inside a list of `len` rows (0 for an empty list).
pub open spec fn clamped(c: usize, len: nat) -> usize {
    if len == 0 {
        0
    } else if c < len {
        c
    } else {
        (len - 1) as usize
    }
}

/// The state after the filter was applied again.
pub open spec fn with_local_filter(m: CreateView) -> CreateView {
    let f = filter_result(filter_source(m), filter_query(m));
    CreateView { filtered: f, cursor_avail: clamped(m.cursor_avail, f.len()), ..m }
}

/// The state after the lists were told which rows to highlight.
pub open spec fn synced(m: CreateView) -> CreateView {
    CreateView {
        list_avail: if m.filtered.len() == 0 { None } else { Some(m.cursor_avail) },
        list_sel: if m.selected.len() == 0 { None } else { Some(m.cursor_sel) },
        ..m
    }
}

pub open spec fn refiltered(m: CreateView) -> CreateView {
    synced(with_local_filter(m))
}

/// The serial after `n`, wrapping around.
pub open spec fn next_serial(n: u64) -> u64 {
    if n == u64::MAX {
        0
    } else {
        (n + 1) as u64
    }
}

pub open spec fn with_status(m: CreateView, msg: Seq<char>, c: StatusColor) -> CreateView {
    CreateView { status_msg: Some((msg, c)), status_serial: next_serial(m.status_serial), ..m }
}

/// The state after the installed applications were replaced by `apps`.
pub open spec fn with_installed(m: CreateView, apps: Seq<AppRecord>) -> CreateView {
    CreateView {
        installed_apps: apps,
        installed_map: id_entries(apps),
        installed_entries: name_entries(apps),
        ..m
    }
}

/// The first position of a selected entry with the id `id` (the length when none has it).
pub open spec fn index_of_id(sel: Seq<ConfigRecord>, id: Seq<char>) -> int
    decreases sel.len(),
{
    if sel.len() == 0 {
        0
    } else if sel[0].id == id {
        0
    } else {
        1 + index_of_id(sel.drop_first(), id)
    }
}

/// The entry that selecting `a` adds: its id, name and version, available.
pub open spec fn config_for(a: AppRecord) -> ConfigRecord {
    ConfigRecord {
        id: a.id,
        name: a.name,
        version: a.version,
        available_in_winget: true,
        note: None,
    }
}

/// The state after `a` was selected, or unselected when an entry had its id.
pub open spec fn toggled(m: CreateView, a: AppRecord) -> CreateView {
    let i = index_of_id(m.selected, a.id);
    if i < m.selected.len() {
        let s = m.selected.remove(i);
        CreateView { selected: s, cursor_sel: clamped(m.cursor_sel, s.len()), ..m }
    } else {
        let s = m.selected.push(config_for(a));
        CreateView { selected: s, cursor_sel: (s.len() - 1) as usize, ..m }
    }
}

/// A cursor moved by `delta` rows around a list of `len` rows.
pub open spec fn cycled(c: usize, delta: int, len: nat) -> usize {
    ((c + delta) % (len as int)) as usize
}

/// The state after the cursor of the focused panel moved by `delta` rows.
pub open spec fn moved(m: CreateView, delta: int) -> CreateView {
    synced(
        match m.panel {
            Panel::Available => if m.filtered.len() > 0 {
                CreateView { cursor_avail: cycled(m.cursor_avail, delta, m.filtered.len()), ..m }
            } else {
                m
            },
            Panel::Selected => if m.selected.len() > 0 {
                CreateView { cursor_sel: cycled(m.cursor_sel, delta, m.selected.len()), ..m }
            } else {
                m
            },
        },
    )
}

/// The names of entries joined by `, `.
pub open spec fn joined_names(sel: Seq<ConfigRecord>) -> Seq<char>
    decreases sel.len(),
{
    if sel.len() == 0 {
        Seq::empty()
    } else if sel.len() == 1 {
        sel[0].name
    } else {
        joined_names(sel.drop_last()) + ", "@ + sel.last().name
    }
}

/// `<verb> <n> app(s)? (<names>)`.
pub open spec fn confirm_message(verb: Seq<char>, sel: Seq<ConfigRecord>) -> Seq<char> {
    verb + " "@ + decimal(sel.len() as int) + " app(s)? ("@ + joined_names(sel) + ")"@
}

/// An application with only the id and name of an entry.
pub open spec fn probe_of(s: ConfigRecord) -> AppRecord {
    AppRecord { name: s.name, id: s.id, version: Seq::empty(), source: Seq::empty() }
}

/// The selected entries found among the installed applications.
pub open spec fn installed_selection(m: CreateView) -> Seq<ConfigRecord> {
    m.selected.filter(
        |s: ConfigRecord| installed_match(m.installed_map, m.installed_entries, probe_of(s)) is Some,
    )
}

/// The state after Enter in the normal mode: on the available panel the row
/// under the cursor is selected or unselected; on the selected panel the entry
/// under the cursor is removed.
pub open spec fn entered(m: CreateView) -> CreateView {
    if m.panel == Panel::Available {
        if m.cursor_avail < m.filtered.len() {
            synced(toggled(m, m.filtered[m.cursor_avail as int]))
        } else {
            m
        }
    } else if m.selected.len() > 0 {
        let s = m.selected.remove(m.cursor_sel as int);
        synced(CreateView { selected: s, cursor_sel: clamped(m.cursor_sel, s.len()), ..m })
    } else {
        m
    }
}

/// The state after a key in the normal mode.
pub open spec fn normal_step(m: CreateView, key: KeyInput) -> CreateView {
    if !key.press {
        m
    } else {
        match key.code {
            Key::Char(c) => if key.ctrl {
                if c == 'q' {
                    CreateView { should_quit: true, ..m }
                } else if c == 's' {
                    if m.selected.len() == 0 {
                        with_status(m, "No applications selected!"@, StatusColor::Red)
                    } else {
                        CreateView { mode: ModeView::FilenameInput(Seq::empty()), ..m }
                    }
                } else {
                    m
                }
            } else {
                refiltered(CreateView { filter_text: m.filter_text.push(c), filter_pending: true, ..m })
            },
            Key::F(n) => if n == 5 {
                if m.selected.len() == 0 {
                    with_status(m, "Nothing selected."@, StatusColor::Yellow)
                } else {
                    CreateView {
                        mode: ModeView::Confirm(
                            confirm_message("Install"@, m.selected),
                            ActionView::Install(m.selected),
                        ),
                        ..m
                    }
                }
            } else if n == 6 {
                let inst = installed_selection(m);
                if inst.len() == 0 {
                    with_status(m, "No selected apps are installed."@, StatusColor::Yellow)
                } else {
                    CreateView {
                        mode: ModeView::Confirm(
                            confirm_message("Uninstall"@, inst),
                            ActionView::Uninstall(inst),
                        ),
                        ..m
                    }
                }
            } else {
                m
            },
            Key::Left => synced(CreateView { panel: Panel::Available, ..m }),
            Key::Right => synced(CreateView { panel: Panel::Selected, ..m }),
            Key::Up => moved(m, -1),
            Key::Down => moved(m, 1),
            Key::PageUp => moved(m, -15),
            Key::PageDown => moved(m, 15),
            Key::Enter => entered(m),
            Key::Tab => refiltered(CreateView { show_installed_only: !m.show_installed_only, ..m }),
            Key::Backspace => refiltered(
                CreateView {
                    filter_text: if m.filter_text.len() > 0 {
                        m.filter_text.drop_last()
                    } else {
                        m.filter_text
                    },
                    filter_pending: true,
                    ..m
                },
            ),
            _ => m,
        }
    }
}

/// Whether a key in the normal mode edits the filter (and so restarts the
/// search debounce).
pub open spec fn edits_filter(key: KeyInput) -> bool {
    key.press && (key.code == Key::Backspace || (key.code is Char && !key.ctrl))
}

// ───────────────────────── building blocks ─────────────────────────

fn filter_apps(source: &Vec<InstalledApp>, q: &Vec<char>) -> (res: Vec<InstalledApp>)
    ensures
        records(res@) == filter_result(records(source@), q@),
{
    if q.len() == 0 {
        return clone_apps(source);
    }
    let ghost all = records(source@);
    let ghost pred = |a: AppRecord| matches_filter(a, q@);
    let mut hits: Vec<InstalledApp> = Vec::new();
    let mut k: usize = 0;
    while k < source.len()
        invariant
            k <= source@.len(),
            q@.len() > 0,
            all == records(source@),
            pred == (|a: AppRecord| matches_filter(a, q@)),
            records(hits@) == all.take(k as int).filter(pred),
        decreases source@.len() - k,
    {
        let a = &source[k];
        let nl = chars_of(to_lowercase(a.name.as_str()).as_str());
        let il = chars_of(to_lowercase(a.id.as_str()).as_str());
        let hit = contains_chars(&nl, q) || contains_chars(&il, q);
        let ghost before = records(hits@);
        let ghost x = all[k as int];
        assert(x == a@);
        reveal_with_fuel(Seq::<_>::filter, 1);
        assert(all.take(k + 1).drop_last() =~= all.take(k as int));
        assert(all.take(k + 1).last() == x);
        if hit {
            hits.push(a.clone());
            assert(records(hits@) =~= before.push(x));
        }
        k = k + 1;
    }
    assert(all.take(source@.len() as int) =~= all);
    hits
}

fn clamp_cursor(c: usize, len: usize) -> (res: usize)
    ensures
        res == clamped(c, len as nat),
{
    if len == 0 {
        0
    } else if c < len {
        c
    } else {
        len - 1
    }
}

/// `(c + delta) mod len`, the cursor moved around a list of `len` rows.
pub fn cycle(c: usize, delta: i32, len: usize) -> (res: usize)
    requires
        len > 0,
    ensures
        res == cycled(c, delta as int, len as nat),
        res < len,
{
    let ghost n = len as int;
    let c0 = c % len;
    let res: usize;
    if delta >= 0 {
        let d = (delta as usize) % len;
        if d < len - c0 {
            res = c0 + d;
        } else {
            res = c0 - (len - d);
        }
        proof {
            vstd::arithmetic::div_mod::lemma_add_mod_noop(c as int, delta as int, n);
            if d < len - c0 {
                vstd::arithmetic::div_mod::lemma_small_mod((c0 + d) as nat, n as nat);
            } else {
                vstd::arithmetic::div_mod::lemma_fundamental_div_mod_converse_mod(
                    c0 + d,
                    n,
                    1,
                    res as int,
                );
            }
        }
    } else {
        let mag: u64 = if delta == i32::MIN {
            2147483648u64
        } else {
            (-delta) as u64
        };
        let d = ((mag % (len as u64)) as usize);
        proof {
            assert(mag as int == -(delta as int));
        }
        if d <= c0 {
            res = c0 - d;
        } else {
            res = c0 + (len - d);
        }
        proof {
            vstd::arithmetic::div_mod::lemma_sub_mod_noop(c as int, mag as int, n);
            assert(d as int == (mag as int) % n);
            if d <= c0 {
                vstd::arithmetic::div_mod::lemma_small_mod((c0 - d) as nat, n as nat);
            } else {
                vstd::arithmetic::div_mod::lemma_fundamental_div_mod_converse_mod(
                    c0 - d,
                    n,
                    -1,
                    res as int,
                );
            }
        }
    }
    res
}

fn index_of_id_exec(sel: &Vec<AppConfig>, id: &String) -> (res: usize)
    ensures
        res as int == index_of_id(config_records(sel@), id@),
        res <= sel@.len(),
{
    let ghost s = config_records(sel@);
    let mut k: usize = 0;
    assert(s.skip(0) =~= s);
    while k < sel.len()
        invariant
            k <= sel@.len(),
            s == config_records(sel@),
            index_of_id(s, id@) == k + index_of_id(s.skip(k as int), id@),
        decreases sel@.len() - k,
    {
        let ghost t = s.skip(k as int);
        assert(t[0] == s[k as int]);
        assert(t.drop_first() =~= s.skip(k + 1));
        if sel[k].id == *id {
            return k;
        }
        k = k + 1;
    }
    assert(s.skip(k as int) =~= Seq::<ConfigRecord>::empty());
    k
}

proof fn lemma_index_of_id_bound(sel: Seq<ConfigRecord>, id: Seq<char>)
    ensures
        0 <= index_of_id(sel, id) <= sel.len(),
        index_of_id(sel, id) < sel.len() ==> sel[index_of_id(sel, id)].id == id,
    decreases sel.len(),
{
    if sel.len() > 0 && sel[0].id != id {
        lemma_index_of_id_bound(sel.drop_first(), id);
    }
}

proof fn lemma_index_of_id_first(sel: Seq<ConfigRecord>, id: Seq<char>)
    ensures
        forall|k: int| 0 <= k < index_of_id(sel, id) && k < sel.len() ==> (#[trigger] sel[k]).id != id,
    decreases sel.len(),
{
    if sel.len() > 0 && sel[0].id != id {
        lemma_index_of_id_first(sel.drop_first(), id);
        assert forall|k: int| 0 <= k < index_of_id(sel, id) && k < sel.len() implies (#[trigger] sel[k]).id
            != id by {
            if k > 0 {
                assert(sel[k] == sel.drop_first()[k - 1]);
            }
        }
    }
}

proof fn lemma_remove_keeps_distinct(sel: Seq<ConfigRecord>, i: int)
    requires
        ids_distinct(sel),
        0 <= i < sel.len(),
    ensures
        ids_distinct(sel.remove(i)),
{
    let r = sel.remove(i);
    assert forall|a: int, b: int| 0 <= a < b < r.len() implies (#[trigger] r[a]).id != (#[trigger] r[b]).id by {
        let a2 = if a < i { a } else { a + 1 };
        let b2 = if b < i { b } else { b + 1 };
        assert(r[a] == sel[a2]);
        assert(r[b] == sel[b2]);
    }
}

/// Selecting or unselecting an application keeps the screen's state valid.
pub proof fn lemma_toggled_wf(m: CreateView, a: AppRecord)
    requires
        view_wf(m),
    ensures
        view_wf(toggled(m, a)),
{
    lemma_index_of_id_bound(m.selected, a.id);
    lemma_index_of_id_first(m.selected, a.id);
    let i = index_of_id(m.selected, a.id);
    if i < m.selected.len() {
        lemma_remove_keeps_distinct(m.selected, i);
    } else {
        let s = m.selected.push(config_for(a));
        assert forall|x: int, y: int| 0 <= x < y < s.len() implies (#[trigger] s[x]).id != (#[trigger] s[y]).id by {
            if y == m.selected.len() {
                assert(m.selected[x].id != a.id);
            } else {
                assert(s[x] == m.selected[x] && s[y] == m.selected[y]);
            }
        }
    }
}

fn config_of(a: &InstalledApp) -> (res: AppConfig)
    ensures
        res@ == config_for(a@),
{
    AppConfig {
        id: a.id.clone(),
        name: a.name.clone(),
        version: a.version.clone(),
        available_in_winget: true,
        note: None,
    }
}

// ───────────────────────── the screen ─────────────────────────

impl CreateApp {
    pub open spec fn wf(&self) -> bool {
        view_wf(self@)
    }

    /// Looks an application up among the installed ones.
    pub fn find_installed(&self, app: &InstalledApp) -> (res: Option<InstalledMatch>)
        ensures
            match res {
                Some(m) => installed_match(self@.installed_map, self@.installed_entries, app@)
                    == Some(m@),
                None => installed_match(self@.installed_map, self@.installed_entries, app@) is None,
            },
    {
        find_installed_fields(&self.installed_map, &self.installed_entries, app)
    }

    /// Replaces the installed applications and rebuilds their index.
    pub fn rebuild_installed_index(&mut self, apps: Vec<InstalledApp>)
        ensures
            final(self)@ == with_installed(old(self)@, records(apps@)),
    {
        let ghost m = self@;
        let (by_id, by_name) = build_installed_index(&apps);
        self.installed_apps = apps;
        self.installed_map = by_id;
        self.installed_entries = by_name;
        assert(self@ =~= with_installed(m, records(apps@)));
    }

    /// Applies the filter to the list it filters and keeps the cursor inside.
    pub fn apply_local_filter(&mut self)
        ensures
            final(self)@ == with_local_filter(old(self)@),
    {
        let ghost m = self@;
        let q = chars_of(to_lowercase(trim_str(self.filter_text.as_str()).as_str()).as_str());
        let filtered = if self.show_installed_only {
            filter_apps(&self.installed_apps, &q)
        } else {
            filter_apps(&self.all_apps, &q)
        };
        let n = filtered.len();
        self.filtered = filtered;
        self.cursor_avail = clamp_cursor(self.cursor_avail, n);
        assert(self@ =~= with_local_filter(m));
    }

    /// Tells the lists which rows to highlight.
    pub fn sync_list_states(&mut self)
        ensures
            final(self)@ == synced(old(self)@),
    {
        let ghost m = self@;
        self.list_avail = if self.filtered.len() == 0 {
            None
        } else {
            Some(self.cursor_avail)
        };
        self.list_sel = if self.selected.len() == 0 {
            None
        } else {
            Some(self.cursor_sel)
        };
        assert(self@ =~= synced(m));
    }

    fn refilter(&mut self)
        ensures
            final(self)@ == refiltered(old(self)@),
    {
        self.apply_local_filter();
        self.sync_list_states();
    }

    /// Shows `msg` on the status line.
    pub fn set_status(&mut self, msg: String, color: StatusColor)
        ensures
            final(self)@ == with_status(old(self)@, msg@, color),
    {
        let ghost m = self@;
        self.status_msg = Some((msg, color));
        self.status_serial = if self.status_serial == u64::MAX {
            0
        } else {
            self.status_serial + 1
        };
        assert(self@ =~= with_status(m, msg@, color));
    }

    /// Selects `app`, or unselects it when an entry has its id.
    pub fn toggle_app(&mut self, app: &InstalledApp)
        ensures
            final(self)@ == toggled(old(self)@, app@),
    {
        let ghost m = self@;
        let i = index_of_id_exec(&self.selected, &app.id);
        proof {
            lemma_index_of_id_bound(m.selected, app@.id);
        }
        if i < self.selected.len() {
            let ghost s0 = self.selected@;
            self.selected.remove(i);
            assert(config_records(self.selected@) =~= m.selected.remove(i as int));
            self.cursor_sel = clamp_cursor(self.cursor_sel, self.selected.len());
        } else {
            let ghost s0 = config_records(self.selected@);
            self.selected.push(config_of(app));
            assert(config_records(self.selected@) =~= s0.push(config_for(app@)));
            self.cursor_sel = self.selected.len() - 1;
        }
        assert(self@ =~= toggled(m, app@));
    }

    /// Moves the cursor of the focused panel by `delta` rows, around the list.
    pub fn move_cursor(&mut self, delta: i32)
        ensures
            final(self)@ == moved(old(self)@, delta as int),
    {
        let ghost m = self@;
        match self.panel {
            Panel::Available => {
                let len = self.filtered.len();
                if len > 0 {
                    self.cursor_avail = cycle(self.cursor_avail, delta, len);
                }
            },
            Panel::Selected => {
                let len = self.selected.len();
                if len > 0 {
                    self.cursor_sel = cycle(self.cursor_sel, delta, len);
                }
            },
        }
        let ghost m1 = self@;
        assert(m1 =~= match m.panel {
            Panel::Available => if m.filtered.len() > 0 {
                CreateView { cursor_avail: cycled(m.cursor_avail, delta as int, m.filtered.len()), ..m }
            } else {
                m
            },
            Panel::Selected => if m.selected.len() > 0 {
                CreateView { cursor_sel: cycled(m.cursor_sel, delta as int, m.selected.len()), ..m }
            } else {
                m
            },
        });
        self.sync_list_states();
    }
}

fn joined_names_exec(sel: &Vec<AppConfig>) -> (res: Vec<char>)
    ensures
        res@ == joined_names(config_records(sel@)),
{
    let ghost s = config_records(sel@);
    let mut out: Vec<char> = Vec::new();
    let mut k: usize = 0;
    while k < sel.len()
        invariant
            k <= sel@.len(),
            s == config_records(sel@),
            out@ == joined_names(s.take(k as int)),
        decreases sel@.len() - k,
    {
        let ghost t = s.take(k + 1);
        assert(t.drop_last() =~= s.take(k as int));
        assert(t.last() == s[k as int]);
        if k > 0 {
            append_chars(&mut out, &chars_of(", "));
        } else {
            assert(s.take(0) =~= Seq::<ConfigRecord>::empty());
            assert(out@ =~= Seq::<char>::empty());
        }
        let ghost before = out@;
        append_chars(&mut out, &chars_of(sel[k].name.as_str()));
        if k == 0 {
            assert(out@ =~= t[0].name);
        }
        k = k + 1;
    }
    assert(s.take(sel@.len() as int) =~= s);
    out
}

fn confirm_text(verb: &str, sel: &Vec<AppConfig>) -> (res: String)
    ensures
        res@ == confirm_message(verb@, config_records(sel@)),
{
    let mut out = chars_of(verb);
    append_chars(&mut out, &chars_of(" "));
    append_chars(&mut out, &digits_u64(sel.len() as u64));
    append_chars(&mut out, &chars_of(" app(s)? ("));
    append_chars(&mut out, &joined_names_exec(sel));
    append_chars(&mut out, &chars_of(")"));
    string_of(&out)
}

impl CreateApp {
    fn installed_selected(&self) -> (res: Vec<AppConfig>)
        ensures
            config_records(res@) == installed_selection(self@),
    {
        let ghost m = self@;
        let ghost all = m.selected;
        let ghost pred = |s: ConfigRecord|
            installed_match(m.installed_map, m.installed_entries, probe_of(s)) is Some;
        let mut out: Vec<AppConfig> = Vec::new();
        let mut k: usize = 0;
        while k < self.selected.len()
            invariant
                k <= self.selected@.len(),
                m == self@,
                all == m.selected,
                pred == (|s: ConfigRecord|
                    installed_match(m.installed_map, m.installed_entries, probe_of(s)) is Some),
                config_records(out@) == all.take(k as int).filter(pred),
            decreases self.selected@.len() - k,
        {
            let s = &self.selected[k];
            let probe = InstalledApp::with_id_and_name(&s.id, &s.name);
            let ghost x = all[k as int];
            assert(x == s@);
            assert(probe@ == probe_of(x));
            let found = self.find_installed(&probe);
            let ghost before = config_records(out@);
            reveal_with_fuel(Seq::<_>::filter, 1);
            assert(all.take(k + 1).drop_last() =~= all.take(k as int));
            assert(all.take(k + 1).last() == x);
            if found.is_some() {
                out.push(s.clone());
                assert(config_records(out@) =~= before.push(x));
            }
            k = k + 1;
        }
        assert(all.take(self.selected@.len() as int) =~= all);
        out
    }

    /// Takes a key in the normal mode; says whether it edited the filter, which
    /// restarts the caller's search debounce.
    pub fn handle_normal_event(&mut self, key: KeyInput) -> (restart: bool)
        requires
            old(self).wf(),
        ensures
            final(self)@ == normal_step(old(self)@, key),
            restart == edits_filter(key),
            final(self).wf(),
    {
        let ghost m = self@;
        if !key.press {
            return false;
        }
        match key.code {
            Key::Char(c) => {
                if key.ctrl {
                    if c == 'q' {
                        self.should_quit = true;
                        assert(self@ =~= normal_step(m, key));
                    } else if c == 's' {
                        if self.selected.len() == 0 {
                            self.set_status(
                                String::from_str("No applications selected!"),
                                StatusColor::Red,
                            );
                        } else {
                            self.mode = Mode::FilenameInput { input: String::new() };
                            assert(self@ =~= normal_step(m, key));
                        }
                    }
                    false
                } else {
                    crate::text::push_char(&mut self.filter_text, c);
                    self.filter_pending = true;
                    assert(self@ =~= CreateView {
                        filter_text: m.filter_text.push(c),
                        filter_pending: true,
                        ..m
                    });
                    self.refilter();
                    true
                }
            },
            Key::F(n) => {
                if n == 5 {
                    if self.selected.len() == 0 {
                        self.set_status(String::from_str("Nothing selected."), StatusColor::Yellow);
                    } else {
                        let message = confirm_text("Install", &self.selected);
                        let action = PendingAction::Install(clone_configs(&self.selected));
                        self.mode = Mode::Confirm { message, action };
                        assert(self@ =~= normal_step(m, key));
                    }
                } else if n == 6 {
                    let inst = self.installed_selected();
                    if inst.len() == 0 {
                        self.set_status(
                            String::from_str("No selected apps are installed."),
                            StatusColor::Yellow,
                        );
                    } else {
                        let message = confirm_text("Uninstall", &inst);
                        self.mode = Mode::Confirm { message, action: PendingAction::Uninstall(inst) };
                        assert(self@ =~= normal_step(m, key));
                    }
                }
                false
            },
            Key::Left => {
                self.panel = Panel::Available;
                assert(self@ =~= CreateView { panel: Panel::Available, ..m });
                self.sync_list_states();
                false
            },
            Key::Right => {
                self.panel = Panel::Selected;
                assert(self@ =~= CreateView { panel: Panel::Selected, ..m });
                self.sync_list_states();
                false
            },
            Key::Up => {
                self.move_cursor(-1);
                false
            },
            Key::Down => {
                self.move_cursor(1);
                false
            },
            Key::PageUp => {
                self.move_cursor(-(PAGE_SIZE as i32));
                false
            },
            Key::PageDown => {
                self.move_cursor(PAGE_SIZE as i32);
                false
            },
            Key::Enter => {
                match self.panel {
                    Panel::Available => {
                        if self.cursor_avail < self.filtered.len() {
                            let item = self.filtered[self.cursor_avail].clone();
                            assert(item@ == m.filtered[m.cursor_avail as int]);
                            proof {
                                lemma_toggled_wf(m, item@);
                            }
                            self.toggle_app(&item);
                            self.sync_list_states();
                        }
                    },
                    Panel::Selected => {
                        if self.selected.len() > 0 {
                            proof {
                                lemma_remove_keeps_distinct(m.selected, m.cursor_sel as int);
                            }
                            self.selected.remove(self.cursor_sel);
                            assert(config_records(self.selected@) =~= m.selected.remove(
                                m.cursor_sel as int,
                            ));
                            self.cursor_sel = clamp_cursor(self.cursor_sel, self.selected.len());
                            assert(self@ =~= CreateView {
                                selected: m.selected.remove(m.cursor_sel as int),
                                cursor_sel: clamped(m.cursor_sel, (m.selected.len() - 1) as nat),
                                ..m
                            });
                            self.sync_list_states();
                        }
                    },
                }
                false
            },
            Key::Tab => {
                self.show_installed_only = !self.show_installed_only;
                assert(self@ =~= CreateView { show_installed_only: !m.show_installed_only, ..m });
                self.refilter();
                false
            },
            Key::Backspace => {
                let mut t = chars_of(self.filter_text.as_str());
                if t.len() > 0 {
                    t.pop();
                    assert(t@ =~= m.filter_text.drop_last());
                }
                self.filter_text = string_of(&t);
                self.filter_pending = true;
                assert(self@ =~= CreateView {
                    filter_text: if m.filter_text.len() > 0 {
                        m.filter_text.drop_last()
                    } else {
                        m.filter_text
                    },
                    filter_pending: true,
                    ..m
                });
                self.refilter();
                true
            },
            _ => false,
        }
    }
}

// ───────────────────────── the other modes ─────────────────────────

/// The title of a run.
pub open spec fn action_title(a: ActionView) -> Seq<char> {
    match a {
        ActionView::Install(_) => "Installing"@,
        ActionView::Uninstall(_) => "Uninstalling"@,
    }
}

/// The entries of a run.
pub open spec fn action_apps(a: ActionView) -> Seq<ConfigRecord> {
    match a {
        ActionView::Install(v) => v,
        ActionView::Uninstall(v) => v,
    }
}

/// The state once a confirmed run started: its progress board shows, the
/// selection is emptied.
pub open spec fn started(m: CreateView, a: ActionView) -> CreateView {
    CreateView {
        mode: ModeView::Progress(fresh_board(action_title(a), action_apps(a))),
        selected: Seq::empty(),
        cursor_sel: 0,
        ..m
    }
}

/// A key while a run waits for confirmation: Enter starts it (and hands it
/// out), Esc or `n` drops it.
pub open spec fn confirm_step(m: CreateView, key: KeyInput) -> (CreateView, Option<ActionView>) {
    if !key.press {
        (m, None)
    } else {
        match key.code {
            Key::Enter => match m.mode {
                ModeView::Confirm(_, a) => (started(m, a), Some(a)),
                _ => (m, None),
            },
            Key::Esc => (CreateView { mode: ModeView::Normal, ..m }, None),
            Key::Char(c) => if c == 'n' {
                (CreateView { mode: ModeView::Normal, ..m }, None)
            } else {
                (m, None)
            },
            _ => (m, None),
        }
    }
}

/// A character a preset's file name may hold.
pub open spec fn file_name_char(c: char) -> bool {
    alphanumeric(c) || c == '-' || c == '_'
}

/// A key while a file name is typed: Esc cancels; Enter hands out the trimmed
/// name, or cancels when it is empty; Backspace and the allowed characters edit.
pub open spec fn filename_step(m: CreateView, key: KeyInput) -> (CreateView, Option<Seq<char>>) {
    if !key.press {
        (m, None)
    } else {
        match m.mode {
            ModeView::FilenameInput(input) => match key.code {
                Key::Esc => (CreateView { mode: ModeView::Normal, ..m }, None),
                Key::Enter => if trim(input).len() == 0 {
                    (CreateView { mode: ModeView::Normal, ..m }, None)
                } else {
                    (m, Some(trim(input)))
                },
                Key::Backspace => (
                    CreateView {
                        mode: ModeView::FilenameInput(
                            if input.len() > 0 { input.drop_last() } else { input },
                        ),
                        ..m
                    },
                    None,
                ),
                Key::Char(c) => if !key.ctrl && file_name_char(c) {
                    (CreateView { mode: ModeView::FilenameInput(input.push(c)), ..m }, None)
                } else {
                    (m, None)
                },
                _ => (m, None),
            },
            _ => (m, None),
        }
    }
}

/// Whether `s` ends in `.json`.
pub open spec fn has_json_suffix(s: Seq<char>) -> bool {
    s.len() >= 5 && s.skip(s.len() - 5) == ".json"@
}

/// The file a preset is saved to, or why it cannot be saved: nothing is
/// selected, or the name is empty once trimmed. `.json` is added when missing.
pub open spec fn preset_file(m: CreateView, filename: Seq<char>) -> Result<Seq<char>, Seq<char>> {
    if m.selected.len() == 0 {
        Err("No applications selected"@)
    } else if trim(filename).len() == 0 {
        Err("Filename cannot be empty"@)
    } else if has_json_suffix(trim(filename)) {
        Ok(trim(filename))
    } else {
        Ok(trim(filename) + ".json"@)
    }
}

/// The state once saving a preset ended: `Saved to <path>` or `Error: <why>`.
pub open spec fn saved(m: CreateView, outcome: Result<Seq<char>, Seq<char>>) -> CreateView {
    match outcome {
        Ok(path) => CreateView {
            mode: ModeView::Normal,
            ..with_status(m, "Saved to "@ + path, StatusColor::Green)
        },
        Err(e) => CreateView { mode: ModeView::Normal, ..with_status(m, "Error: "@ + e, StatusColor::Red) },
    }
}

pub open spec fn is_enter_press(key: Option<KeyInput>) -> bool {
    match key {
        Some(k) => k.press && k.code == Key::Enter,
        None => false,
    }
}

/// The board after the messages of the workers, the end of the workers
/// (`disconnected`) and a key.
pub open spec fn board_step(
    b: BoardView,
    msgs: Seq<ProgressMsg>,
    disconnected: bool,
    key: Option<KeyInput>,
) -> BoardView {
    let b1 = applied_all(b, msgs);
    let b2 = if disconnected { BoardView { done: true, ..b1 } } else { b1 };
    match key {
        Some(k) => scrolled(b2, k),
        None => b2,
    }
}

/// An event during a run: the board takes the messages and the key; once the
/// run is over, Enter asks to go back to the lists.
pub open spec fn progress_step(
    m: CreateView,
    msgs: Seq<ProgressMsg>,
    disconnected: bool,
    key: Option<KeyInput>,
) -> (CreateView, bool) {
    match m.mode {
        ModeView::Progress(b) => {
            let nb = board_step(b, msgs, disconnected, key);
            (CreateView { mode: ModeView::Progress(nb), ..m }, nb.done && is_enter_press(key))
        },
        _ => (m, false),
    }
}

/// The applications that are not system components.
pub open spec fn user_apps(patterns: Seq<Seq<char>>, apps: Seq<AppRecord>) -> Seq<AppRecord> {
    apps.filter(|a: AppRecord| !matches_any(patterns, a))
}

/// The state back on the lists after a run, with the installed applications
/// read again: selection emptied, cursors at the top, the available panel focused.
pub open spec fn back_to_lists(m: CreateView, installed: Seq<AppRecord>) -> CreateView {
    CreateView {
        mode: ModeView::Normal,
        ..refiltered(
            CreateView {
                selected: Seq::empty(),
                cursor_avail: 0,
                cursor_sel: 0,
                panel: Panel::Available,
                ..with_installed(m, installed)
            },
        )
    }
}

impl CreateApp {
    /// Takes a key while a run waits for confirmation; hands out the run it starts.
    pub fn handle_confirm_event(&mut self, key: KeyInput) -> (res: Option<PendingAction>)
        requires
            old(self).wf(),
        ensures
            final(self)@ == confirm_step(old(self)@, key).0,
            match res {
                Some(a) => confirm_step(old(self)@, key).1 == Some(a@),
                None => confirm_step(old(self)@, key).1 is None,
            },
            final(self).wf(),
    {
        let ghost m = self@;
        if !key.press {
            return None;
        }
        match key.code {
            Key::Enter => {
                let mut mode = Mode::Normal;
        std::mem::swap(&mut mode, &mut self.mode);
                match mode {
                    Mode::Confirm { message, action } => {
                        let board = match &action {
                            PendingAction::Install(v) => ProgressBoard::new("Installing", v),
                            PendingAction::Uninstall(v) => ProgressBoard::new("Uninstalling", v),
                        };
                        proof {
                            reveal_strlit("Installing");
                            reveal_strlit("Uninstalling");
                        }
                        self.mode = Mode::Progress { board };
                        self.selected = Vec::new();
                        self.cursor_sel = 0;
                        assert(self@ =~= started(m, action@));
                        Some(action)
                    },
                    other => {
                        self.mode = other;
                        assert(self@ =~= m);
                        None
                    },
                }
            },
            Key::Esc => {
                self.mode = Mode::Normal;
                assert(self@ =~= CreateView { mode: ModeView::Normal, ..m });
                None
            },
            Key::Char(c) => {
                if c == 'n' {
                    self.mode = Mode::Normal;
                    assert(self@ =~= CreateView { mode: ModeView::Normal, ..m });
                }
                None
            },
            _ => None,
        }
    }

    /// Takes a key while a file name is typed; hands out the name to save under.
    pub fn handle_filename_event(&mut self, key: KeyInput) -> (res: Option<String>)
        requires
            old(self).wf(),
        ensures
            final(self)@ == filename_step(old(self)@, key).0,
            match res {
                Some(n) => filename_step(old(self)@, key).1 == Some(n@),
                None => filename_step(old(self)@, key).1 is None,
            },
            final(self).wf(),
    {
        let ghost m = self@;
        if !key.press {
            return None;
        }
        let mut mode = Mode::Normal;
        std::mem::swap(&mut mode, &mut self.mode);
        match mode {
            Mode::FilenameInput { input } => {
                match key.code {
                    Key::Esc => {
                        assert(self@ =~= filename_step(m, key).0);
                        None
                    },
                    Key::Enter => {
                        let name = trim_str(input.as_str());
                        if name.as_str().is_empty() {
                            assert(self@ =~= filename_step(m, key).0);
                            None
                        } else {
                            self.mode = Mode::FilenameInput { input };
                            assert(self@ =~= m);
                            Some(name)
                        }
                    },
                    Key::Backspace => {
                        let mut t = chars_of(input.as_str());
                        if t.len() > 0 {
                            t.pop();
                            assert(t@ =~= input@.drop_last());
                        }
                        self.mode = Mode::FilenameInput { input: string_of(&t) };
                        assert(self@ =~= filename_step(m, key).0);
                        None
                    },
                    Key::Char(c) => {
                        let mut input = input;
                        if !key.ctrl && (is_alphanumeric(c) || c == '-' || c == '_') {
                            crate::text::push_char(&mut input, c);
                        }
                        self.mode = Mode::FilenameInput { input };
                        assert(self@ =~= filename_step(m, key).0);
                        None
                    },
                    _ => {
                        self.mode = Mode::FilenameInput { input };
                        assert(self@ =~= m);
                        None
                    },
                }
            },
            other => {
                self.mode = other;
                assert(self@ =~= m);
                None
            },
        }
    }

    /// The file name a preset is saved under, or why it cannot be saved.
    pub fn preset_file_name(&self, filename: &str) -> (res: Result<String, String>)
        ensures
            match res {
                Ok(f) => preset_file(self@, filename@) == Ok::<Seq<char>, Seq<char>>(f@),
                Err(e) => preset_file(self@, filename@) == Err::<Seq<char>, Seq<char>>(e@),
            },
    {
        if self.selected.len() == 0 {
            return Err(String::from_str("No applications selected"));
        }
        let name = chars_of(filename);
        let t = trim_chars(&name);
        if t.len() == 0 {
            return Err(String::from_str("Filename cannot be empty"));
        }
        let n = t.len();
        let suffix = chars_of(".json");
        proof {
            reveal_strlit(".json");
        }
        let ends = n >= 5 && t[n - 5] == '.' && t[n - 4] == 'j' && t[n - 3] == 's' && t[n - 2]
            == 'o' && t[n - 1] == 'n';
        if ends {
            assert(t@.skip(n - 5) =~= ".json"@);
            Ok(string_of(&t))
        } else {
            proof {
                if n >= 5 && t@.skip(n - 5) == ".json"@ {
                    assert(t@.skip(n - 5)[0] == t@[n - 5]);
                    assert(t@.skip(n - 5)[1] == t@[n - 4]);
                    assert(t@.skip(n - 5)[2] == t@[n - 3]);
                    assert(t@.skip(n - 5)[3] == t@[n - 2]);
                    assert(t@.skip(n - 5)[4] == t@[n - 1]);
                }
            }
            let mut out = t;
            append_chars(&mut out, &suffix);
            Ok(string_of(&out))
        }
    }

    /// Reports how saving a preset ended and leaves the file name prompt.
    pub fn finish_save(&mut self, outcome: Result<String, String>)
        requires
            old(self).wf(),
        ensures
            final(self)@ == saved(
                old(self)@,
                match outcome {
                    Ok(p) => Ok(p@),
                    Err(e) => Err(e@),
                },
            ),
            final(self).wf(),
    {
        let ghost m = self@;
        match outcome {
            Ok(path) => {
                let mut msg = chars_of("Saved to ");
                append_chars(&mut msg, &chars_of(path.as_str()));
                self.set_status(string_of(&msg), StatusColor::Green);
            },
            Err(e) => {
                let mut msg = chars_of("Error: ");
                append_chars(&mut msg, &chars_of(e.as_str()));
                self.set_status(string_of(&msg), StatusColor::Red);
            },
        }
        self.mode = Mode::Normal;
    }

    /// Takes what happened during a run: the messages that arrived, whether the
    /// workers are gone, and the key pressed, if any. Says whether to go back to
    /// the lists (the run is over and Enter was pressed).
    pub fn handle_progress_event(
        &mut self,
        msgs: Vec<ProgressMsg>,
        disconnected: bool,
        key: Option<KeyInput>,
    ) -> (back: bool)
        requires
            old(self).wf(),
        ensures
            final(self)@ == progress_step(old(self)@, msgs@, disconnected, key).0,
            back == progress_step(old(self)@, msgs@, disconnected, key).1,
            final(self).wf(),
    {
        let ghost m = self@;
        let mut mode = Mode::Normal;
        std::mem::swap(&mut mode, &mut self.mode);
        match mode {
            Mode::Progress { board } => {
                let mut board = board;
                board.apply_all(msgs, disconnected);
                match key {
                    Some(k) => board.scroll(k),
                    None => {},
                }
                let back = board.done && match key {
                    Some(k) => k.press && matches!(k.code, Key::Enter),
                    None => false,
                };
                self.mode = Mode::Progress { board };
                assert(self@ =~= progress_step(m, msgs@, disconnected, key).0);
                back
            },
            other => {
                self.mode = other;
                assert(self@ =~= m);
                false
            },
        }
    }

    /// Goes back to the lists after a run, with the installed applications read
    /// again (system components left out).
    pub fn return_to_list(&mut self, winget: &WingetService, installed: Vec<InstalledApp>)
        requires
            old(self).wf(),
        ensures
            final(self)@ == back_to_lists(old(self)@, user_apps(winget.patterns(), records(installed@))),
            final(self).wf(),
    {
        let ghost m = self@;
        let apps = user_apps_of(winget, installed);
        self.rebuild_installed_index(apps);
        self.selected = Vec::new();
        self.cursor_avail = 0;
        self.cursor_sel = 0;
        self.panel = Panel::Available;
        self.refilter();
        self.mode = Mode::Normal;
        assert(self@ =~= back_to_lists(m, user_apps(winget.patterns(), records(installed@))));
    }
}

/// The applications that are not system components.
pub fn user_apps_of(winget: &WingetService, apps: Vec<InstalledApp>) -> (res: Vec<InstalledApp>)
    ensures
        records(res@) == user_apps(winget.patterns(), records(apps@)),
{
    let ghost all = records(apps@);
    let ghost pred = |a: AppRecord| !matches_any(winget.patterns(), a);
    let mut out: Vec<InstalledApp> = Vec::new();
    let mut k: usize = 0;
    while k < apps.len()
        invariant
            k <= apps@.len(),
            all == records(apps@),
            pred == (|a: AppRecord| !matches_any(winget.patterns(), a)),
            records(out@) == all.take(k as int).filter(pred),
        decreases apps@.len() - k,
    {
        let a = &apps[k];
        let ghost x = all[k as int];
        assert(x == a@);
        let ghost before = records(out@);
        reveal_with_fuel(Seq::<_>::filter, 1);
        assert(all.take(k + 1).drop_last() =~= all.take(k as int));
        assert(all.take(k + 1).last() == x);
        if !winget.is_system_app(a) {
            out.push(a.clone());
            assert(records(out@) =~= before.push(x));
        }
        k = k + 1;
    }
    assert(all.take(apps@.len() as int) =~= all);
    out
}

// ───────────────────────── searching the catalog ─────────────────────────

/// How long the filter must rest before the catalog is searched for it.
pub open spec fn debounce_nanos() -> u128 {
    450_000_000
}

/// A tick of the caller's clock, `since_change_nanos` after the filter last
/// changed: once the filter rested long enough and no search runs, it is
/// considered; its trimmed text is handed out to search when it is at least
/// three bytes long and was not searched before.
pub open spec fn search_step(m: CreateView, since_change_nanos: u128) -> (CreateView, Option<Seq<char>>) {
    if m.filter_pending && since_change_nanos >= debounce_nanos() && !m.is_searching {
        let q = trim(m.filter_text);
        let m1 = CreateView { filter_pending: false, ..m };
        if encode_utf8(q).len() >= 3 && !m.search_cache.contains(q) {
            (CreateView { is_searching: true, ..m1 }, Some(q))
        } else {
            (m1, None)
        }
    } else {
        (m, None)
    }
}

/// The catalog with the search results added: a result is added unless an
/// application with its id (in lower case) is already there.
pub open spec fn merged(base: Seq<AppRecord>, results: Seq<AppRecord>) -> Seq<AppRecord>
    decreases results.len(),
{
    if results.len() == 0 {
        base
    } else {
        let m = merged(base, results.drop_last());
        let r = results.last();
        if exists|j: int| 0 <= j < m.len() && lowercase(#[trigger] m[j].id) == lowercase(r.id) {
            m
        } else {
            m.push(r)
        }
    }
}

/// The state once a search for `query` returned `results`: the query is
/// remembered, the results merged into the catalog, and the filter applied
/// again when it still is the query.
pub open spec fn searched(m: CreateView, query: Seq<char>, results: Seq<AppRecord>) -> CreateView {
    let m1 = CreateView {
        is_searching: false,
        search_cache: if m.search_cache.contains(query) {
            m.search_cache
        } else {
            m.search_cache.push(query)
        },
        all_apps: merged(m.all_apps, results),
        ..m
    };
    if filter_query(m1) == query {
        refiltered(m1)
    } else {
        m1
    }
}

/// How long a status stays: an error ten seconds, anything else two.
pub open spec fn status_ttl_nanos(c: StatusColor) -> u128 {
    if c == StatusColor::Red {
        10_000_000_000
    } else {
        2_000_000_000
    }
}

/// The state `elapsed_nanos` after the status was set: an outlived status is gone.
pub open spec fn expired(m: CreateView, elapsed_nanos: u128) -> CreateView {
    match m.status_msg {
        Some((_, c)) => if elapsed_nanos > status_ttl_nanos(c) {
            CreateView { status_msg: None, ..m }
        } else {
            m
        },
        None => m,
    }
}

/// The screen before anything is known but the catalog.
pub open spec fn initial(catalog: Seq<AppRecord>) -> CreateView {
    CreateView {
        mode: ModeView::Normal,
        panel: Panel::Available,
        cursor_avail: 0,
        cursor_sel: 0,
        list_avail: None,
        list_sel: None,
        filter_text: Seq::empty(),
        show_installed_only: false,
        all_apps: catalog,
        installed_apps: Seq::empty(),
        filtered: catalog,
        selected: Seq::empty(),
        installed_map: Seq::empty(),
        installed_entries: Seq::empty(),
        search_cache: Seq::empty(),
        is_searching: false,
        filter_pending: false,
        status_msg: None,
        status_serial: 0,
        should_quit: false,
    }
}

/// The screen as it opens: the installed applications that are not system
/// components indexed, the filter applied, and, when the catalog is empty, its
/// error (or that it returned no packages) on the status line.
pub open spec fn opened(
    patterns: Seq<Seq<char>>,
    installed: Seq<AppRecord>,
    catalog: Seq<AppRecord>,
    catalog_error: Option<Seq<char>>,
) -> CreateView {
    let m = refiltered(with_installed(initial(catalog), user_apps(patterns, installed)));
    if catalog.len() == 0 {
        with_status(
            m,
            match catalog_error {
                Some(e) => e,
                None => "Winget catalog returned no packages"@,
            },
            StatusColor::Red,
        )
    } else {
        m
    }
}

fn lower_id(a: &InstalledApp) -> (res: Vec<char>)
    ensures
        res@ == lowercase(a.id@),
{
    chars_of(to_lowercase(a.id.as_str()).as_str())
}

fn holds_chars(seen: &Vec<Vec<char>>, x: &Vec<char>) -> (res: bool)
    ensures
        res == exists|j: int| 0 <= j < seen@.len() && (#[trigger] seen@[j])@ == x@,
{
    let mut q: usize = 0;
    while q < seen.len()
        invariant
            q <= seen@.len(),
            forall|j: int| 0 <= j < q ==> (#[trigger] seen@[j])@ != x@,
        decreases seen@.len() - q,
    {
        if same_chars(&seen[q], x) {
            return true;
        }
        q = q + 1;
    }
    false
}

/// Merges search results into a catalog (see `merged`).
pub fn merge_apps(base: Vec<InstalledApp>, results: Vec<InstalledApp>) -> (res: Vec<InstalledApp>)
    ensures
        records(res@) == merged(records(base@), records(results@)),
{
    let ghost rs = records(results@);
    let mut out = base;
    let ghost b = records(out@);
    let mut seen: Vec<Vec<char>> = Vec::new();
    let mut k: usize = 0;
    while k < out.len()
        invariant
            k <= out@.len(),
            b == records(out@),
            seen@.len() == k,
            forall|j: int| 0 <= j < k ==> (#[trigger] seen@[j])@ == lowercase(b[j].id),
        decreases out@.len() - k,
    {
        let l = lower_id(&out[k]);
        seen.push(l);
        k = k + 1;
    }
    assert(merged(b, rs.take(0)) == b) by {
        assert(rs.take(0) =~= Seq::<AppRecord>::empty());
    }
    let mut i: usize = 0;
    while i < results.len()
        invariant
            i <= results@.len(),
            rs == records(results@),
            records(out@) == merged(b, rs.take(i as int)),
            seen@.len() == out@.len(),
            forall|j: int| 0 <= j < seen@.len() ==> (#[trigger] seen@[j])@ == lowercase(
                records(out@)[j].id,
            ),
        decreases results@.len() - i,
    {
        let r = &results[i];
        let ghost x = rs[i as int];
        assert(x == r@);
        assert(rs.take(i + 1).drop_last() =~= rs.take(i as int));
        assert(rs.take(i + 1).last() == x);
        let l = lower_id(r);
        let ghost cur = records(out@);
        let dup = holds_chars(&seen, &l);
        proof {
            if dup {
                let j = choose|j: int| 0 <= j < seen@.len() && (#[trigger] seen@[j])@ == l@;
                assert(lowercase(cur[j].id) == lowercase(x.id));
            } else {
                assert forall|j: int| 0 <= j < cur.len() implies lowercase(#[trigger] cur[j].id)
                    != lowercase(x.id) by {
                    assert(seen@[j]@ == lowercase(cur[j].id));
                }
            }
        }
        if !dup {
            out.push(r.clone());
            seen.push(l);
            assert(records(out@) =~= cur.push(x));
        }
        i = i + 1;
    }
    assert(rs.take(results@.len() as int) =~= rs);
    out
}

fn cache_holds(cache: &Vec<String>, q: &String) -> (res: bool)
    ensures
        res == string_views(cache@).contains(q@),
{
    let ghost sv = string_views(cache@);
    let mut k: usize = 0;
    while k < cache.len()
        invariant
            k <= cache@.len(),
            sv == string_views(cache@),
            forall|j: int| 0 <= j < k ==> sv[j] != q@,
        decreases cache@.len() - k,
    {
        assert(sv[k as int] == cache@[k as int]@);
        if cache[k] == *q {
            assert(sv.contains(q@));
            return true;
        }
        k = k + 1;
    }
    false
}

impl CreateApp {
    /// Opens the screen on the installed applications (system components are
    /// left out) and the catalog, which came with `catalog_error` when empty.
    pub fn new(
        winget: &WingetService,
        installed: Vec<InstalledApp>,
        catalog: Vec<InstalledApp>,
        catalog_error: Option<String>,
    ) -> (res: CreateApp)
        ensures
            res@ == opened(
                winget.patterns(),
                records(installed@),
                records(catalog@),
                match catalog_error {
                    Some(e) => Some(e@),
                    None => None,
                },
            ),
            res.wf(),
    {
        let apps = user_apps_of(winget, installed);
        let filtered = clone_apps(&catalog);
        let mut app = CreateApp {
            mode: Mode::Normal,
            panel: Panel::Available,
            cursor_avail: 0,
            cursor_sel: 0,
            list_avail: None,
            list_sel: None,
            filter_text: String::new(),
            show_installed_only: false,
            all_apps: catalog,
            installed_apps: Vec::new(),
            filtered,
            selected: Vec::new(),
            installed_map: Vec::new(),
            installed_entries: Vec::new(),
            search_cache: Vec::new(),
            is_searching: false,
            filter_pending: false,
            status_msg: None,
            status_serial: 0,
            should_quit: false,
        };
        assert(app@ =~= initial(records(catalog@)));
        app.rebuild_installed_index(apps);
        app.refilter();
        if app.all_apps.len() == 0 {
            let msg = match catalog_error {
                Some(e) => e,
                None => String::from_str("Winget catalog returned no packages"),
            };
            app.set_status(msg, StatusColor::Red);
        }
        app
    }

    /// A tick of the caller's clock (see `search_step`); hands out the query to
    /// search the catalog for.
    pub fn poll_search(&mut self, since_change_nanos: u128) -> (res: Option<String>)
        requires
            old(self).wf(),
        ensures
            final(self)@ == search_step(old(self)@, since_change_nanos).0,
            match res {
                Some(q) => search_step(old(self)@, since_change_nanos).1 == Some(q@),
                None => search_step(old(self)@, since_change_nanos).1 is None,
            },
            final(self).wf(),
    {
        let ghost m = self@;
        if self.filter_pending && since_change_nanos >= 450_000_000 && !self.is_searching {
            self.filter_pending = false;
            let q = trim_str(self.filter_text.as_str());
            let qc = chars_of(q.as_str());
            if utf8_len_at_least(&qc, 3) && !cache_holds(&self.search_cache, &q) {
                self.is_searching = true;
                assert(self@ =~= search_step(m, since_change_nanos).0);
                Some(q)
            } else {
                assert(self@ =~= search_step(m, since_change_nanos).0);
                None
            }
        } else {
            None
        }
    }

    /// Takes the results of the search for `query`.
    pub fn finish_search(&mut self, query: String, results: Vec<InstalledApp>)
        requires
            old(self).wf(),
        ensures
            final(self)@ == searched(old(self)@, query@, records(results@)),
            final(self).wf(),
    {
        let ghost m = self@;
        self.is_searching = false;
        if !cache_holds(&self.search_cache, &query) {
            let ghost c0 = string_views(self.search_cache@);
            self.search_cache.push(copy_text(&query));
            assert(string_views(self.search_cache@) =~= c0.push(query@));
        }
        let mut base: Vec<InstalledApp> = Vec::new();
        std::mem::swap(&mut base, &mut self.all_apps);
        self.all_apps = merge_apps(base, results);
        let ghost m1 = self@;
        assert(m1 =~= CreateView {
            is_searching: false,
            search_cache: if m.search_cache.contains(query@) {
                m.search_cache
            } else {
                m.search_cache.push(query@)
            },
            all_apps: merged(m.all_apps, records(results@)),
            ..m
        });
        let q = chars_of(to_lowercase(trim_str(self.filter_text.as_str()).as_str()).as_str());
        let qq = chars_of(query.as_str());
        if same_chars(&q, &qq) {
            self.refilter();
        }
    }

    /// Clears the status line once it outlived its time; `elapsed_nanos` is the
    /// time since it was set.
    pub fn expire_status(&mut self, elapsed_nanos: u128)
        requires
            old(self).wf(),
        ensures
            final(self)@ == expired(old(self)@, elapsed_nanos),
            final(self).wf(),
    {
        let ghost m = self@;
        let expire = match &self.status_msg {
            Some((_, c)) => {
                let ttl: u128 = match c {
                    StatusColor::Red => 10_000_000_000,
                    _ => 2_000_000_000,
                };
                elapsed_nanos > ttl
            },
            None => false,
        };
        if expire {
            self.status_msg = None;
            assert(self@ =~= expired(m, elapsed_nanos));
        }
    }
}

fn copy_text(s: &String) -> (res: String)
    ensures
        res@ == s@,
{
    s.clone()
}

// ───────────────────────── laws ─────────────────────────

/// Typing a filter shows the applications of the filtered list whose name or
/// id, in lower case, holds the trimmed, lower-cased filter, and no others; an
/// empty filter shows the whole list. The cursor stays on a shown row.
pub proof fn lemma_local_filter(m: CreateView)
    ensures
        ({
            let f = with_local_filter(m).filtered;
            let src = if m.show_installed_only { m.installed_apps } else { m.all_apps };
            let q = lowercase(trim(m.filter_text));
            &&& q.len() == 0 ==> f == src
            &&& forall|i: int|
                0 <= i < f.len() ==> src.contains(#[trigger] f[i]) && (q.len() == 0 || has_sub(
                    lowercase(f[i].name),
                    q,
                ) || has_sub(lowercase(f[i].id), q))
            &&& forall|i: int|
                0 <= i < src.len() && (has_sub(lowercase(src[i].name), q) || has_sub(
                    lowercase(src[i].id),
                    q,
                )) ==> f.contains(#[trigger] src[i])
            &&& f.len() > 0 ==> with_local_filter(m).cursor_avail < f.len()
        }),
{
    let src = filter_source(m);
    let q = filter_query(m);
    let f = with_local_filter(m).filtered;
    if q.len() > 0 {
        let pred = |a: AppRecord| matches_filter(a, q);
        assert(f == src.filter(pred));
        assert forall|i: int| 0 <= i < f.len() implies src.contains(#[trigger] f[i]) && matches_filter(f[i], q) by {
            src.lemma_filter_pred(pred, i);
            assert(f.contains(f[i]));
            src.lemma_filter_contains_rev(pred, f[i]);
        }
        assert forall|i: int| 0 <= i < src.len() && matches_filter(src[i], q) implies f.contains(
            #[trigger] src[i],
        ) by {
            src.lemma_filter_contains(pred, i);
        }
    } else {
        assert forall|i: int| 0 <= i < f.len() implies src.contains(#[trigger] f[i]) by {}
        assert forall|i: int| 0 <= i < src.len() implies f.contains(#[trigger] src[i]) by {}
    }
}


/// Merging search results keeps the catalog as it was, in front.
pub proof fn lemma_merge_keeps_catalog(base: Seq<AppRecord>, results: Seq<AppRecord>)
    ensures
        merged(base, results).len() >= base.len(),
        merged(base, results).take(base.len() as int) == base,
    decreases results.len(),
{
    if results.len() > 0 {
        lemma_merge_keeps_catalog(base, results.drop_last());
        let m = merged(base, results.drop_last());
        assert(m.push(results.last()).take(base.len() as int) =~= m.take(base.len() as int));
    }
}

/// After merging, every search result's id (in lower case) is in the catalog.
pub proof fn lemma_merge_covers_results(base: Seq<AppRecord>, results: Seq<AppRecord>, i: int)
    requires
        0 <= i < results.len(),
    ensures
        exists|j: int|
            0 <= j < merged(base, results).len() && lowercase(#[trigger] merged(base, results)[j].id)
                == lowercase(results[i].id),
    decreases results.len(),
{
    let m = merged(base, results.drop_last());
    let r = results.last();
    let full = merged(base, results);
    let dup = exists|k: int| 0 <= k < m.len() && lowercase(#[trigger] m[k].id) == lowercase(r.id);
    assert(full == if dup { m } else { m.push(r) });
    if i < results.len() - 1 {
        lemma_merge_covers_results(base, results.drop_last(), i);
        assert(results.drop_last()[i] == results[i]);
        let j = choose|j: int| 0 <= j < m.len() && lowercase(#[trigger] m[j].id) == lowercase(results[i].id);
        assert(full[j] == m[j]);
        assert(lowercase(full[j].id) == lowercase(results[i].id));
    } else if dup {
        let k = choose|k: int| 0 <= k < m.len() && lowercase(#[trigger] m[k].id) == lowercase(r.id);
        assert(full[k] == m[k]);
        assert(lowercase(full[k].id) == lowercase(results[i].id));
    } else {
        assert(full[m.len() as int] == r);
        assert(lowercase(full[m.len() as int].id) == lowercase(results[i].id));
    }
}

/// Moving the cursor by `delta` rows and back by `delta` rows puts it where it was.
pub proof fn lemma_cycle_back(c: usize, delta: int, len: nat)
    requires
        c < len <= usize::MAX,
    ensures
        cycled(cycled(c, delta, len), -delta, len) == c,
{
    let n = len as int;
    let x = c + delta;
    let y = x % n;
    vstd::arithmetic::div_mod::lemma_mod_bound(x, n);
    vstd::arithmetic::div_mod::lemma_mod_twice(x, n);
    vstd::arithmetic::div_mod::lemma_sub_mod_noop(y, delta, n);
    vstd::arithmetic::div_mod::lemma_sub_mod_noop(x, delta, n);
    vstd::arithmetic::div_mod::lemma_small_mod(c as nat, len);
    assert(0 <= y < n);
    assert(cycled(c, delta, len) as int == y);
    assert(y + (-delta) == y - delta);
}

/// Up then down, or down then up (and the same for a page), on a panel whose
/// cursor is on a row, puts the cursor back.
pub proof fn lemma_move_and_back(m: CreateView, delta: int)
    requires
        m.panel == Panel::Available ==> m.cursor_avail < m.filtered.len(),
        m.panel == Panel::Selected ==> m.cursor_sel < m.selected.len(),
        m.filtered.len() <= usize::MAX,
        m.selected.len() <= usize::MAX,
    ensures
        moved(moved(m, delta), -delta).cursor_avail == m.cursor_avail,
        moved(moved(m, delta), -delta).cursor_sel == m.cursor_sel,
        moved(moved(m, delta), -delta).selected == m.selected,
        moved(moved(m, delta), -delta).filtered == m.filtered,
{
    if m.panel == Panel::Available {
        lemma_cycle_back(m.cursor_avail, delta, m.filtered.len());
    } else {
        lemma_cycle_back(m.cursor_sel, delta, m.selected.len());
    }
}

proof fn lemma_index_of_id_absent_push(sel: Seq<ConfigRecord>, x: ConfigRecord)
    requires
        index_of_id(sel, x.id) == sel.len(),
    ensures
        index_of_id(sel.push(x), x.id) == sel.len(),
    decreases sel.len(),
{
    if sel.len() > 0 {
        assert(sel[0].id != x.id) by {
            lemma_index_of_id_bound(sel, x.id);
        }
        assert(sel.push(x).drop_first() =~= sel.drop_first().push(x));
        lemma_index_of_id_absent_push(sel.drop_first(), x);
    }
}

/// Selecting an application that is not selected, then selecting it again,
/// leaves the selection as it was.
pub proof fn lemma_toggle_twice(m: CreateView, a: AppRecord)
    requires
        index_of_id(m.selected, a.id) == m.selected.len(),
    ensures
        toggled(toggled(m, a), a).selected == m.selected,
{
    lemma_index_of_id_absent_push(m.selected, config_for(a));
    let s = m.selected.push(config_for(a));
    assert(s.remove(m.selected.len() as int) =~= m.selected);
}

/// Selecting an application that is not selected adds it, available, at the end.
pub proof fn lemma_toggle_adds(m: CreateView, a: AppRecord)
    requires
        view_wf(m),
        index_of_id(m.selected, a.id) == m.selected.len(),
    ensures
        toggled(m, a).selected == m.selected.push(config_for(a)),
        view_wf(toggled(m, a)),
{
    lemma_toggled_wf(m, a);
}

// ───────────────────────── what the lists show ─────────────────────────

/// Whether an entry of the selection has the id of `a`.
pub open spec fn is_selected(sel: Seq<ConfigRecord>, a: AppRecord) -> bool {
    exists|i: int| 0 <= i < sel.len() && (#[trigger] sel[i]).id == a.id
}

/// For each row of the available list: whether it is selected, and whether it
/// is installed.
pub open spec fn row_marks(m: CreateView) -> Seq<(bool, bool)> {
    m.filtered.map_values(
        |a: AppRecord|
            (is_selected(m.selected, a), installed_match(m.installed_map, m.installed_entries, a) is Some),
    )
}

/// The marker of a row: `[x]` selected, `[i]` installed, `[ ]` neither.
pub open spec fn marker_text(is_sel: bool, is_inst: bool) -> Seq<char> {
    if is_sel {
        "[x]"@
    } else if is_inst {
        "[i]"@
    } else {
        "[ ]"@
    }
}

/// The number of pages of `len` rows.
pub open spec fn page_count(len: nat) -> nat {
    (len + 14) / 15
}

/// The title of the available panel: the number of rows and the page the cursor is on.
pub open spec fn available_title_text(len: nat, cursor: nat) -> Seq<char> {
    " Available  ("@ + decimal(len as int) + " apps)  Page "@ + decimal((cursor / 15 + 1) as int) + "/"@
        + decimal(page_count(len) as int)
}

/// The title of the selected panel.
pub open spec fn selected_title_text(n: nat) -> Seq<char> {
    " Selected ("@ + decimal(n as int) + ") "@
}

pub open spec fn clamp_width(w: nat, lo: nat, hi: nat) -> nat {
    if w < lo {
        lo
    } else if w > hi {
        hi
    } else {
        w
    }
}

pub open spec fn less_by(a: nat, b: nat) -> nat {
    if a > b {
        (a - b) as nat
    } else {
        0
    }
}

/// The name and id columns of the available panel in an area `width` columns
/// wide: after the borders, the highlight symbol, the marker and the spaces,
/// 40% and 38% of the rest, within 8 to 28 and 8 to 24 columns.
pub open spec fn available_widths_of(width: nat) -> (nat, nat) {
    let avail = less_by(less_by(width, 4), 7);
    (clamp_width(avail * 40 / 100, 8, 28), clamp_width(avail * 38 / 100, 8, 24))
}

/// The name and id columns of the selected panel in an area `width` columns
/// wide: 55% of the inside for the name, within 8 to 25 columns, and the rest
/// but one for the id, within 8 to 22.
pub open spec fn selected_widths_of(width: nat) -> (nat, nat) {
    let content = less_by(width, 4);
    let name = clamp_width(content * 55 / 100, 8, 25);
    (name, clamp_width(less_by(content, name + 1), 8, 22))
}

fn clamp_usize(w: usize, lo: usize, hi: usize) -> (res: usize)
    ensures
        res == clamp_width(w as nat, lo as nat, hi as nat),
{
    if w < lo {
        lo
    } else if w > hi {
        hi
    } else {
        w
    }
}

/// See `marker_text`.
pub fn marker(is_sel: bool, is_inst: bool) -> (res: &'static str)
    ensures
        res@ == marker_text(is_sel, is_inst),
{
    if is_sel {
        "[x]"
    } else if is_inst {
        "[i]"
    } else {
        "[ ]"
    }
}

/// See `available_widths_of`.
pub fn available_widths(width: u16) -> (res: (usize, usize))
    ensures
        res.0 == available_widths_of(width as nat).0,
        res.1 == available_widths_of(width as nat).1,
{
    let w = width as usize;
    let content: usize = if w > 4 { w - 4 } else { 0 };
    let avail: usize = if content > 7 { content - 7 } else { 0 };
    (clamp_usize(avail * 40 / 100, 8, 28), clamp_usize(avail * 38 / 100, 8, 24))
}

/// See `selected_widths_of`.
pub fn selected_widths(width: u16) -> (res: (usize, usize))
    ensures
        res.0 == selected_widths_of(width as nat).0,
        res.1 == selected_widths_of(width as nat).1,
{
    let w = width as usize;
    let content: usize = if w > 4 { w - 4 } else { 0 };
    let name = clamp_usize(content * 55 / 100, 8, 25);
    let rest: usize = if content > name + 1 { content - (name + 1) } else { 0 };
    (name, clamp_usize(rest, 8, 22))
}

impl CreateApp {
    fn is_selected_exec(&self, a: &InstalledApp) -> (res: bool)
        ensures
            res == is_selected(self@.selected, a@),
    {
        let ghost sel = self@.selected;
        let mut k: usize = 0;
        while k < self.selected.len()
            invariant
                k <= self.selected@.len(),
                sel == config_records(self.selected@),
                forall|i: int| 0 <= i < k ==> (#[trigger] sel[i]).id != a@.id,
            decreases self.selected@.len() - k,
        {
            assert(sel[k as int].id == self.selected@[k as int].id@);
            if self.selected[k].id == a.id {
                assert(sel[k as int].id == a@.id);
                return true;
            }
            k = k + 1;
        }
        false
    }

    /// The marks of the rows of the available list (see `row_marks`).
    pub fn available_rows(&self) -> (res: Vec<(bool, bool)>)
        ensures
            res@ == row_marks(self@),
    {
        let ghost want = row_marks(self@);
        let mut out: Vec<(bool, bool)> = Vec::new();
        let mut k: usize = 0;
        while k < self.filtered.len()
            invariant
                k <= self.filtered@.len(),
                want == row_marks(self@),
                out@ == want.take(k as int),
            decreases self.filtered@.len() - k,
        {
            let a = &self.filtered[k];
            assert(self@.filtered[k as int] == a@);
            let sel = self.is_selected_exec(a);
            let inst = self.find_installed(a).is_some();
            out.push((sel, inst));
            assert(want.take(k + 1) =~= want.take(k as int).push(want[k as int]));
            k = k + 1;
        }
        assert(want.take(self.filtered@.len() as int) =~= want);
        out
    }

    /// The title of the available panel.
    pub fn available_title(&self) -> (res: String)
        ensures
            res@ == available_title_text(self@.filtered.len(), self@.cursor_avail as nat),
    {
        let len = self.filtered.len();
        let pages: u128 = (len as u128 + (PAGE_SIZE as u128 - 1)) / (PAGE_SIZE as u128);
        let mut out = chars_of(" Available  (");
        append_chars(&mut out, &usize_digits(len));
        append_chars(&mut out, &chars_of(" apps)  Page "));
        append_chars(&mut out, &usize_digits(self.cursor_avail / PAGE_SIZE + 1));
        append_chars(&mut out, &chars_of("/"));
        append_chars(&mut out, &usize_digits(pages as usize));
        string_of(&out)
    }

    /// The title of the selected panel.
    pub fn selected_title(&self) -> (res: String)
        ensures
            res@ == selected_title_text(self@.selected.len()),
    {
        let mut out = chars_of(" Selected (");
        append_chars(&mut out, &usize_digits(self.selected.len()));
        append_chars(&mut out, &chars_of(") "));
        string_of(&out)
    }
}

/// The applications kept as the user's are exactly the ones that are not
/// system components, in their order.
pub proof fn lemma_user_apps_not_system(patterns: Seq<Seq<char>>, apps: Seq<AppRecord>)
    ensures
        forall|i: int|
            0 <= i < user_apps(patterns, apps).len() ==> !matches_any(
                patterns,
                #[trigger] user_apps(patterns, apps)[i],
            ),
        forall|i: int|
            0 <= i < apps.len() && !matches_any(patterns, #[trigger] apps[i]) ==> user_apps(
                patterns,
                apps,
            ).contains(apps[i]),
{
    broadcast use vstd::seq_lib::group_filter_ensures;

}

} // verus!
