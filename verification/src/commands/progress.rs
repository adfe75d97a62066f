//! The progress screen of an install or uninstall run started from the preset
//! builder: one row per application, moved along by messages from the workers.
use vstd::prelude::*;
use crate::commands::keys::{Key, KeyInput};
use crate::display::{shown_line, strip_ansi_cr, truncate, truncated};
use crate::text::{
    append_chars, chars_of, decimal, is_blank, same_chars, string_of, trim_chars,
    lemma_trim_empty, usize_digits,
};
use crate::types::{config_records, AppConfig, ConfigRecord};

verus! {

/// Where one application of a run stands.
#[derive(Clone, Copy, Debug, PartialEq, Eq, Structural)]
pub enum RunStatus {
    Waiting,
    Running,
    Succeeded,
    Skipped,
    Failed,
}

/// One row of the progress screen.
#[derive(Debug)]
pub struct AppRun {
    pub name: String,
    pub status: RunStatus,
    pub last_line: String,
    pub message: String,
}

pub ghost struct RunView {
    pub name: Seq<char>,
    pub status: RunStatus,
    pub last_line: Seq<char>,
    pub message: Seq<char>,
}

impl View for AppRun {
    type V = RunView;

    open spec fn view(&self) -> RunView {
        RunView {
            name: self.name@,
            status: self.status,
            last_line: self.last_line@,
            message: self.message@,
        }
    }
}

/// The progress screen: a title, the rows, whether the run is over and the
/// message it ended with, and how far the rows are scrolled.
#[derive(Debug)]
pub struct ProgressBoard {
    pub title: String,
    pub apps: Vec<AppRun>,
    pub done: bool,
    pub result_msg: String,
    pub scroll_offset: usize,
}

#[verifier::ext_equal]
pub ghost struct BoardView {
    pub title: Seq<char>,
    pub apps: Seq<RunView>,
    pub done: bool,
    pub result_msg: Seq<char>,
    pub scroll_offset: usize,
}

pub open spec fn run_views(v: Seq<AppRun>) -> Seq<RunView> {
    v.map_values(|r: AppRun| r@)
}

impl View for ProgressBoard {
    type V = BoardView;

    open spec fn view(&self) -> BoardView {
        BoardView {
            title: self.title@,
            apps: run_views(self.apps@),
            done: self.done,
            result_msg: self.result_msg@,
            scroll_offset: self.scroll_offset,
        }
    }
}

/// What a worker reports. The completion it estimates from `winget`'s output is
/// not part of it: that is a fraction, which the screen keeps beside the board.
#[derive(Debug)]
pub enum ProgressMsg {
    AppStart { idx: usize },
    AppProgress { idx: usize, last_line: String },
    AppDone { idx: usize, status: String, message: String },
    Done(String),
}

/// A fresh board: every application waiting, nothing printed yet.
pub open spec fn fresh_board(title: Seq<char>, apps: Seq<ConfigRecord>) -> BoardView {
    BoardView {
        title,
        apps: apps.map_values(
            |a: ConfigRecord|
                RunView {
                    name: a.name,
                    status: RunStatus::Waiting,
                    last_line: Seq::empty(),
                    message: Seq::empty(),
                },
        ),
        done: false,
        result_msg: Seq::empty(),
        scroll_offset: 0,
    }
}

/// The status a worker names: `OK`, `SKIP`, and anything else is a failure.
pub open spec fn status_named(s: Seq<char>) -> RunStatus {
    if s == "OK"@ {
        RunStatus::Succeeded
    } else if s == "SKIP"@ {
        RunStatus::Skipped
    } else {
        RunStatus::Failed
    }
}

/// The board after one message. A message about a row that does not exist
/// changes nothing; a progress line that shows nothing but whitespace is not kept.
pub open spec fn applied(b: BoardView, m: ProgressMsg) -> BoardView {
    match m {
        ProgressMsg::AppStart { idx } => if idx < b.apps.len() {
            BoardView {
                apps: b.apps.update(idx as int, RunView { status: RunStatus::Running, ..b.apps[idx as int] }),
                ..b
            }
        } else {
            b
        },
        ProgressMsg::AppProgress { idx, last_line } => if idx < b.apps.len() && !is_blank(
            shown_line(last_line@),
        ) {
            BoardView {
                apps: b.apps.update(
                    idx as int,
                    RunView { last_line: shown_line(last_line@), ..b.apps[idx as int] },
                ),
                ..b
            }
        } else {
            b
        },
        ProgressMsg::AppDone { idx, status, message } => if idx < b.apps.len() {
            BoardView {
                apps: b.apps.update(
                    idx as int,
                    RunView { status: status_named(status@), message: message@, ..b.apps[idx as int] },
                ),
                ..b
            }
        } else {
            b
        },
        ProgressMsg::Done(msg) => BoardView { done: true, result_msg: msg@, ..b },
    }
}

/// The board after the messages, in order.
pub open spec fn applied_all(b: BoardView, msgs: Seq<ProgressMsg>) -> BoardView
    decreases msgs.len(),
{
    if msgs.len() == 0 {
        b
    } else {
        applied(applied_all(b, msgs.drop_last()), msgs.last())
    }
}

/// The board after a key: up (or `k`) scrolls one row back, down (or `j`) one
/// row on while the last row is not at the top.
pub open spec fn scrolled(b: BoardView, key: KeyInput) -> BoardView {
    if !key.press {
        b
    } else {
        match key.code {
            Key::Up => BoardView {
                scroll_offset: if b.scroll_offset > 0 { (b.scroll_offset - 1) as usize } else { 0 },
                ..b
            },
            Key::Char('k') => BoardView {
                scroll_offset: if b.scroll_offset > 0 { (b.scroll_offset - 1) as usize } else { 0 },
                ..b
            },
            Key::Down => if b.apps.len() > 0 && b.scroll_offset < b.apps.len() - 1 {
                BoardView { scroll_offset: (b.scroll_offset + 1) as usize, ..b }
            } else {
                b
            },
            Key::Char('j') => if b.apps.len() > 0 && b.scroll_offset < b.apps.len() - 1 {
                BoardView { scroll_offset: (b.scroll_offset + 1) as usize, ..b }
            } else {
                b
            },
            _ => b,
        }
    }
}

fn is_named(s: &String, name: &str) -> (res: bool)
    ensures
        res == (s@ == name@),
{
    let a = chars_of(s.as_str());
    let b = chars_of(name);
    same_chars(&a, &b)
}

impl ProgressBoard {
    /// The board of a run over `apps`, titled `title`.
    pub fn new(title: &str, apps: &Vec<AppConfig>) -> (res: ProgressBoard)
        ensures
            res@ == fresh_board(title@, config_records(apps@)),
    {
        let ghost want = fresh_board(title@, config_records(apps@)).apps;
        let mut runs: Vec<AppRun> = Vec::new();
        let mut k: usize = 0;
        while k < apps.len()
            invariant
                k <= apps@.len(),
                want == fresh_board(title@, config_records(apps@)).apps,
                run_views(runs@) == want.take(k as int),
            decreases apps@.len() - k,
        {
            let ghost before = run_views(runs@);
            runs.push(
                AppRun {
                    name: apps[k].name.clone(),
                    status: RunStatus::Waiting,
                    last_line: String::new(),
                    message: String::new(),
                },
            );
            assert(run_views(runs@) =~= before.push(want[k as int]));
            assert(want.take(k + 1) =~= want.take(k as int).push(want[k as int]));
            k = k + 1;
        }
        assert(want.take(apps@.len() as int) =~= want);
        let res = ProgressBoard {
            title: String::from_str(title),
            apps: runs,
            done: false,
            result_msg: String::new(),
            scroll_offset: 0,
        };
        assert(res@ =~= fresh_board(title@, config_records(apps@)));
        res
    }

    /// Takes one message from a worker.
    pub fn apply(&mut self, msg: ProgressMsg)
        ensures
            final(self)@ == applied(old(self)@, msg),
    {
        let ghost b = self@;
        match msg {
            ProgressMsg::AppStart { idx } => {
                if idx < self.apps.len() {
                    self.apps[idx].status = RunStatus::Running;
                    assert(run_views(self.apps@) =~= b.apps.update(
                        idx as int,
                        RunView { status: RunStatus::Running, ..b.apps[idx as int] },
                    ));
                }
            },
            ProgressMsg::AppProgress { idx, last_line } => {
                if idx < self.apps.len() {
                    let clean = strip_ansi_cr(last_line.as_str());
                    let cc = chars_of(clean.as_str());
                    let t = trim_chars(&cc);
                    proof {
                        lemma_trim_empty(cc@);
                    }
                    if t.len() > 0 {
                        self.apps[idx].last_line = clean;
                        assert(run_views(self.apps@) =~= b.apps.update(
                            idx as int,
                            RunView { last_line: shown_line(last_line@), ..b.apps[idx as int] },
                        ));
                    }
                }
            },
            ProgressMsg::AppDone { idx, status, message } => {
                if idx < self.apps.len() {
                    let st = if is_named(&status, "OK") {
                        RunStatus::Succeeded
                    } else if is_named(&status, "SKIP") {
                        RunStatus::Skipped
                    } else {
                        RunStatus::Failed
                    };
                    self.apps[idx].status = st;
                    self.apps[idx].message = message;
                    assert(run_views(self.apps@) =~= b.apps.update(
                        idx as int,
                        RunView { status: status_named(status@), message: message@, ..b.apps[idx as int] },
                    ));
                }
            },
            ProgressMsg::Done(m) => {
                self.done = true;
                self.result_msg = m;
            },
        }
        assert(self@ =~= applied(b, msg));
    }

    /// Takes the messages that arrived, in order; when the workers are gone
    /// (`disconnected`), the run is over.
    pub fn apply_all(&mut self, msgs: Vec<ProgressMsg>, disconnected: bool)
        ensures
            final(self)@ == (if disconnected {
                BoardView { done: true, ..applied_all(old(self)@, msgs@) }
            } else {
                applied_all(old(self)@, msgs@)
            }),
    {
        let ghost all = msgs@;
        let ghost b0 = self@;
        let mut rest = msgs;
        let total = rest.len();
        let mut k: usize = 0;
        assert(all.skip(0) =~= all);
        while rest.len() > 0
            invariant
                k + rest@.len() == all.len(),
                all.len() == total,
                rest@ == all.skip(k as int),
                self@ == applied_all(b0, all.take(k as int)),
            decreases rest@.len(),
        {
            let m = rest.remove(0);
            proof {
                assert(all.skip(k as int)[0] == all[k as int]);
                assert(all.take(k + 1).drop_last() =~= all.take(k as int));
                assert(rest@ =~= all.skip(k + 1));
            }
            self.apply(m);
            k = k + 1;
        }
        assert(all.take(all.len() as int) =~= all);
        if disconnected {
            self.done = true;
        }
    }

    /// Takes a key.
    pub fn scroll(&mut self, key: KeyInput)
        ensures
            final(self)@ == scrolled(old(self)@, key),
    {
        let ghost b = self@;
        if key.press {
            match key.code {
                Key::Up => {
                    self.scroll_offset = if self.scroll_offset > 0 { self.scroll_offset - 1 } else { 0 };
                },
                Key::Down => {
                    if self.apps.len() > 0 && self.scroll_offset < self.apps.len() - 1 {
                        self.scroll_offset = self.scroll_offset + 1;
                    }
                },
                Key::Char(c) => {
                    if c == 'k' {
                        self.scroll_offset = if self.scroll_offset > 0 { self.scroll_offset - 1 } else { 0 };
                    } else if c == 'j' {
                        if self.apps.len() > 0 && self.scroll_offset < self.apps.len() - 1 {
                            self.scroll_offset = self.scroll_offset + 1;
                        }
                    }
                },
                _ => {},
            }
        }
        assert(self@ =~= scrolled(b, key));
    }
}

// ───────────────────────── what the screen shows ─────────────────────────

/// How many rows have the status `s`.
pub open spec fn count_status(apps: Seq<RunView>, s: RunStatus) -> nat {
    apps.filter(|r: RunView| r.status == s).len()
}

/// A status that ends an application's run.
pub open spec fn is_finished(s: RunStatus) -> bool {
    s == RunStatus::Succeeded || s == RunStatus::Skipped || s == RunStatus::Failed
}

/// How many rows are finished.
pub open spec fn count_finished(apps: Seq<RunView>) -> nat {
    apps.filter(|r: RunView| is_finished(r.status)).len()
}

/// The title once the run is over.
pub open spec fn summary_title(b: BoardView) -> Seq<char> {
    if count_status(b.apps, RunStatus::Failed) == 0 {
        b.title + " \u{2013} Complete"@
    } else {
        b.title + " \u{2013} Complete (with errors)"@
    }
}

/// The counts once the run is over.
pub open spec fn summary_line(b: BoardView) -> Seq<char> {
    "  \u{2713} OK: "@ + decimal(count_status(b.apps, RunStatus::Succeeded) as int)
        + "   \u{2717} Failed: "@ + decimal(count_status(b.apps, RunStatus::Failed) as int)
        + "   \u{2500} Skipped: "@ + decimal(count_status(b.apps, RunStatus::Skipped) as int)
        + "    [Enter] return to app list"@
}

/// The counts while the run goes on.
pub open spec fn running_line(b: BoardView) -> Seq<char> {
    "  Running: "@ + decimal(count_status(b.apps, RunStatus::Running) as int) + "  Waiting: "@
        + decimal(count_status(b.apps, RunStatus::Waiting) as int) + "    [\u{2191}\u{2193}/j/k] scroll"@
}

/// The label of the overall gauge: finished rows out of all rows.
pub open spec fn gauge_label(b: BoardView) -> Seq<char> {
    decimal(count_finished(b.apps) as int) + "/"@ + decimal(b.apps.len() as int)
}

/// The title of the list of rows.
pub open spec fn list_title(b: BoardView, in_progress: bool) -> Seq<char> {
    if in_progress {
        "Applications ("@ + decimal(count_status(b.apps, RunStatus::Running) as int) + " running)"@
    } else {
        "Results ("@ + decimal(b.apps.len() as int) + " apps)"@
    }
}

/// The width of the name column in a list `inner` columns wide: a third,
/// between 12 and 30.
pub open spec fn row_name_width(inner: nat) -> nat {
    let third = inner / 3;
    if third < 12 {
        12
    } else if third > 30 {
        30
    } else {
        third
    }
}

/// The width left for a row's last line: after the marker, the name, a space
/// and, while the run goes on, the bar and the percentage.
pub open spec fn row_last_width(inner: nat, in_progress: bool) -> nat {
    let used = 2 + row_name_width(inner) + 1 + if in_progress { 24nat } else { 0nat };
    if inner > used {
        (inner - used) as nat
    } else {
        0
    }
}

/// What a row shows after its name: `waiting…`, the line `winget` printed
/// last, or the message the run ended with, truncated to `last_w` columns (at
/// least one).
pub open spec fn row_tail_text(r: RunView, last_w: nat) -> Seq<char> {
    let w = if last_w == 0 { 1nat } else { last_w };
    match r.status {
        RunStatus::Waiting => "waiting\u{2026}"@,
        RunStatus::Running => truncated(r.last_line, w),
        _ => truncated(r.message, w),
    }
}

/// The mark of a row that is not running (a running row shows a spinner).
pub open spec fn row_mark_text(s: RunStatus) -> Seq<char> {
    match s {
        RunStatus::Waiting => "\u{b7}"@,
        RunStatus::Running => "\u{b7}"@,
        RunStatus::Succeeded => "\u{2713}"@,
        RunStatus::Skipped => "\u{2500}"@,
        RunStatus::Failed => "\u{2717}"@,
    }
}

fn is_finished_exec(s: RunStatus) -> (res: bool)
    ensures
        res == is_finished(s),
{
    match s {
        RunStatus::Succeeded | RunStatus::Skipped | RunStatus::Failed => true,
        _ => false,
    }
}

fn same_status(a: RunStatus, b: RunStatus) -> (res: bool)
    ensures
        res == (a == b),
{
    match (a, b) {
        (RunStatus::Waiting, RunStatus::Waiting) => true,
        (RunStatus::Running, RunStatus::Running) => true,
        (RunStatus::Succeeded, RunStatus::Succeeded) => true,
        (RunStatus::Skipped, RunStatus::Skipped) => true,
        (RunStatus::Failed, RunStatus::Failed) => true,
        _ => false,
    }
}

impl ProgressBoard {
    /// How many rows have the status `s`.
    pub fn count(&self, s: RunStatus) -> (res: usize)
        ensures
            res == count_status(self@.apps, s),
    {
        let ghost all = self@.apps;
        let ghost pred = |r: RunView| r.status == s;
        let mut n: usize = 0;
        let mut k: usize = 0;
        while k < self.apps.len()
            invariant
                k <= self.apps@.len(),
                all == self@.apps,
                pred == (|r: RunView| r.status == s),
                n == all.take(k as int).filter(pred).len(),
                n <= k,
            decreases self.apps@.len() - k,
        {
            reveal_with_fuel(Seq::<_>::filter, 1);
            assert(all.take(k + 1).drop_last() =~= all.take(k as int));
            assert(all[k as int] == self.apps@[k as int]@);
            if same_status(self.apps[k].status, s) {
                n = n + 1;
            }
            k = k + 1;
        }
        assert(all.take(self.apps@.len() as int) =~= all);
        n
    }

    /// How many rows are finished.
    pub fn finished(&self) -> (res: usize)
        ensures
            res == count_finished(self@.apps),
    {
        let ghost all = self@.apps;
        let ghost pred = |r: RunView| is_finished(r.status);
        let mut n: usize = 0;
        let mut k: usize = 0;
        while k < self.apps.len()
            invariant
                k <= self.apps@.len(),
                all == self@.apps,
                pred == (|r: RunView| is_finished(r.status)),
                n == all.take(k as int).filter(pred).len(),
                n <= k,
            decreases self.apps@.len() - k,
        {
            reveal_with_fuel(Seq::<_>::filter, 1);
            assert(all.take(k + 1).drop_last() =~= all.take(k as int));
            assert(all[k as int] == self.apps@[k as int]@);
            if is_finished_exec(self.apps[k].status) {
                n = n + 1;
            }
            k = k + 1;
        }
        assert(all.take(self.apps@.len() as int) =~= all);
        n
    }

    pub fn summary_title(&self) -> (res: String)
        ensures
            res@ == summary_title(self@),
    {
        let mut out = chars_of(self.title.as_str());
        if self.count(RunStatus::Failed) == 0 {
            append_chars(&mut out, &chars_of(" \u{2013} Complete"));
        } else {
            append_chars(&mut out, &chars_of(" \u{2013} Complete (with errors)"));
        }
        string_of(&out)
    }

    pub fn summary_line(&self) -> (res: String)
        ensures
            res@ == summary_line(self@),
    {
        let mut out = chars_of("  \u{2713} OK: ");
        append_chars(&mut out, &usize_digits(self.count(RunStatus::Succeeded)));
        append_chars(&mut out, &chars_of("   \u{2717} Failed: "));
        append_chars(&mut out, &usize_digits(self.count(RunStatus::Failed)));
        append_chars(&mut out, &chars_of("   \u{2500} Skipped: "));
        append_chars(&mut out, &usize_digits(self.count(RunStatus::Skipped)));
        append_chars(&mut out, &chars_of("    [Enter] return to app list"));
        string_of(&out)
    }

    pub fn running_line(&self) -> (res: String)
        ensures
            res@ == running_line(self@),
    {
        let mut out = chars_of("  Running: ");
        append_chars(&mut out, &usize_digits(self.count(RunStatus::Running)));
        append_chars(&mut out, &chars_of("  Waiting: "));
        append_chars(&mut out, &usize_digits(self.count(RunStatus::Waiting)));
        append_chars(&mut out, &chars_of("    [\u{2191}\u{2193}/j/k] scroll"));
        string_of(&out)
    }

    pub fn gauge_label(&self) -> (res: String)
        ensures
            res@ == gauge_label(self@),
    {
        let mut out = usize_digits(self.finished());
        append_chars(&mut out, &chars_of("/"));
        append_chars(&mut out, &usize_digits(self.apps.len()));
        string_of(&out)
    }

    pub fn list_title(&self, in_progress: bool) -> (res: String)
        ensures
            res@ == list_title(self@, in_progress),
    {
        if in_progress {
            let mut out = chars_of("Applications (");
            append_chars(&mut out, &usize_digits(self.count(RunStatus::Running)));
            append_chars(&mut out, &chars_of(" running)"));
            string_of(&out)
        } else {
            let mut out = chars_of("Results (");
            append_chars(&mut out, &usize_digits(self.apps.len()));
            append_chars(&mut out, &chars_of(" apps)"));
            string_of(&out)
        }
    }
}

/// The widths of the name column and of the last line in a list `inner` columns wide.
pub fn row_widths(inner: usize, in_progress: bool) -> (res: (usize, usize))
    ensures
        res.0 == row_name_width(inner as nat),
        res.1 == row_last_width(inner as nat, in_progress),
{
    let third = inner / 3;
    let name_w: usize = if third < 12 {
        12
    } else if third > 30 {
        30
    } else {
        third
    };
    let bar: usize = if in_progress { 24 } else { 0 };
    let used = 2 + name_w + 1 + bar;
    let last_w = if inner > used { inner - used } else { 0 };
    (name_w, last_w)
}

/// What a row shows after its name (see `row_tail_text`).
pub fn row_tail(r: &AppRun, last_w: usize) -> (res: String)
    ensures
        res@ == row_tail_text(r@, last_w as nat),
{
    let w: usize = if last_w == 0 { 1 } else { last_w };
    match r.status {
        RunStatus::Waiting => String::from_str("waiting\u{2026}"),
        RunStatus::Running => truncate(r.last_line.as_str(), w),
        _ => truncate(r.message.as_str(), w),
    }
}

/// The mark of a row (see `row_mark_text`).
pub fn row_mark(s: RunStatus) -> (res: &'static str)
    ensures
        res@ == row_mark_text(s),
{
    match s {
        RunStatus::Waiting => "\u{b7}",
        RunStatus::Running => "\u{b7}",
        RunStatus::Succeeded => "\u{2713}",
        RunStatus::Skipped => "\u{2500}",
        RunStatus::Failed => "\u{2717}",
    }
}

/// The message that the run of row `idx` ended: `OK` when it succeeded, else
/// `FAIL`, with the run's message.
pub fn done_message(idx: usize, result: crate::services::winget::InstallResult) -> (res: ProgressMsg)
    ensures
        res matches ProgressMsg::AppDone { idx: i, status, message } && i == idx && status@ == (if result.success {
            "OK"@
        } else {
            "FAIL"@
        }) && message@ == result.message@,
{
    let status = if result.success {
        String::from_str("OK")
    } else {
        String::from_str("FAIL")
    };
    ProgressMsg::AppDone { idx, status, message: result.message }
}

/// The workers' messages never add, drop or rename a row of the board.
pub proof fn lemma_messages_keep_rows(b: BoardView, msgs: Seq<ProgressMsg>)
    ensures
        applied_all(b, msgs).apps.len() == b.apps.len(),
        forall|i: int| 0 <= i < b.apps.len() ==> (#[trigger] applied_all(b, msgs).apps[i]).name == b.apps[i].name,
    decreases msgs.len(),
{
    if msgs.len() > 0 {
        lemma_messages_keep_rows(b, msgs.drop_last());
    }
}

/// A run that is over stays over, whatever messages come after.
pub proof fn lemma_done_stays_done(b: BoardView, msgs: Seq<ProgressMsg>)
    requires
        b.done,
    ensures
        applied_all(b, msgs).done,
    decreases msgs.len(),
{
    if msgs.len() > 0 {
        lemma_done_stays_done(b, msgs.drop_last());
    }
}

} // verus!
