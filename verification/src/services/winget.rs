//! The `winget` service: which installed applications are system components,
//! how `winget` and registry output become application lists, and what an
//! install or uninstall run amounts to.
//!
//! Running `winget` and `reg` is left to the caller; everything here works on
//! what those commands printed.
use vstd::prelude::*;
use crate::order::{key_views, sort_by_keys, sorted_by_keys, SortKey};
use crate::pattern::{regex_compiles, regex_is_match, CompiledRegex};
use crate::services::registry::{parse_registry_uninstall_output, registry_apps};
use crate::services::table::{clean_table_lines, parse_table_lines, table_lines, table_rows};
use crate::text::{
    append_chars, chars_of, contains_chars, from_utf8_lossy, has_sub, is_blank, lines, lines_of,
    lowercase, seqs_of, string_of, to_lowercase, trim, trim_chars, utf8_lossy,
    decimal, format_i64, lemma_trim_empty,
};
use crate::types::{records, AppRecord, InstalledApp};

verus! {

/// What an install or uninstall run came to.
#[derive(Debug)]
pub struct InstallResult {
    pub success: bool,
    pub message: String,
}

/// The patterns of package ids and names that are system components, drivers or
/// runtimes rather than applications a user chose.
pub open spec fn excluded_patterns() -> Seq<Seq<char>> {
    seq![
        "(?i)^Microsoft\\.NET"@,
        "(?i)^Microsoft\\.VCRedist"@,
        "(?i)^Microsoft\\.VC\\+\\+"@,
        "(?i)^Microsoft\\.UI\\.Xaml"@,
        "(?i)^Microsoft\\.Windows"@,
        "(?i)^Microsoft\\.DirectX"@,
        "(?i)^Microsoft\\.GameInput"@,
        "(?i)^Microsoft\\.Update"@,
        "(?i)^Microsoft\\.VSS"@,
        "(?i)^Microsoft\\.ODBC"@,
        "(?i)^Microsoft\\.OLE"@,
        "(?i)^Microsoft\\.Help"@,
        "(?i)^Microsoft\\.SQL.*Setup"@,
        "(?i)^Microsoft\\.VisualStudio\\.Installer"@,
        "(?i)^Microsoft\\.VisualStudio\\.Tools"@,
        "(?i)WindowsAppRuntime"@,
        "(?i)WindowsDesktopRuntime"@,
        "(?i)^ARP\\\\"@,
        "(?i)^MSIX\\\\"@,
        "(?i)Driver"@,
        "(?i)^NVIDIA\\.Control"@,
        "(?i)^Realtek"@,
        "(?i)^Synaptics"@,
        "(?i)^Intel\\."@,
        "(?i)^AMD\\."@,
        "(?i)Redistributable"@,
        "(?i)Runtime Package"@,
        "(?i)\\.Net.*Runtime"@,
        "(?i)^dotnet"@,
        "(?i)^Microsoft\\.Advertising"@,
        "(?i)^Microsoft\\.Services"@,
        "(?i)^Microsoft\\.StorePurchase"@,
        "(?i)^Microsoft\\.VP9"@,
        "(?i)^Microsoft\\.HEVC"@,
        "(?i)^Microsoft\\.AV1"@,
        "(?i)^Microsoft\\.MPEG"@,
        "(?i)^Microsoft\\.WebMedia"@,
        "(?i)^Microsoft\\.WebP"@,
        "(?i)^Microsoft\\.Raw"@,
        "(?i)^Microsoft\\.HEIFImage"@,
        "(?i)Local Experience Pack"@,
        "(?i)Language Pack"@,
        "(?i)Speech Pack"@,
        "Pakiet lokalizacyjny"@,
        "\u{672c}\u{5730}\u{4f53}\u{9a8c}\u{5305}"@,
        "(?i)^Microsoft\\.Xbox.*Provider"@,
        "(?i)^Microsoft\\.Xbox.*Plugin"@,
        "(?i)^Microsoft\\.Gaming"@,
        "(?i)^Microsoft\\.Wallet"@,
        "(?i)^Microsoft\\.People"@,
        "(?i)^Microsoft\\.GetHelp"@,
        "(?i)^Microsoft\\.Getstarted"@,
        "(?i)^Microsoft\\.MixedReality"@,
        "(?i)^Microsoft\\.549981"@,
        "(?i)^Microsoft\\.BingNews"@,
        "(?i)^Microsoft\\.BingWeather"@,
        "(?i)^Microsoft\\.ZuneMusic"@,
        "(?i)^Microsoft\\.ZuneVideo"@,
        "(?i)Widget.*Runtime"@,
        "Host \u{15b}rodowiska"@,
        "Us\u{142}ugi gier"@
    ]
}

fn excluded_pattern_list() -> (res: Vec<&'static str>)
    ensures
        res@.map_values(|p: &str| p@) == excluded_patterns(),
{
    let v = vec![
        "(?i)^Microsoft\\.NET",
        "(?i)^Microsoft\\.VCRedist",
        "(?i)^Microsoft\\.VC\\+\\+",
        "(?i)^Microsoft\\.UI\\.Xaml",
        "(?i)^Microsoft\\.Windows",
        "(?i)^Microsoft\\.DirectX",
        "(?i)^Microsoft\\.GameInput",
        "(?i)^Microsoft\\.Update",
        "(?i)^Microsoft\\.VSS",
        "(?i)^Microsoft\\.ODBC",
        "(?i)^Microsoft\\.OLE",
        "(?i)^Microsoft\\.Help",
        "(?i)^Microsoft\\.SQL.*Setup",
        "(?i)^Microsoft\\.VisualStudio\\.Installer",
        "(?i)^Microsoft\\.VisualStudio\\.Tools",
        "(?i)WindowsAppRuntime",
        "(?i)WindowsDesktopRuntime",
        "(?i)^ARP\\\\",
        "(?i)^MSIX\\\\",
        "(?i)Driver",
        "(?i)^NVIDIA\\.Control",
        "(?i)^Realtek",
        "(?i)^Synaptics",
        "(?i)^Intel\\.",
        "(?i)^AMD\\.",
        "(?i)Redistributable",
        "(?i)Runtime Package",
        "(?i)\\.Net.*Runtime",
        "(?i)^dotnet",
        "(?i)^Microsoft\\.Advertising",
        "(?i)^Microsoft\\.Services",
        "(?i)^Microsoft\\.StorePurchase",
        "(?i)^Microsoft\\.VP9",
        "(?i)^Microsoft\\.HEVC",
        "(?i)^Microsoft\\.AV1",
        "(?i)^Microsoft\\.MPEG",
        "(?i)^Microsoft\\.WebMedia",
        "(?i)^Microsoft\\.WebP",
        "(?i)^Microsoft\\.Raw",
        "(?i)^Microsoft\\.HEIFImage",
        "(?i)Local Experience Pack",
        "(?i)Language Pack",
        "(?i)Speech Pack",
        "Pakiet lokalizacyjny",
        "\u{672c}\u{5730}\u{4f53}\u{9a8c}\u{5305}",
        "(?i)^Microsoft\\.Xbox.*Provider",
        "(?i)^Microsoft\\.Xbox.*Plugin",
        "(?i)^Microsoft\\.Gaming",
        "(?i)^Microsoft\\.Wallet",
        "(?i)^Microsoft\\.People",
        "(?i)^Microsoft\\.GetHelp",
        "(?i)^Microsoft\\.Getstarted",
        "(?i)^Microsoft\\.MixedReality",
        "(?i)^Microsoft\\.549981",
        "(?i)^Microsoft\\.BingNews",
        "(?i)^Microsoft\\.BingWeather",
        "(?i)^Microsoft\\.ZuneMusic",
        "(?i)^Microsoft\\.ZuneVideo",
        "(?i)Widget.*Runtime",
        "Host \u{15b}rodowiska",
        "Us\u{142}ugi gier"
    ];
    assert(v@.map_values(|p: &str| p@) =~= excluded_patterns());
    v
}

/// Talks to `winget`; holds the compiled system-component patterns.
pub struct WingetService {
    excluded: Vec<CompiledRegex>,
}

pub open spec fn regex_views(v: Seq<CompiledRegex>) -> Seq<Seq<char>> {
    v.map_values(|r: CompiledRegex| r@)
}

/// Whether an application matches one of `patterns` by id or by name.
pub open spec fn matches_any(patterns: Seq<Seq<char>>, app: AppRecord) -> bool {
    exists|i: int|
        0 <= i < patterns.len() && (regex_is_match(patterns[i], app.id) || regex_is_match(
            patterns[i],
            app.name,
        ))
}

/// An application is a system component exactly when some pattern matches its
/// id or its name: a match on the name alone is enough, and so is a match on
/// the id alone.
pub proof fn lemma_matches_any(patterns: Seq<Seq<char>>, app: AppRecord, i: int)
    requires
        0 <= i < patterns.len(),
    ensures
        regex_is_match(patterns[i], app.name) ==> matches_any(patterns, app),
        regex_is_match(patterns[i], app.id) ==> matches_any(patterns, app),
        !matches_any(patterns, app) ==> !regex_is_match(patterns[i], app.name) && !regex_is_match(
            patterns[i],
            app.id,
        ),
{
}

impl WingetService {
    /// The patterns this service tests applications against.
    pub closed spec fn patterns(&self) -> Seq<Seq<char>> {
        regex_views(self.excluded@)
    }

    /// A service with every system-component pattern that compiles.
    pub fn new() -> (res: Self)
        ensures
            res.patterns() == excluded_patterns().filter(|p: Seq<char>| regex_compiles(p)),
    {
        let list = excluded_pattern_list();
        let ghost all = excluded_patterns();
        let ghost ok = |p: Seq<char>| regex_compiles(p);
        let mut excluded: Vec<CompiledRegex> = Vec::new();
        let mut k: usize = 0;
        while k < list.len()
            invariant
                k <= list@.len(),
                all == list@.map_values(|p: &str| p@),
                ok == (|p: Seq<char>| regex_compiles(p)),
                regex_views(excluded@) == all.take(k as int).filter(ok),
            decreases list@.len() - k,
        {
            let ghost before = regex_views(excluded@);
            let ghost x = all[k as int];
            assert(list@[k as int]@ == x);
            reveal_with_fuel(Seq::<_>::filter, 1);
            assert(all.take(k + 1).drop_last() =~= all.take(k as int));
            assert(all.take(k + 1).last() == x);
            match CompiledRegex::new(list[k]) {
                Some(re) => {
                    excluded.push(re);
                    assert(regex_views(excluded@) =~= before.push(x));
                },
                None => {},
            }
            k = k + 1;
        }
        assert(all.take(list@.len() as int) =~= all);
        WingetService { excluded }
    }

    /// Whether an application is a system component, driver or runtime: its id or
    /// its name matches one of the patterns.
    pub fn is_system_app(&self, app: &InstalledApp) -> (res: bool)
        ensures
            res == matches_any(self.patterns(), app@),
            res == exists|i: int|
                0 <= i < self.patterns().len() && (regex_is_match(
                    #[trigger] self.patterns()[i],
                    app.id@,
                ) || regex_is_match(self.patterns()[i], app.name@)),
    {
        let ghost ps = self.patterns();
        let mut k: usize = 0;
        while k < self.excluded.len()
            invariant
                k <= self.excluded@.len(),
                ps == regex_views(self.excluded@),
                forall|i: int|
                    0 <= i < k ==> !(regex_is_match(#[trigger] ps[i], app.id@) || regex_is_match(
                        ps[i],
                        app.name@,
                    )),
            decreases self.excluded@.len() - k,
        {
            let re = &self.excluded[k];
            assert(ps[k as int] == re@);
            if re.is_match(app.id.as_str()) || re.is_match(app.name.as_str()) {
                return true;
            }
            k = k + 1;
        }
        false
    }

    /// The packages in a table printed by `winget list` or `winget search`.
    pub fn parse_table(&self, raw: &str) -> (res: Vec<InstalledApp>)
        ensures
            records(res@) == table_rows(table_lines(raw@)),
    {
        let lines = clean_table_lines(raw);
        parse_table_lines(&lines)
    }
}


// ───────────────────────── runs of winget ─────────────────────────

/// The text of a finished command: its standard output, then, if it wrote any
/// error output, a newline (unless the output is empty or already ends in one)
/// and the error output; both decoded leniently as UTF-8.
pub open spec fn command_output(out: Seq<u8>, err: Seq<u8>) -> Seq<char> {
    let t = utf8_lossy(out);
    if err.len() == 0 {
        t
    } else if t.len() > 0 && t.last() != '\n' {
        t.push('\n') + utf8_lossy(err)
    } else {
        t + utf8_lossy(err)
    }
}

/// The text a command printed, standard output first.
pub fn command_text(stdout: Vec<u8>, stderr: Vec<u8>) -> (res: String)
    ensures
        res@ == command_output(stdout@, stderr@),
{
    let text = from_utf8_lossy(stdout.as_slice());
    if stderr.len() == 0 {
        return text;
    }
    let mut v = chars_of(text.as_str());
    let n = v.len();
    if n > 0 && v[n - 1] != '\n' {
        v.push('\n');
    }
    let err = from_utf8_lossy(stderr.as_slice());
    let e = chars_of(err.as_str());
    append_chars(&mut v, &e);
    string_of(&v)
}

/// The last line of some output, or `fallback` when it has none.
pub open spec fn last_line_or(s: Seq<char>, fallback: Seq<char>) -> Seq<char> {
    if lines(s).len() > 0 {
        lines(s).last()
    } else {
        fallback
    }
}

pub ghost struct Outcome {
    pub success: bool,
    pub message: Seq<char>,
}

impl InstallResult {
    pub open spec fn outcome(&self) -> Outcome {
        Outcome { success: self.success, message: self.message@ }
    }
}

/// What an install run came to. It succeeded when the package is installed
/// afterwards or `winget` exited successfully; then it reports "Already installed"
/// when the package was installed before and `winget` said so, else "Installed
/// successfully". A failed run reports the last line `winget` printed.
pub open spec fn install_outcome(
    was_installed: bool,
    is_installed: bool,
    exited_ok: bool,
    output: Seq<char>,
) -> Outcome {
    if is_installed || exited_ok {
        if was_installed && has_sub(output, "already installed"@) {
            Outcome { success: true, message: "Already installed"@ }
        } else {
            Outcome { success: true, message: "Installed successfully"@ }
        }
    } else {
        Outcome { success: false, message: last_line_or(output, "Installation failed"@) }
    }
}

/// What an uninstall run came to: it succeeded when the package is gone
/// afterwards or `winget` exited successfully.
pub open spec fn uninstall_outcome(is_installed: bool, exited_ok: bool) -> Outcome {
    if !is_installed || exited_ok {
        Outcome { success: true, message: "Uninstalled successfully"@ }
    } else {
        Outcome { success: false, message: "Uninstall failed \u{2013} app still installed"@ }
    }
}

/// Judges an install run from whether the package was installed before and
/// after it, how `winget` exited, and what it printed.
pub fn install_result(was_installed: bool, is_installed: bool, exited_ok: bool, output: &str) -> (res: InstallResult)
    ensures
        res.outcome() == install_outcome(was_installed, is_installed, exited_ok, output@),
{
    if is_installed || exited_ok {
        let out = chars_of(output);
        let phrase = chars_of("already installed");
        if was_installed && contains_chars(&out, &phrase) {
            InstallResult { success: true, message: String::from_str("Already installed") }
        } else {
            InstallResult { success: true, message: String::from_str("Installed successfully") }
        }
    } else {
        let out = chars_of(output);
        let ls = lines_of(&out);
        let n = ls.len();
        let message = if n > 0 {
            assert(ls@[n - 1]@ == seqs_of(ls@).last());
            string_of(&ls[n - 1])
        } else {
            String::from_str("Installation failed")
        };
        InstallResult { success: false, message }
    }
}

/// Judges an uninstall run from whether the package is still installed and how
/// `winget` exited.
pub fn uninstall_result(is_installed: bool, exited_ok: bool) -> (res: InstallResult)
    ensures
        res.outcome() == uninstall_outcome(is_installed, exited_ok),
{
    if !is_installed || exited_ok {
        InstallResult { success: true, message: String::from_str("Uninstalled successfully") }
    } else {
        InstallResult {
            success: false,
            message: String::from_str("Uninstall failed \u{2013} app still installed"),
        }
    }
}

// ───────────────────────── looking up packages ─────────────────────────

/// An application whose id is `id`, ignoring case.
pub open spec fn has_app_id(apps: Seq<AppRecord>, id: Seq<char>) -> bool {
    exists|i: int| 0 <= i < apps.len() && lowercase(#[trigger] apps[i].id) == lowercase(id)
}

/// ASCII upper-case letters lowered; every other character kept.
pub open spec fn ascii_lower(c: char) -> char {
    if 'A' <= c && c <= 'Z' {
        ((c as u32) + 32) as char
    } else {
        c
    }
}

/// Equal strings up to the case of ASCII letters (`str::eq_ignore_ascii_case`).
pub open spec fn eq_ignore_ascii_case(a: Seq<char>, b: Seq<char>) -> bool {
    a.len() == b.len() && forall|i: int| 0 <= i < a.len() ==> ascii_lower(#[trigger] a[i]) == ascii_lower(b[i])
}

fn lower_code(c: char) -> (r: u32)
    ensures
        r == ascii_lower(c) as u32,
{
    if 'A' <= c && c <= 'Z' {
        (c as u32) + 32
    } else {
        c as u32
    }
}

fn eq_ignore_ascii_case_exec(a: &Vec<char>, b: &Vec<char>) -> (res: bool)
    ensures
        res == eq_ignore_ascii_case(a@, b@),
{
    if a.len() != b.len() {
        return false;
    }
    let mut i: usize = 0;
    while i < a.len()
        invariant
            i <= a@.len(),
            a@.len() == b@.len(),
            forall|j: int| 0 <= j < i ==> ascii_lower(#[trigger] a@[j]) == ascii_lower(b@[j]),
        decreases a@.len() - i,
    {
        if lower_code(a[i]) != lower_code(b[i]) {
            return false;
        }
        i = i + 1;
    }
    true
}

/// Whether a list of packages holds `id`, ignoring the case of ASCII letters.
pub fn index_has_id(apps: &Vec<InstalledApp>, id: &str) -> (res: bool)
    ensures
        res == exists|i: int|
            0 <= i < apps@.len() && eq_ignore_ascii_case(#[trigger] apps@[i].id@, id@),
{
    let idc = chars_of(id);
    let mut k: usize = 0;
    while k < apps.len()
        invariant
            k <= apps@.len(),
            idc@ == id@,
            forall|i: int| 0 <= i < k ==> !eq_ignore_ascii_case(#[trigger] apps@[i].id@, id@),
        decreases apps@.len() - k,
    {
        let a = chars_of(apps[k].id.as_str());
        if eq_ignore_ascii_case_exec(&a, &idc) {
            return true;
        }
        k = k + 1;
    }
    false
}

/// Whether `winget search` output mentions `id`, ignoring case.
pub fn search_output_mentions(output: &str, id: &str) -> (res: bool)
    ensures
        res == has_sub(lowercase(output@), lowercase(id@)),
{
    let o = chars_of(to_lowercase(output).as_str());
    let i = chars_of(to_lowercase(id).as_str());
    contains_chars(&o, &i)
}

/// Whether one of the installed applications has the id `id`, ignoring case.
pub fn apps_include_id(installed: &Vec<InstalledApp>, id: &str) -> (res: bool)
    ensures
        res == has_app_id(records(installed@), id@),
{
    let want = chars_of(to_lowercase(id).as_str());
    let mut k: usize = 0;
    while k < installed.len()
        invariant
            k <= installed@.len(),
            want@ == lowercase(id@),
            forall|i: int| 0 <= i < k ==> lowercase(#[trigger] records(installed@)[i].id) != lowercase(id@),
        decreases installed@.len() - k,
    {
        let have = chars_of(to_lowercase(installed[k].id.as_str()).as_str());
        assert(records(installed@)[k as int].id == installed@[k as int].id@);
        if crate::text::same_chars(&have, &want) {
            return true;
        }
        k = k + 1;
    }
    false
}

/// A package matches a catalog query when its name, id or source contains the
/// query, all compared in lower case.
pub open spec fn matches_query(a: AppRecord, q: Seq<char>) -> bool {
    has_sub(lowercase(a.name), lowercase(q)) || has_sub(lowercase(a.id), lowercase(q)) || has_sub(
        lowercase(a.source),
        lowercase(q),
    )
}

/// The catalog narrowed to a query and cut to a limit (the limit counts only
/// together with a query).
pub open spec fn catalog_selection(
    apps: Seq<AppRecord>,
    query: Option<Seq<char>>,
    limit: Option<usize>,
) -> Seq<AppRecord> {
    match query {
        None => apps,
        Some(q) => {
            let hits = apps.filter(|a: AppRecord| matches_query(a, q));
            match limit {
                Some(l) => if l < hits.len() { hits.take(l as int) } else { hits },
                None => hits,
            }
        },
    }
}

/// Narrows the packages of the source index to a query, keeping at most `limit`.
pub fn filter_catalog(apps: Vec<InstalledApp>, query: Option<&str>, limit: Option<usize>) -> (res: Vec<InstalledApp>)
    ensures
        records(res@) == catalog_selection(
            records(apps@),
            match query {
                Some(q) => Some(q@),
                None => None,
            },
            limit,
        ),
{
    match query {
        None => apps,
        Some(q) => {
            let ql = chars_of(to_lowercase(q).as_str());
            let ghost all = records(apps@);
            let ghost pred = |a: AppRecord| matches_query(a, q@);
            let mut hits: Vec<InstalledApp> = Vec::new();
            let mut k: usize = 0;
            while k < apps.len()
                invariant
                    k <= apps@.len(),
                    all == records(apps@),
                    ql@ == lowercase(q@),
                    pred == (|a: AppRecord| matches_query(a, q@)),
                    records(hits@) == all.take(k as int).filter(pred),
                decreases apps@.len() - k,
            {
                let a = &apps[k];
                let nl = chars_of(to_lowercase(a.name.as_str()).as_str());
                let il = chars_of(to_lowercase(a.id.as_str()).as_str());
                let sl = chars_of(to_lowercase(a.source.as_str()).as_str());
                let hit = contains_chars(&nl, &ql) || contains_chars(&il, &ql) || contains_chars(&sl, &ql);
                let ghost before = records(hits@);
                let ghost x = all[k as int];
                assert(x == a@);
                reveal_with_fuel(Seq::<_>::filter, 1);
                assert(all.take(k + 1).drop_last() =~= all.take(k as int));
                assert(all.take(k + 1).last() == x);
                if hit {
                    hits.push(a.clone());
                    assert(records(hits@) =~= before.push(x));
                }
                k = k + 1;
            }
            assert(all.take(apps@.len() as int) =~= all);
            match limit {
                Some(l) => {
                    if l < hits.len() {
                        let ghost h = records(hits@);
                        hits.truncate(l);
                        assert(records(hits@) =~= h.take(l as int));
                    }
                    hits
                },
                None => hits,
            }
        },
    }
}

/// A catalog query keeps the packages whose name, id or source holds it (all
/// in lower case), and nothing else: every package it keeps is one of the
/// catalog's and holds the query; every package that holds the query is kept
/// when there is no limit or fewer than the limit were kept; never more than
/// the limit are kept, and a limit keeps the first of the packages found.
/// Without a query the catalog stays whole.
pub proof fn lemma_catalog_selection(apps: Seq<AppRecord>, q: Seq<char>, limit: Option<usize>)
    ensures
        ({
            let r = catalog_selection(apps, Some(q), limit);
            let lq = lowercase(q);
            &&& forall|i: int|
                0 <= i < r.len() ==> apps.contains(#[trigger] r[i]) && (has_sub(lowercase(r[i].name), lq)
                    || has_sub(lowercase(r[i].id), lq) || has_sub(lowercase(r[i].source), lq))
            &&& forall|i: int|
                0 <= i < apps.len() && (has_sub(lowercase(apps[i].name), lq) || has_sub(
                    lowercase(apps[i].id),
                    lq,
                ) || has_sub(lowercase(apps[i].source), lq)) && (limit is None || r.len() < limit->Some_0)
                    ==> r.contains(#[trigger] apps[i])
            &&& limit matches Some(l) ==> r.len() <= l
            &&& r.is_prefix_of(catalog_selection(apps, Some(q), None))
        }),
        catalog_selection(apps, None, limit) == apps,
{
    let pred = |a: AppRecord| matches_query(a, q);
    let hits = apps.filter(pred);
    let r = catalog_selection(apps, Some(q), limit);
    assert(catalog_selection(apps, Some(q), None) == hits);
    assert(r.len() <= hits.len() && forall|i: int| 0 <= i < r.len() ==> r[i] == hits[i]);
    assert(r.is_prefix_of(hits)) by {
        assert(hits.take(r.len() as int) =~= r);
    }
    assert forall|i: int| 0 <= i < r.len() implies apps.contains(#[trigger] r[i]) && matches_query(r[i], q) by {
        apps.lemma_filter_pred(pred, i);
        assert(hits.contains(hits[i]));
        apps.lemma_filter_contains_rev(pred, hits[i]);
    }
    assert forall|i: int|
        0 <= i < apps.len() && matches_query(apps[i], q) && (limit is None || r.len() < limit->Some_0)
        implies r.contains(#[trigger] apps[i]) by {
        apps.lemma_filter_contains(pred, i);
        assert(r == hits);
    }
}

// ───────────────────────── the registry ─────────────────────────

pub open spec fn concat_apps(ss: Seq<Seq<AppRecord>>) -> Seq<AppRecord>
    decreases ss.len(),
{
    if ss.len() == 0 {
        Seq::empty()
    } else {
        concat_apps(ss.drop_last()) + ss.last()
    }
}

/// The first application of each name, names compared in lower case.
pub open spec fn first_of_each_name(s: Seq<AppRecord>) -> Seq<AppRecord>
    decreases s.len(),
{
    if s.len() == 0 {
        s
    } else {
        let d = first_of_each_name(s.drop_last());
        if exists|j: int| 0 <= j < s.len() - 1 && lowercase(#[trigger] s[j].name) == lowercase(s.last().name) {
            d
        } else {
            d.push(s.last())
        }
    }
}

pub open spec fn name_keys(s: Seq<AppRecord>) -> Seq<(Seq<char>, Seq<char>)> {
    s.map_values(|a: AppRecord| (lowercase(a.name), Seq::<char>::empty()))
}

/// The installed applications read from the `reg query` outputs of several
/// uninstall keys: the first of each name, sorted by name (in lower case).
pub open spec fn registry_list(outputs: Seq<Seq<char>>) -> Seq<AppRecord> {
    let d = first_of_each_name(concat_apps(outputs.map_values(|o: Seq<char>| registry_apps(o))));
    sorted_by_keys(name_keys(d), d)
}

/// The installed applications read from the `reg query` outputs of several
/// uninstall keys, one application per name, sorted by name.
pub fn installed_apps_from_registry(outputs: &Vec<String>) -> (res: Vec<InstalledApp>)
    ensures
        records(res@) == registry_list(crate::pattern::string_views(outputs@)),
{
    let ghost outs = crate::pattern::string_views(outputs@);
    let ghost parsed = outs.map_values(|o: Seq<char>| registry_apps(o));
    let mut apps: Vec<InstalledApp> = Vec::new();
    let mut seen: Vec<Vec<char>> = Vec::new();
    let mut keys: Vec<SortKey> = Vec::new();
    let ghost mut flat: Seq<AppRecord> = Seq::empty();
    let mut k: usize = 0;
    while k < outputs.len()
        invariant
            k <= outputs@.len(),
            outs == crate::pattern::string_views(outputs@),
            parsed == outs.map_values(|o: Seq<char>| registry_apps(o)),
            flat == concat_apps(parsed.take(k as int)),
            records(apps@) == first_of_each_name(flat),
            seqs_of(seen@) == flat.map_values(|a: AppRecord| lowercase(a.name)),
            key_views(keys@) == name_keys(records(apps@)),
            keys@.len() == apps@.len(),
        decreases outputs@.len() - k,
    {
        let found = parse_registry_uninstall_output(outputs[k].as_str());
        assert(parsed.take(k + 1).drop_last() =~= parsed.take(k as int));
        assert(parsed.take(k + 1).last() == records(found@));
        let ghost flat0 = flat;
        let mut j: usize = 0;
        while j < found.len()
            invariant
                j <= found@.len(),
                flat == flat0 + records(found@).take(j as int),
                records(apps@) == first_of_each_name(flat),
                seqs_of(seen@) == flat.map_values(|a: AppRecord| lowercase(a.name)),
                key_views(keys@) == name_keys(records(apps@)),
                keys@.len() == apps@.len(),
            decreases found@.len() - j,
        {
            let a = &found[j];
            let lname = chars_of(to_lowercase(a.name.as_str()).as_str());
            let mut dup = false;
            let mut q: usize = 0;
            while q < seen.len()
                invariant
                    q <= seen@.len(),
                    lname@ == lowercase(a.name@),
                    dup == exists|i: int| 0 <= i < q && seen@[i]@ == lname@,
                decreases seen@.len() - q,
            {
                if crate::text::same_chars(&seen[q], &lname) {
                    dup = true;
                }
                q = q + 1;
            }
            let ghost nf = flat.push(a@);
            proof {
                assert(seqs_of(seen@).len() == seen@.len());
                assert(seen@.len() == flat.len());
                assert(nf.drop_last() =~= flat);
                assert(nf.last() == a@);
                if dup {
                    let i = choose|i: int| 0 <= i < seen@.len() && seen@[i]@ == lname@;
                    assert(seqs_of(seen@)[i] == lowercase(flat[i].name));
                    assert(nf[i] == flat[i]);
                } else {
                    assert forall|i: int| 0 <= i < nf.len() - 1 implies lowercase(#[trigger] nf[i].name)
                        != lowercase(nf.last().name) by {
                        assert(nf[i] == flat[i]);
                        assert(seqs_of(seen@)[i] == seen@[i]@);
                    }
                }
                assert(records(found@).take(j + 1) =~= records(found@).take(j as int).push(a@));
            }
            let ghost seen0 = seqs_of(seen@);
            let lname2 = crate::text::subrange_chars(&lname, 0, lname.len());
            assert(lname2@ =~= lname@);
            seen.push(lname);
            assert(seqs_of(seen@) =~= seen0.push(lowercase(a.name@)));
            if !dup {
                let ghost r0 = records(apps@);
                let ghost k0 = key_views(keys@);
                apps.push(a.clone());
                keys.push(SortKey { first: lname2, second: Vec::new() });
                assert(records(apps@) =~= r0.push(a@));
                assert(key_views(keys@) =~= k0.push((lowercase(a.name@), Seq::<char>::empty())));
                assert(name_keys(records(apps@)) =~= name_keys(r0).push((lowercase(a.name@), Seq::<char>::empty())));
            }
            proof {
                flat = nf;
            }
            j = j + 1;
        }
        assert(records(found@).take(found@.len() as int) =~= records(found@));
        k = k + 1;
    }
    assert(parsed.take(outputs@.len() as int) =~= parsed);
    let ghost items = apps@;
    let sorted = sort_by_keys(apps, keys);
    proof {
        crate::order::lemma_sorted_by_keys_map(
            key_views(keys@),
            items,
            |a: InstalledApp| a@,
        );
    }
    sorted
}


// ───────────────────────── the catalog ─────────────────────────

/// The command that lists the whole `winget` catalog.
pub open spec fn catalog_command() -> Seq<char> {
    "winget search . --source winget --accept-source-agreements --disable-interactivity"@
}

/// The first line of some output, or nothing.
pub open spec fn first_line(s: Seq<char>) -> Seq<char> {
    if lines(s).len() > 0 {
        lines(s)[0]
    } else {
        Seq::empty()
    }
}

/// Why listing the catalog gave nothing: the command returned no packages,
/// failed with an exit code, or could not be started; followed by the first line
/// of what it printed, if it printed anything but whitespace.
pub open spec fn catalog_failure_message(code: Option<i32>, out: Seq<char>) -> Seq<char> {
    let base = match code {
        Some(c) => if c == 0 {
            catalog_command() + " returned no packages"@
        } else {
            catalog_command() + " failed with exit code "@ + decimal(c as int)
        },
        None => catalog_command() + " could not be started: "@ + out,
    };
    if is_blank(out) {
        base
    } else {
        base + ": "@ + first_line(out)
    }
}

/// The message for a catalog listing that gave no packages.
pub fn catalog_failure(code: Option<i32>, out: &str) -> (res: String)
    ensures
        res@ == catalog_failure_message(code, out@),
{
    let mut msg = chars_of(
        "winget search . --source winget --accept-source-agreements --disable-interactivity",
    );
    match code {
        Some(c) => {
            if c == 0 {
                append_chars(&mut msg, &chars_of(" returned no packages"));
            } else {
                append_chars(&mut msg, &chars_of(" failed with exit code "));
                append_chars(&mut msg, &format_i64(c as i64));
            }
        },
        None => {
            append_chars(&mut msg, &chars_of(" could not be started: "));
            append_chars(&mut msg, &chars_of(out));
        },
    }
    let oc = chars_of(out);
    let t = trim_chars(&oc);
    proof {
        lemma_trim_empty(oc@);
    }
    if t.len() > 0 {
        append_chars(&mut msg, &chars_of(": "));
        let ls = lines_of(&oc);
        if ls.len() > 0 {
            assert(ls@[0]@ == seqs_of(ls@)[0]);
            append_chars(&mut msg, &ls[0]);
        } else {
            assert(msg@ + Seq::<char>::empty() =~= msg@);
        }
    }
    string_of(&msg)
}

impl WingetService {
    /// The catalog from the output and exit code of the catalog listing: its
    /// packages, or no packages and the reason.
    pub fn catalog_from_search(&self, out: &str, code: Option<i32>) -> (res: (
        Vec<InstalledApp>,
        Option<String>,
    ))
        ensures
            records(res.0@) == table_rows(table_lines(out@)),
            table_rows(table_lines(out@)).len() > 0 ==> res.1 is None,
            table_rows(table_lines(out@)).len() == 0 ==> (res.1 matches Some(m) && m@
                == catalog_failure_message(code, out@)),
    {
        let apps = self.parse_table(out);
        if apps.len() > 0 {
            (apps, None)
        } else {
            (apps, Some(catalog_failure(code, out)))
        }
    }
}

// ───────────────────────── command lines ─────────────────────────

fn strings_of(parts: Vec<&str>) -> (res: Vec<String>)
    ensures
        crate::pattern::string_views(res@) == parts@.map_values(|p: &str| p@),
{
    let ghost want = parts@.map_values(|p: &str| p@);
    let mut out: Vec<String> = Vec::new();
    let mut k: usize = 0;
    while k < parts.len()
        invariant
            k <= parts@.len(),
            want == parts@.map_values(|p: &str| p@),
            crate::pattern::string_views(out@) == want.take(k as int),
        decreases parts@.len() - k,
    {
        let ghost before = crate::pattern::string_views(out@);
        out.push(String::from_str(parts[k]));
        assert(crate::pattern::string_views(out@) =~= before.push(want[k as int]));
        assert(want.take(k + 1) =~= want.take(k as int).push(want[k as int]));
        k = k + 1;
    }
    assert(want.take(parts@.len() as int) =~= want);
    out
}

/// The arguments of `winget` that list the installed packages.
pub fn list_args() -> (res: Vec<String>)
    ensures
        crate::pattern::string_views(res@) == seq!["list"@, "--disable-interactivity"@],
{
    let v = vec!["list", "--disable-interactivity"];
    let r = strings_of(v);
    assert(v@.map_values(|p: &str| p@) =~= seq!["list"@, "--disable-interactivity"@]);
    r
}

/// The arguments of `winget` that look a package id up in the `winget` source.
pub fn search_id_args(id: &str) -> (res: Vec<String>)
    ensures
        crate::pattern::string_views(res@) == seq![
            "search"@,
            "--id"@,
            id@,
            "--exact"@,
            "--source"@,
            "winget"@,
            "--accept-source-agreements"@,
            "--disable-interactivity"@,
        ],
{
    let v = vec![
        "search",
        "--id",
        id,
        "--exact",
        "--source",
        "winget",
        "--accept-source-agreements",
        "--disable-interactivity",
    ];
    let r = strings_of(v);
    assert(v@.map_values(|p: &str| p@) =~= seq![
        "search"@,
        "--id"@,
        id@,
        "--exact"@,
        "--source"@,
        "winget"@,
        "--accept-source-agreements"@,
        "--disable-interactivity"@,
    ]);
    r
}

/// The arguments of `winget` that search the `winget` source for a query.
pub fn search_query_args(query: &str) -> (res: Vec<String>)
    ensures
        crate::pattern::string_views(res@) == seq![
            "search"@,
            "--query"@,
            query@,
            "--source"@,
            "winget"@,
            "--accept-source-agreements"@,
            "--disable-interactivity"@,
        ],
{
    let v = vec![
        "search",
        "--query",
        query,
        "--source",
        "winget",
        "--accept-source-agreements",
        "--disable-interactivity",
    ];
    let r = strings_of(v);
    assert(v@.map_values(|p: &str| p@) =~= seq![
        "search"@,
        "--query"@,
        query@,
        "--source"@,
        "winget"@,
        "--accept-source-agreements"@,
        "--disable-interactivity"@,
    ]);
    r
}

/// The arguments of `winget` that list the whole catalog.
pub fn catalog_args() -> (res: Vec<String>)
    ensures
        crate::pattern::string_views(res@) == seq![
            "search"@,
            "."@,
            "--source"@,
            "winget"@,
            "--accept-source-agreements"@,
            "--disable-interactivity"@,
        ],
{
    let v = vec![
        "search",
        ".",
        "--source",
        "winget",
        "--accept-source-agreements",
        "--disable-interactivity",
    ];
    let r = strings_of(v);
    assert(v@.map_values(|p: &str| p@) =~= seq![
        "search"@,
        "."@,
        "--source"@,
        "winget"@,
        "--accept-source-agreements"@,
        "--disable-interactivity"@,
    ]);
    r
}

/// The arguments of `winget` that install a package silently.
pub fn install_args(id: &str) -> (res: Vec<String>)
    ensures
        crate::pattern::string_views(res@) == seq![
            "install"@,
            "--id"@,
            id@,
            "--accept-source-agreements"@,
            "--accept-package-agreements"@,
            "--disable-interactivity"@,
            "--silent"@,
            "--force"@,
        ],
{
    let v = vec![
        "install",
        "--id",
        id,
        "--accept-source-agreements",
        "--accept-package-agreements",
        "--disable-interactivity",
        "--silent",
        "--force",
    ];
    let r = strings_of(v);
    assert(v@.map_values(|p: &str| p@) =~= seq![
        "install"@,
        "--id"@,
        id@,
        "--accept-source-agreements"@,
        "--accept-package-agreements"@,
        "--disable-interactivity"@,
        "--silent"@,
        "--force"@,
    ]);
    r
}

/// The arguments of `winget` that uninstall a package silently, with its data.
pub fn uninstall_args(id: &str) -> (res: Vec<String>)
    ensures
        crate::pattern::string_views(res@) == seq![
            "uninstall"@,
            "--id"@,
            id@,
            "--disable-interactivity"@,
            "--silent"@,
            "--force"@,
            "--purge"@,
        ],
{
    let v = vec![
        "uninstall",
        "--id",
        id,
        "--disable-interactivity",
        "--silent",
        "--force",
        "--purge",
    ];
    let r = strings_of(v);
    assert(v@.map_values(|p: &str| p@) =~= seq![
        "uninstall"@,
        "--id"@,
        id@,
        "--disable-interactivity"@,
        "--silent"@,
        "--force"@,
        "--purge"@,
    ]);
    r
}

/// The registry keys that hold the uninstall entries, machine-wide (64- and
/// 32-bit) and for the user.
pub fn uninstall_roots() -> (res: Vec<String>)
    ensures
        crate::pattern::string_views(res@) == seq![
            "HKLM\\SOFTWARE\\Microsoft\\Windows\\CurrentVersion\\Uninstall"@,
            "HKLM\\SOFTWARE\\WOW6432Node\\Microsoft\\Windows\\CurrentVersion\\Uninstall"@,
            "HKCU\\SOFTWARE\\Microsoft\\Windows\\CurrentVersion\\Uninstall"@,
        ],
{
    let v = vec![
        "HKLM\\SOFTWARE\\Microsoft\\Windows\\CurrentVersion\\Uninstall",
        "HKLM\\SOFTWARE\\WOW6432Node\\Microsoft\\Windows\\CurrentVersion\\Uninstall",
        "HKCU\\SOFTWARE\\Microsoft\\Windows\\CurrentVersion\\Uninstall",
    ];
    let r = strings_of(v);
    assert(v@.map_values(|p: &str| p@) =~= seq![
        "HKLM\\SOFTWARE\\Microsoft\\Windows\\CurrentVersion\\Uninstall"@,
        "HKLM\\SOFTWARE\\WOW6432Node\\Microsoft\\Windows\\CurrentVersion\\Uninstall"@,
        "HKCU\\SOFTWARE\\Microsoft\\Windows\\CurrentVersion\\Uninstall"@,
    ]);
    r
}

// ───────────────────────── decisions around the runs ─────────────────────────

impl WingetService {
    /// The installed packages from the output of `winget list`, or `None` when
    /// it lists none and the registry must be read instead.
    pub fn installed_from_list(&self, out: &str) -> (res: Option<Vec<InstalledApp>>)
        ensures
            table_rows(table_lines(out@)).len() > 0 ==> (res matches Some(v) && records(v@)
                == table_rows(table_lines(out@))),
            table_rows(table_lines(out@)).len() == 0 ==> res is None,
    {
        let apps = self.parse_table(out);
        if apps.len() > 0 {
            Some(apps)
        } else {
            None
        }
    }
}

/// A catalog search: the whole catalog for a query that is empty once trimmed,
/// else the trimmed query.
pub open spec fn search_query(query: Seq<char>) -> Option<Seq<char>> {
    if trim(query).len() == 0 {
        None
    } else {
        Some(trim(query))
    }
}

/// What to search the catalog for (see `search_query`).
pub fn search_plan(query: &str) -> (res: Option<String>)
    ensures
        match res {
            Some(q) => search_query(query@) == Some(q@),
            None => search_query(query@) is None,
        },
{
    let q = crate::text::trim_str(query);
    if q.as_str().is_empty() {
        None
    } else {
        Some(q)
    }
}

/// A package found in the source index by id counts when its id is the one
/// asked for, ignoring the case of ASCII letters.
pub fn available_in_index(found: &Vec<InstalledApp>, id: &str) -> (res: bool)
    ensures
        res == exists|i: int| 0 <= i < found@.len() && eq_ignore_ascii_case(#[trigger] found@[i].id@, id@),
{
    index_has_id(found, id)
}

/// Where `Get-AppxPackage` says the source package is installed: its output
/// trimmed, unless that is empty.
pub fn appx_install_location(output: &str) -> (res: Option<String>)
    ensures
        match res {
            Some(p) => trim(output@).len() > 0 && p@ == trim(output@),
            None => trim(output@).len() == 0,
        },
{
    let p = crate::text::trim_str(output);
    if p.as_str().is_empty() {
        None
    } else {
        Some(p)
    }
}

/// The name prefix of the installed source packages.
pub open spec fn source_package_prefix() -> Seq<char> {
    "Microsoft.Winget.Source_"@
}

/// A directory that holds a usable source package: its name has the prefix and
/// it has an index.
pub open spec fn usable_package(name: Seq<char>, has_index: bool) -> bool {
    has_index && crate::text::has_prefix(name, source_package_prefix())
}

/// The greatest usable package name among `names`, in the order of paths.
pub open spec fn is_latest_package(names: Seq<Seq<char>>, has_index: Seq<bool>, i: int) -> bool {
    &&& 0 <= i < names.len()
    &&& usable_package(names[i], has_index[i])
    &&& forall|j: int|
        0 <= j < names.len() && usable_package(#[trigger] names[j], has_index[j]) ==> !crate::text::lex_lt(
            names[i],
            names[j],
        )
}

/// Chooses, among the directories of the installed applications, the source
/// package with the greatest name whose index exists: the newest version.
pub fn latest_source_package(names: &Vec<String>, has_index: &Vec<bool>) -> (res: Option<usize>)
    requires
        names@.len() == has_index@.len(),
    ensures
        match res {
            Some(i) => is_latest_package(crate::pattern::string_views(names@), has_index@, i as int),
            None => forall|j: int|
                0 <= j < names@.len() ==> !usable_package(#[trigger] names@[j]@, has_index@[j]),
        },
{
    let ghost ns = crate::pattern::string_views(names@);
    let prefix = chars_of("Microsoft.Winget.Source_");
    let mut best: Option<usize> = None;
    let mut best_name: Vec<char> = Vec::new();
    let mut k: usize = 0;
    while k < names.len()
        invariant
            k <= names@.len(),
            names@.len() == has_index@.len(),
            ns == crate::pattern::string_views(names@),
            prefix@ == source_package_prefix(),
            match best {
                Some(b) => b < k && best_name@ == ns[b as int] && usable_package(ns[b as int], has_index@[b as int])
                    && forall|j: int|
                    0 <= j < k && usable_package(#[trigger] ns[j], has_index@[j]) ==> !crate::text::lex_lt(
                        ns[b as int],
                        ns[j],
                    ),
                None => forall|j: int| 0 <= j < k ==> !usable_package(#[trigger] ns[j], has_index@[j]),
            },
        decreases names@.len() - k,
    {
        let name = chars_of(names[k].as_str());
        assert(ns[k as int] == name@);
        let usable = has_index[k] && crate::text::starts_with_chars(&name, &prefix);
        if usable {
            let better = match best {
                Some(_) => crate::text::lex_less(&best_name, &name),
                None => true,
            };
            if better {
                proof {
                    assert forall|j: int|
                        0 <= j < k + 1 && usable_package(#[trigger] ns[j], has_index@[j]) implies !crate::text::lex_lt(
                        name@,
                        ns[j],
                    ) by {
                        if j == k {
                            crate::text::lemma_lex_lt_irrefl(name@);
                        } else if crate::text::lex_lt(name@, ns[j]) {
                            crate::text::lemma_lex_lt_trans(best_name@, name@, ns[j]);
                        }
                    }
                }
                best = Some(k);
                best_name = name;
            }
        }
        k = k + 1;
    }
    match best {
        Some(b) => {
            assert(is_latest_package(ns, has_index@, b as int));
        },
        None => {
            assert forall|j: int| 0 <= j < names@.len() implies !usable_package(
                #[trigger] names@[j]@,
                has_index@[j],
            ) by {
                assert(ns[j] == names@[j]@);
            }
        },
    }
    best
}

/// The installed applications read from the registry come sorted by name,
/// ignoring case, and hold exactly the first application of each name.
pub proof fn lemma_registry_list_sorted(outputs: Seq<Seq<char>>)
    ensures
        forall|i: int, j: int|
            0 <= i < j < registry_list(outputs).len() ==> !crate::text::lex_lt(
                lowercase((#[trigger] registry_list(outputs)[j]).name),
                lowercase((#[trigger] registry_list(outputs)[i]).name),
            ),
        registry_list(outputs).to_multiset() == first_of_each_name(
            concat_apps(outputs.map_values(|o: Seq<char>| registry_apps(o))),
        ).to_multiset(),
{
    let d = first_of_each_name(concat_apps(outputs.map_values(|o: Seq<char>| registry_apps(o))));
    let key = |a: AppRecord| (lowercase(a.name), Seq::<char>::empty());
    assert(name_keys(d) =~= d.map_values(key));
    crate::order::lemma_sorted_by_keys_ordered(d, key);
    crate::order::lemma_sorted_by_keys_permutes(name_keys(d), d);
    let out = registry_list(outputs);
    assert forall|i: int, j: int| 0 <= i < j < out.len() implies !crate::text::lex_lt(
        lowercase((#[trigger] out[j]).name),
        lowercase((#[trigger] out[i]).name),
    ) by {
        assert(!crate::order::key_lt(key(out[j]), key(out[i])));
    }
}

proof fn lemma_first_of_each_name_from(s: Seq<AppRecord>)
    ensures
        forall|i: int| 0 <= i < first_of_each_name(s).len() ==> s.contains(#[trigger] first_of_each_name(s)[i]),
    decreases s.len(),
{
    if s.len() > 0 {
        lemma_first_of_each_name_from(s.drop_last());
        let d = first_of_each_name(s.drop_last());
        let r = first_of_each_name(s);
        assert forall|i: int| 0 <= i < r.len() implies s.contains(#[trigger] r[i]) by {
            if i < d.len() {
                assert(r[i] == d[i]);
                let k = choose|k: int| 0 <= k < s.drop_last().len() && s.drop_last()[k] == d[i];
                assert(s[k] == d[i]);
            } else {
                assert(r[i] == s.last());
                assert(s[s.len() - 1] == s.last());
            }
        }
    }
}

proof fn lemma_first_of_each_name_distinct(s: Seq<AppRecord>)
    ensures
        forall|i: int, j: int|
            0 <= i < j < first_of_each_name(s).len() ==> lowercase(
                (#[trigger] first_of_each_name(s)[i]).name,
            ) != lowercase((#[trigger] first_of_each_name(s)[j]).name),
    decreases s.len(),
{
    if s.len() > 0 {
        let t = s.drop_last();
        lemma_first_of_each_name_distinct(t);
        lemma_first_of_each_name_from(t);
        let d = first_of_each_name(t);
        let r = first_of_each_name(s);
        if !(exists|j: int| 0 <= j < s.len() - 1 && lowercase(#[trigger] s[j].name) == lowercase(s.last().name)) {
            assert forall|i: int, j: int| 0 <= i < j < r.len() implies lowercase((#[trigger] r[i]).name)
                != lowercase((#[trigger] r[j]).name) by {
                if j < d.len() {
                    assert(r[i] == d[i] && r[j] == d[j]);
                } else {
                    assert(r[j] == s.last());
                    assert(r[i] == d[i]);
                    assert(t.contains(d[i]));
                    let k = choose|k: int| 0 <= k < t.len() && t[k] == d[i];
                    assert(s[k] == t[k]);
                }
            }
        }
    }
}

/// The installed applications read from the registry hold one application per
/// name, ignoring case.
pub proof fn lemma_registry_list_one_per_name(outputs: Seq<Seq<char>>)
    ensures
        forall|i: int, j: int|
            0 <= i < registry_list(outputs).len() && 0 <= j < registry_list(outputs).len() && i != j
                ==> lowercase((#[trigger] registry_list(outputs)[i]).name) != lowercase(
                (#[trigger] registry_list(outputs)[j]).name,
            ),
{
    broadcast use vstd::seq_lib::to_multiset_contains;

    let d = first_of_each_name(concat_apps(outputs.map_values(|o: Seq<char>| registry_apps(o))));
    lemma_first_of_each_name_distinct(
        concat_apps(outputs.map_values(|o: Seq<char>| registry_apps(o))),
    );
    crate::order::lemma_sorted_by_keys_permutes(name_keys(d), d);
    let out = registry_list(outputs);
    assert(d.no_duplicates()) by {
        assert forall|i: int, j: int| 0 <= i < d.len() && 0 <= j < d.len() && i != j implies d[i]
            != d[j] by {
            if i < j {
                assert(lowercase(d[i].name) != lowercase(d[j].name));
            } else {
                assert(lowercase(d[j].name) != lowercase(d[i].name));
            }
        }
    }
    d.lemma_multiset_has_no_duplicates();
    out.lemma_multiset_has_no_duplicates_conv();
    assert forall|i: int, j: int|
        0 <= i < out.len() && 0 <= j < out.len() && i != j implies lowercase((#[trigger] out[i]).name)
        != lowercase((#[trigger] out[j]).name) by {
        assert(out.contains(out[i]));
        assert(out.contains(out[j]));
        assert(out.to_multiset().count(out[i]) > 0);
        assert(out.to_multiset().count(out[j]) > 0);
        assert(d.contains(out[i]));
        assert(d.contains(out[j]));
        let a = choose|a: int| 0 <= a < d.len() && d[a] == out[i];
        let b = choose|b: int| 0 <= b < d.len() && d[b] == out[j];
        assert(out[i] != out[j]);
        if a < b {
            assert(lowercase(d[a].name) != lowercase(d[b].name));
        } else if b < a {
            assert(lowercase(d[b].name) != lowercase(d[a].name));
        }
    }
}

} // verus!
