//! The uninstall keys that `reg query ... /s` prints, read as installed applications.
use vstd::prelude::*;
use crate::text::{
    chars_of, has_prefix, is_blank, last_piece, last_piece_chars, lemma_trim_empty, lines,
    lines_of, occurs_at, occurs_at_exec, seqs_of, starts_with_chars, string_of, subrange_chars,
    trim, trim_chars, trim_start, lemma_trim_start_skip, is_ws_char, is_ws,
};
use crate::types::{records, AppRecord, InstalledApp};

verus! {

// ───────────────────────── values ─────────────────────────

/// The first index at or after `i` where `n` occurs in `h`.
pub open spec fn find_from(h: Seq<char>, n: Seq<char>, i: int) -> Option<int>
    decreases h.len() + 1 - i,
{
    if i < 0 || i + n.len() > h.len() {
        None
    } else if occurs_at(h, n, i) {
        Some(i)
    } else {
        find_from(h, n, i + 1)
    }
}

/// The value on a `reg query` line `<name>    <type>    <value>`: after the name,
/// leading whitespace and the first run of four spaces, trimmed.
pub open spec fn reg_value(line: Seq<char>, name: Seq<char>) -> Option<Seq<char>> {
    if !has_prefix(line, name) {
        None
    } else {
        let rest = trim_start(line.skip(name.len() as int));
        match find_from(rest, "    "@, 0) {
            None => None,
            Some(i) => Some(trim(rest.skip(i + 4))),
        }
    }
}

pub fn trim_start_chars(s: &Vec<char>) -> (res: Vec<char>)
    ensures
        res@ == trim_start(s@),
{
    let mut i: usize = 0;
    while i < s.len() && is_ws_char(s[i])
        invariant
            i <= s@.len(),
            forall|k: int| 0 <= k < i ==> is_ws(#[trigger] s@[k]),
        decreases s@.len() - i,
    {
        i = i + 1;
    }
    proof {
        lemma_trim_start_skip(s@, i as int);
        if i < s@.len() {
            assert(!is_ws(s@.skip(i as int)[0]));
        }
    }
    let r = subrange_chars(s, i, s.len());
    assert(s@.subrange(i as int, s@.len() as int) =~= s@.skip(i as int));
    r
}

pub proof fn lemma_find_from(h: Seq<char>, n: Seq<char>, i: int)
    ensures
        find_from(h, n, i) matches Some(j) ==> occurs_at(h, n, j) && i <= j,
    decreases h.len() + 1 - i,
{
    if !(i < 0 || i + n.len() > h.len()) && !occurs_at(h, n, i) {
        lemma_find_from(h, n, i + 1);
    }
}

pub fn find_chars(h: &Vec<char>, n: &Vec<char>) -> (res: Option<usize>)
    ensures
        match res {
            Some(i) => find_from(h@, n@, 0) == Some(i as int),
            None => find_from(h@, n@, 0) is None,
        },
{
    if n.len() > h.len() {
        return None;
    }
    let last = h.len() - n.len();
    let mut i: usize = 0;
    while i <= last
        invariant
            last == h@.len() - n@.len(),
            i <= last + 1,
            find_from(h@, n@, 0) == find_from(h@, n@, i as int),
        decreases last + 1 - i,
    {
        if occurs_at_exec(h, n, i) {
            return Some(i);
        }
        if i == last {
            assert(find_from(h@, n@, i + 1) is None);
            return None;
        }
        i = i + 1;
    }
    None
}

/// The value of `name` on a `reg query` line, if the line is about `name`.
pub fn parse_reg_value(line: &Vec<char>, name: &str) -> (res: Option<Vec<char>>)
    ensures
        match res {
            Some(v) => reg_value(line@, name@) == Some(v@),
            None => reg_value(line@, name@) is None,
        },
{
    let nm = chars_of(name);
    if !starts_with_chars(line, &nm) {
        return None;
    }
    let after = subrange_chars(line, nm.len(), line.len());
    assert(after@ =~= line@.skip(nm@.len() as int));
    let rest = trim_start_chars(&after);
    let gap = chars_of("    ");
    match find_chars(&rest, &gap) {
        None => None,
        Some(i) => {
            proof {
                reveal_strlit("    ");
                assert("    "@.len() == 4);
                lemma_find_from(rest@, gap@, 0);
                assert(occurs_at(rest@, gap@, i as int));
            }
            let rl = rest.len();
            assert(i + 4 <= rl);
            let tail = subrange_chars(&rest, i + 4, rl);
            assert(tail@ =~= rest@.skip(i + 4));
            Some(trim_chars(&tail))
        },
    }
}

// ───────────────────────── entries ─────────────────────────

/// What has been read of one uninstall key so far.
pub ghost struct RegEntry {
    pub key: Seq<char>,
    pub package_id: Seq<char>,
    pub name: Seq<char>,
    pub version: Seq<char>,
    pub system_component: bool,
}

pub open spec fn entry_for(key: Seq<char>) -> RegEntry {
    RegEntry {
        key,
        package_id: Seq::empty(),
        name: Seq::empty(),
        version: Seq::empty(),
        system_component: false,
    }
}

/// The application a finished key stands for: none for a key without a display
/// name or for a system component. The id is the winget package identifier, else
/// the last segment of the key path, else the display name; the source says which.
pub open spec fn registry_record(e: RegEntry) -> Option<AppRecord> {
    if is_blank(e.name) || e.system_component {
        None
    } else {
        let from_winget = !is_blank(e.package_id);
        let tail = last_piece(e.key, '\\');
        Some(
            AppRecord {
                name: trim(e.name),
                id: if from_winget {
                    trim(e.package_id)
                } else if !is_blank(tail) {
                    tail
                } else {
                    e.name
                },
                version: trim(e.version),
                source: if from_winget { "winget"@ } else { "registry"@ },
            },
        )
    }
}

/// How a trimmed line inside a key changes what has been read of it.
pub open spec fn entry_step(e: RegEntry, t: Seq<char>) -> RegEntry {
    if reg_value(t, "WinGetPackageIdentifier"@) is Some {
        RegEntry { package_id: reg_value(t, "WinGetPackageIdentifier"@)->0, ..e }
    } else if reg_value(t, "DisplayName"@) is Some {
        RegEntry { name: reg_value(t, "DisplayName"@)->0, ..e }
    } else if reg_value(t, "DisplayVersion"@) is Some {
        RegEntry { version: reg_value(t, "DisplayVersion"@)->0, ..e }
    } else if reg_value(t, "SystemComponent"@) is Some {
        RegEntry { system_component: trim(reg_value(t, "SystemComponent"@)->0) == "0x1"@, ..e }
    } else {
        e
    }
}

pub open spec fn opt_seq(r: Option<AppRecord>) -> Seq<AppRecord> {
    match r {
        Some(a) => seq![a],
        None => Seq::empty(),
    }
}

/// The applications of the keys closed so far, and the key being read.
pub open spec fn registry_scan(ls: Seq<Seq<char>>) -> (Seq<AppRecord>, RegEntry)
    decreases ls.len(),
{
    if ls.len() == 0 {
        (Seq::empty(), entry_for(Seq::empty()))
    } else {
        let (apps, e) = registry_scan(ls.drop_last());
        let t = trim(ls.last());
        if has_prefix(t, "HKEY_"@) {
            (apps + opt_seq(registry_record(e)), entry_for(t))
        } else {
            (apps, entry_step(e, t))
        }
    }
}

/// The applications listed in the output of `reg query <uninstall key> /s`.
pub open spec fn registry_apps(raw: Seq<char>) -> Seq<AppRecord> {
    let (apps, e) = registry_scan(lines(raw));
    apps + opt_seq(registry_record(e))
}

struct Entry {
    key: Vec<char>,
    package_id: Vec<char>,
    name: Vec<char>,
    version: Vec<char>,
    system_component: bool,
}

impl View for Entry {
    type V = RegEntry;

    closed spec fn view(&self) -> RegEntry {
        RegEntry {
            key: self.key@,
            package_id: self.package_id@,
            name: self.name@,
            version: self.version@,
            system_component: self.system_component,
        }
    }
}

fn blank_chars(s: &Vec<char>) -> (res: bool)
    ensures
        res == is_blank(s@),
{
    let t = trim_chars(s);
    proof {
        lemma_trim_empty(s@);
    }
    t.len() == 0
}

/// Adds the application of a finished key, if it stands for one.
pub fn push_registry_app(
    apps: &mut Vec<InstalledApp>,
    key: &Vec<char>,
    package_id: &Vec<char>,
    name: &Vec<char>,
    version: &Vec<char>,
    system_component: bool,
)
    ensures
        records(final(apps)@) == records(old(apps)@) + opt_seq(
            registry_record(
                RegEntry {
                    key: key@,
                    package_id: package_id@,
                    name: name@,
                    version: version@,
                    system_component,
                },
            ),
        ),
{
    let ghost before = records(apps@);
    if blank_chars(name) || system_component {
        assert(before + Seq::<AppRecord>::empty() =~= before);
        return;
    }
    let from_winget = !blank_chars(package_id);
    let id = if from_winget {
        trim_chars(package_id)
    } else {
        let tail = last_piece_chars(key, '\\');
        if !blank_chars(&tail) {
            tail
        } else {
            subrange_chars(name, 0, name.len())
        }
    };
    assert(name@.subrange(0, name@.len() as int) =~= name@);
    let source = if from_winget {
        String::from_str("winget")
    } else {
        String::from_str("registry")
    };
    let app = InstalledApp::new(
        string_of(&trim_chars(name)),
        string_of(&id),
        string_of(&trim_chars(version)),
        source,
    );
    apps.push(app);
    assert(records(apps@) =~= before.push(app@));
}

fn value_of(t: &Vec<char>, name: &str) -> (res: Option<Vec<char>>)
    ensures
        match res {
            Some(v) => reg_value(t@, name@) == Some(v@),
            None => reg_value(t@, name@) is None,
        },
{
    parse_reg_value(t, name)
}

/// The applications listed in the output of `reg query <uninstall key> /s`, in
/// the order of their keys.
pub fn parse_registry_uninstall_output(raw: &str) -> (res: Vec<InstalledApp>)
    ensures
        records(res@) == registry_apps(raw@),
{
    let all = chars_of(raw);
    let ls = lines_of(&all);
    let ghost lv = seqs_of(ls@);
    let mut apps: Vec<InstalledApp> = Vec::new();
    let mut e = Entry {
        key: Vec::new(),
        package_id: Vec::new(),
        name: Vec::new(),
        version: Vec::new(),
        system_component: false,
    };
    let mut k: usize = 0;
    assert(lv.take(0) =~= Seq::<Seq<char>>::empty());
    while k < ls.len()
        invariant
            k <= ls@.len(),
            lv == seqs_of(ls@),
            lv == lines(raw@),
            registry_scan(lv.take(k as int)) == (records(apps@), e@),
        decreases ls@.len() - k,
    {
        let ghost pre1 = lv.take(k + 1);
        assert(pre1.drop_last() =~= lv.take(k as int));
        assert(pre1.last() == ls@[k as int]@);
        let t = trim_chars(&ls[k]);
        let hkey = chars_of("HKEY_");
        if starts_with_chars(&t, &hkey) {
            push_registry_app(&mut apps, &e.key, &e.package_id, &e.name, &e.version, e.system_component);
            e = Entry {
                key: t,
                package_id: Vec::new(),
                name: Vec::new(),
                version: Vec::new(),
                system_component: false,
            };
            assert(e@ == entry_for(trim(pre1.last())));
        } else {
            let ghost old_e = e@;
            if let Some(v) = value_of(&t, "WinGetPackageIdentifier") {
                e.package_id = v;
            } else if let Some(v) = value_of(&t, "DisplayName") {
                e.name = v;
            } else if let Some(v) = value_of(&t, "DisplayVersion") {
                e.version = v;
            } else if let Some(v) = value_of(&t, "SystemComponent") {
                let vt = trim_chars(&v);
                let one = chars_of("0x1");
                e.system_component = vt.len() == one.len() && starts_with_chars(&vt, &one);
                proof {
                    if vt@.len() == one@.len() {
                        assert(vt@.take(one@.len() as int) =~= vt@);
                    }
                }
            }
            assert(e@ == entry_step(old_e, t@));
        }
        k = k + 1;
    }
    assert(lv.take(ls@.len() as int) =~= lv);
    push_registry_app(&mut apps, &e.key, &e.package_id, &e.name, &e.version, e.system_component);
    apps
}

// ───────────────────────── laws ─────────────────────────

/// A registry application with a name, an id, and `winget` or `registry` as its source.
pub open spec fn registry_shaped(a: AppRecord) -> bool {
    a.name.len() > 0 && a.id.len() > 0 && (a.source == "winget"@ || a.source == "registry"@)
}

proof fn lemma_registry_record_shaped(e: RegEntry)
    ensures
        registry_record(e) matches Some(a) ==> registry_shaped(a),
{
    if !is_blank(e.name) && !e.system_component {
        lemma_trim_empty(e.name);
        lemma_trim_empty(e.package_id);
        let tail = last_piece(e.key, '\\');
        if tail.len() == 0 {
            assert(is_blank(tail));
        }
        if e.name.len() == 0 {
            assert(is_blank(e.name));
        }
    }
}

proof fn lemma_registry_scan_shaped(ls: Seq<Seq<char>>)
    ensures
        forall|i: int|
            0 <= i < registry_scan(ls).0.len() ==> registry_shaped(#[trigger] registry_scan(ls).0[i]),
    decreases ls.len(),
{
    if ls.len() > 0 {
        lemma_registry_scan_shaped(ls.drop_last());
        let (apps, e) = registry_scan(ls.drop_last());
        lemma_registry_record_shaped(e);
        let t = trim(ls.last());
        if has_prefix(t, "HKEY_"@) {
            let out = apps + opt_seq(registry_record(e));
            assert forall|i: int| 0 <= i < out.len() implies registry_shaped(#[trigger] out[i]) by {
                if i >= apps.len() {
                    assert(out[i] == opt_seq(registry_record(e))[i - apps.len()]);
                }
            }
        }
    }
}

/// Every application read from the registry has a name and an id, and comes
/// from `winget` (it has a package identifier) or from the registry alone.
pub proof fn lemma_registry_apps_shaped(raw: Seq<char>)
    ensures
        forall|i: int| 0 <= i < registry_apps(raw).len() ==> registry_shaped(#[trigger] registry_apps(raw)[i]),
{
    let (apps, e) = registry_scan(lines(raw));
    lemma_registry_scan_shaped(lines(raw));
    lemma_registry_record_shaped(e);
    let out = registry_apps(raw);
    assert forall|i: int| 0 <= i < out.len() implies registry_shaped(#[trigger] out[i]) by {
        if i >= apps.len() {
            assert(out[i] == opt_seq(registry_record(e))[i - apps.len()]);
        } else {
            assert(out[i] == apps[i]);
        }
    }
}

} // verus!
