//! Telling which catalog entries are installed: names reduced to a comparable
//! form, and the index of installed applications by id and by name.
use vstd::prelude::*;
use vstd::utf8::encode_utf8;
use crate::text::{
    alphanumeric, chars_of, contains_chars, has_sub, is_alphanumeric, is_ws, join_spaced,
    lemma_join_words, lemma_join_words_sub, lemma_replace_absent, lemma_replace_by_space,
    lemma_words_of_single_spaced, lowercase, occurs_at, single_spaced, trim, trim_end, trim_start,
    replace_all, replace_chars, same_chars, squeeze_ws, string_of, to_lowercase, utf8_len_at_least, words,
};
use crate::types::{records, AppRecord, InstalledApp};

verus! {

// ───────────────────────── normalized names ─────────────────────────

/// The name with the architecture and channel words `x64`, `x86`, `win64`,
/// `win32`, `stable` and `browser` replaced by spaces, in that order.
pub open spec fn strip_arch(s: Seq<char>) -> Seq<char> {
    replace_all(
        replace_all(
            replace_all(
                replace_all(replace_all(replace_all(s, "x64"@, " "@), "x86"@, " "@), "win64"@, " "@),
                "win32"@,
                " "@,
            ),
            "stable"@,
            " "@,
        ),
        "browser"@,
        " "@,
    )
}

/// Every character that is not alphanumeric replaced by a space.
pub open spec fn blank_non_alphanumeric(s: Seq<char>) -> Seq<char> {
    s.map_values(|c: char| if alphanumeric(c) { c } else { ' ' })
}

/// The comparable form of an application name: lower case, without architecture
/// and channel words, only letters and digits, one space between words.
pub open spec fn normalized_name(name: Seq<char>) -> Seq<char> {
    join_spaced(words(blank_non_alphanumeric(strip_arch(lowercase(name)))))
}

fn replace_word(s: &Vec<char>, word: &str) -> (res: Vec<char>)
    requires
        word@.len() > 0,
    ensures
        res@ == replace_all(s@, word@, " "@),
{
    let w = chars_of(word);
    let sp = chars_of(" ");
    replace_chars(s, &w, &sp)
}

pub fn normalize_name(name: &str) -> (res: String)
    ensures
        res@ == normalized_name(name@),
{
    proof {
        reveal_strlit("x64");
        reveal_strlit("x86");
        reveal_strlit("win64");
        reveal_strlit("win32");
        reveal_strlit("stable");
        reveal_strlit("browser");
    }
    let lower = chars_of(to_lowercase(name).as_str());
    let a = replace_word(&lower, "x64");
    let b = replace_word(&a, "x86");
    let c = replace_word(&b, "win64");
    let d = replace_word(&c, "win32");
    let e = replace_word(&d, "stable");
    let f = replace_word(&e, "browser");
    assert(f@ == strip_arch(lowercase(name@)));
    let mut m: Vec<char> = Vec::new();
    let mut i: usize = 0;
    while i < f.len()
        invariant
            i <= f@.len(),
            m@ == blank_non_alphanumeric(f@.take(i as int)),
        decreases f@.len() - i,
    {
        let ch = f[i];
        if is_alphanumeric(ch) {
            m.push(ch);
        } else {
            m.push(' ');
        }
        assert(blank_non_alphanumeric(f@.take(i + 1)) =~= blank_non_alphanumeric(
            f@.take(i as int),
        ).push(if alphanumeric(ch) { ch } else { ' ' }));
        i = i + 1;
    }
    assert(f@.take(f@.len() as int) =~= f@);
    let sq = squeeze_ws(&m);
    string_of(&sq)
}

/// The words that `strip_arch` takes out, in the order it takes them out.
pub open spec fn arch_words() -> Seq<Seq<char>> {
    seq!["x64"@, "x86"@, "win64"@, "win32"@, "stable"@, "browser"@]
}

proof fn lemma_arch_words_plain()
    ensures
        forall|k: int|
            0 <= k < arch_words().len() ==> (#[trigger] arch_words()[k]).len() > 0 && (forall|j: int|
                0 <= j < arch_words()[k].len() ==> !is_ws(#[trigger] arch_words()[k][j])),
{
    reveal_strlit("x64");
    reveal_strlit("x86");
    reveal_strlit("win64");
    reveal_strlit("win32");
    reveal_strlit("stable");
    reveal_strlit("browser");
}

/// A text without spaces that occurs once the other characters are blanked
/// occurred before.
proof fn lemma_blank_sub(s: Seq<char>, q: Seq<char>)
    requires
        forall|j: int| 0 <= j < q.len() ==> q[j] != ' ',
    ensures
        has_sub(blank_non_alphanumeric(s), q) ==> has_sub(s, q),
{
    let b = blank_non_alphanumeric(s);
    if has_sub(b, q) {
        let i = choose|i: int| occurs_at(b, q, i);
        assert forall|j: int| 0 <= j < q.len() implies s[i + j] == q[j] by {
            assert(q[j] == b.subrange(i, i + q.len())[j]);
        }
        assert(s.subrange(i, i + q.len()) =~= q);
        assert(occurs_at(s, q, i));
    }
}

/// A text without spaces that occurs after `strip_arch` occurred before, and is
/// none of the words taken out.
proof fn lemma_strip_arch_sub(s: Seq<char>, q: Seq<char>)
    requires
        q.len() > 0,
        forall|j: int| 0 <= j < q.len() ==> q[j] != ' ',
    ensures
        has_sub(strip_arch(s), q) ==> has_sub(s, q) && !arch_words().contains(q),
{
    reveal_strlit("x64");
    reveal_strlit("x86");
    reveal_strlit("win64");
    reveal_strlit("win32");
    reveal_strlit("stable");
    reveal_strlit("browser");
    reveal_strlit(" ");
    let sp = " "@;
    assert(sp =~= seq![' ']);
    let s1 = replace_all(s, "x64"@, sp);
    let s2 = replace_all(s1, "x86"@, sp);
    let s3 = replace_all(s2, "win64"@, sp);
    let s4 = replace_all(s3, "win32"@, sp);
    let s5 = replace_all(s4, "stable"@, sp);
    lemma_replace_by_space(s, "x64"@, sp, q);
    lemma_replace_by_space(s1, "x86"@, sp, q);
    lemma_replace_by_space(s2, "win64"@, sp, q);
    lemma_replace_by_space(s3, "win32"@, sp, q);
    lemma_replace_by_space(s4, "stable"@, sp, q);
    lemma_replace_by_space(s5, "browser"@, sp, q);
    if has_sub(strip_arch(s), q) {
        assert forall|k: int| 0 <= k < arch_words().len() implies arch_words()[k] != q by {}
    }
}

/// The comparable form of a name is trimmed, has one space between its words
/// and none doubled, holds nothing but spaces and letters or digits, and none of
/// the words that are taken out. Where lower-casing leaves it as it is, it is
/// its own comparable form.
pub proof fn lemma_normalized_name_shape(name: Seq<char>)
    ensures
        trim(normalized_name(name)) == normalized_name(name),
        !has_sub(normalized_name(name), "  "@),
        forall|i: int|
            0 <= i < normalized_name(name).len() ==> #[trigger] normalized_name(name)[i] == ' '
                || alphanumeric(normalized_name(name)[i]),
        forall|k: int|
            0 <= k < arch_words().len() ==> !has_sub(normalized_name(name), #[trigger] arch_words()[k]),
        lowercase(normalized_name(name)) == normalized_name(name) ==> normalized_name(
            normalized_name(name),
        ) == normalized_name(name),
{
    let s = strip_arch(lowercase(name));
    let b = blank_non_alphanumeric(s);
    let r = normalized_name(name);
    lemma_join_words(b);
    assert(single_spaced(r));
    if r.len() > 0 {
        assert(r[0] == ' ' || !is_ws(r[0]));
        assert(r[r.len() - 1] == ' ' || !is_ws(r[r.len() - 1]));
    }
    assert(trim_start(r) == r);
    assert(trim_end(r) == r);
    reveal_strlit("  ");
    if has_sub(r, "  "@) {
        let i = choose|i: int| occurs_at(r, "  "@, i);
        assert(r[i] == r.subrange(i, i + 2)[0]);
        assert(r[i + 1] == r.subrange(i, i + 2)[1]);
    }
    assert forall|i: int| 0 <= i < r.len() implies #[trigger] r[i] == ' ' || alphanumeric(r[i]) by {
        if r[i] != ' ' {
            assert(b.contains(r[i]));
            let j = choose|j: int| 0 <= j < b.len() && b[j] == r[i];
            assert(b[j] == (if alphanumeric(s[j]) { s[j] } else { ' ' }));
        }
    }
    lemma_arch_words_plain();
    assert forall|k: int| 0 <= k < arch_words().len() implies !has_sub(r, #[trigger] arch_words()[k]) by {
        let q = arch_words()[k];
        lemma_join_words_sub(b, q);
        lemma_blank_sub(s, q);
        lemma_strip_arch_sub(lowercase(name), q);
        assert(arch_words().contains(q));
    }
    if lowercase(r) == r {
        reveal_strlit("x64");
        reveal_strlit("x86");
        reveal_strlit("win64");
        reveal_strlit("win32");
        reveal_strlit("stable");
        reveal_strlit("browser");
        assert(arch_words()[0] == "x64"@);
        assert(arch_words()[1] == "x86"@);
        assert(arch_words()[2] == "win64"@);
        assert(arch_words()[3] == "win32"@);
        assert(arch_words()[4] == "stable"@);
        assert(arch_words()[5] == "browser"@);
        lemma_replace_absent(r, "x64"@, " "@);
        lemma_replace_absent(r, "x86"@, " "@);
        lemma_replace_absent(r, "win64"@, " "@);
        lemma_replace_absent(r, "win32"@, " "@);
        lemma_replace_absent(r, "stable"@, " "@);
        lemma_replace_absent(r, "browser"@, " "@);
        assert(strip_arch(r) == r);
        assert(blank_non_alphanumeric(r) =~= r);
        lemma_words_of_single_spaced(r);
    }
}

// ───────────────────────── the installed index ─────────────────────────

/// The version and source of an installed application, as the list shows them.
#[derive(Debug)]
pub struct InstalledMatch {
    pub version: String,
    pub source: String,
}

impl View for InstalledMatch {
    type V = (Seq<char>, Seq<char>);

    open spec fn view(&self) -> (Seq<char>, Seq<char>) {
        (self.version@, self.source@)
    }
}

impl Clone for InstalledMatch {
    fn clone(&self) -> (res: Self)
        ensures
            res@ == self@,
    {
        InstalledMatch { version: self.version.clone(), source: self.source.clone() }
    }
}

/// The keys and matches of an index.
pub open spec fn entry_views(v: Seq<(String, InstalledMatch)>) -> Seq<(Seq<char>, (Seq<char>, Seq<char>))> {
    v.map_values(|p: (String, InstalledMatch)| (p.0@, p.1@))
}

/// What the index records for an installed application: its version, and its
/// source or `local` when it has none.
pub open spec fn match_of(a: AppRecord) -> (Seq<char>, Seq<char>) {
    (a.version, if a.source.len() == 0 { "local"@ } else { a.source })
}

/// The index by id: each application under its id in lower case.
pub open spec fn id_entries(apps: Seq<AppRecord>) -> Seq<(Seq<char>, (Seq<char>, Seq<char>))> {
    apps.map_values(|a: AppRecord| (lowercase(a.id), match_of(a)))
}

/// The index by name: each application whose normalized name is not empty,
/// under that name, in the order of the list.
pub open spec fn name_entries(apps: Seq<AppRecord>) -> Seq<(Seq<char>, (Seq<char>, Seq<char>))>
    decreases apps.len(),
{
    if apps.len() == 0 {
        Seq::empty()
    } else {
        let before = name_entries(apps.drop_last());
        let n = normalized_name(apps.last().name);
        if n.len() == 0 {
            before
        } else {
            before.push((n, match_of(apps.last())))
        }
    }
}

/// The match stored last under `key` (a later entry replaces an earlier one).
pub open spec fn last_with_key(
    entries: Seq<(Seq<char>, (Seq<char>, Seq<char>))>,
    key: Seq<char>,
) -> Option<(Seq<char>, Seq<char>)>
    decreases entries.len(),
{
    if entries.len() == 0 {
        None
    } else if entries.last().0 == key {
        Some(entries.last().1)
    } else {
        last_with_key(entries.drop_last(), key)
    }
}

/// A name that loosely matches `norm`: at least three bytes long, and one of the
/// two contains the other.
pub open spec fn loosely_matches(n: Seq<char>, norm: Seq<char>) -> bool {
    encode_utf8(n).len() >= 3 && (has_sub(n, norm) || has_sub(norm, n))
}

/// The match of the first entry whose name loosely matches `norm`.
pub open spec fn first_loose(
    entries: Seq<(Seq<char>, (Seq<char>, Seq<char>))>,
    norm: Seq<char>,
) -> Option<(Seq<char>, Seq<char>)>
    decreases entries.len(),
{
    if entries.len() == 0 {
        None
    } else if loosely_matches(entries[0].0, norm) {
        Some(entries[0].1)
    } else {
        first_loose(entries.drop_first(), norm)
    }
}

/// How an application is found among the installed ones: by its id in lower
/// case; else, when its normalized name is not empty, by that name exactly;
/// else, when that name is at least three bytes long, by the first installed
/// name that loosely matches it.
pub open spec fn installed_match(
    by_id: Seq<(Seq<char>, (Seq<char>, Seq<char>))>,
    by_name: Seq<(Seq<char>, (Seq<char>, Seq<char>))>,
    app: AppRecord,
) -> Option<(Seq<char>, Seq<char>)> {
    match last_with_key(by_id, lowercase(app.id)) {
        Some(m) => Some(m),
        None => {
            let norm = normalized_name(app.name);
            if norm.len() == 0 {
                None
            } else {
                match last_with_key(by_name, norm) {
                    Some(m) => Some(m),
                    None => if encode_utf8(norm).len() >= 3 {
                        first_loose(by_name, norm)
                    } else {
                        None
                    },
                }
            }
        },
    }
}

fn match_for(a: &InstalledApp) -> (res: InstalledMatch)
    ensures
        res@ == match_of(a@),
{
    let source = if a.source.as_str().is_empty() {
        String::from_str("local")
    } else {
        a.source.clone()
    };
    InstalledMatch { version: a.version.clone(), source }
}

/// Builds the index by id and the index by name of the installed applications.
pub fn build_installed_index(apps: &Vec<InstalledApp>) -> (res: (
    Vec<(String, InstalledMatch)>,
    Vec<(String, InstalledMatch)>,
))
    ensures
        entry_views(res.0@) == id_entries(records(apps@)),
        entry_views(res.1@) == name_entries(records(apps@)),
{
    let ghost all = records(apps@);
    let mut by_id: Vec<(String, InstalledMatch)> = Vec::new();
    let mut by_name: Vec<(String, InstalledMatch)> = Vec::new();
    let mut k: usize = 0;
    while k < apps.len()
        invariant
            k <= apps@.len(),
            all == records(apps@),
            entry_views(by_id@) == id_entries(all.take(k as int)),
            entry_views(by_name@) == name_entries(all.take(k as int)),
        decreases apps@.len() - k,
    {
        let a = &apps[k];
        let ghost x = all[k as int];
        assert(x == a@);
        assert(all.take(k + 1).drop_last() =~= all.take(k as int));
        assert(all.take(k + 1).last() == x);
        let m = match_for(a);
        let ghost ids0 = entry_views(by_id@);
        let lid = to_lowercase(a.id.as_str());
        let m2 = m.clone();
        by_id.push((lid, m));
        assert(entry_views(by_id@) =~= ids0.push((lowercase(x.id), match_of(x))));
        assert(id_entries(all.take(k + 1)) =~= id_entries(all.take(k as int)).push(
            (lowercase(x.id), match_of(x)),
        ));
        let norm = normalize_name(a.name.as_str());
        if !norm.as_str().is_empty() {
            let ghost names0 = entry_views(by_name@);
            by_name.push((norm, m2));
            assert(entry_views(by_name@) =~= names0.push((normalized_name(x.name), match_of(x))));
        }
        k = k + 1;
    }
    assert(all.take(apps@.len() as int) =~= all);
    (by_id, by_name)
}

fn find_last_with_key(entries: &Vec<(String, InstalledMatch)>, key: &Vec<char>) -> (res: Option<
    InstalledMatch,
>)
    ensures
        match res {
            Some(m) => last_with_key(entry_views(entries@), key@) == Some(m@),
            None => last_with_key(entry_views(entries@), key@) is None,
        },
{
    let ghost all = entry_views(entries@);
    let mut k: usize = entries.len();
    assert(all.take(k as int) =~= all);
    while k > 0
        invariant
            k <= entries@.len(),
            all == entry_views(entries@),
            last_with_key(all, key@) == last_with_key(all.take(k as int), key@),
        decreases k,
    {
        let ghost t = all.take(k as int);
        assert(t.drop_last() =~= all.take(k - 1));
        assert(t.last() == all[k - 1]);
        let e = chars_of(entries[k - 1].0.as_str());
        if same_chars(&e, key) {
            return Some(entries[k - 1].1.clone());
        }
        k = k - 1;
    }
    None
}

fn find_first_loose(entries: &Vec<(String, InstalledMatch)>, norm: &Vec<char>) -> (res: Option<
    InstalledMatch,
>)
    ensures
        match res {
            Some(m) => first_loose(entry_views(entries@), norm@) == Some(m@),
            None => first_loose(entry_views(entries@), norm@) is None,
        },
{
    let ghost all = entry_views(entries@);
    let mut k: usize = 0;
    assert(all.skip(0) =~= all);
    while k < entries.len()
        invariant
            k <= entries@.len(),
            all == entry_views(entries@),
            first_loose(all, norm@) == first_loose(all.skip(k as int), norm@),
        decreases entries@.len() - k,
    {
        let ghost t = all.skip(k as int);
        assert(t.drop_first() =~= all.skip(k + 1));
        assert(t[0] == all[k as int]);
        let name = &entries[k].0;
        assert(all[k as int].0 == name@);
        let n = chars_of(name.as_str());
        if utf8_len_at_least(&n, 3) && (contains_chars(&n, norm) || contains_chars(norm, &n)) {
            return Some(entries[k].1.clone());
        }
        k = k + 1;
    }
    assert(all.skip(k as int) =~= Seq::<(Seq<char>, (Seq<char>, Seq<char>))>::empty());
    None
}

/// Looks an application up among the installed ones (see `installed_match`).
pub fn find_installed_fields(
    installed_map: &Vec<(String, InstalledMatch)>,
    installed_entries: &Vec<(String, InstalledMatch)>,
    app: &InstalledApp,
) -> (res: Option<InstalledMatch>)
    ensures
        match res {
            Some(m) => installed_match(entry_views(installed_map@), entry_views(installed_entries@), app@)
                == Some(m@),
            None => installed_match(
                entry_views(installed_map@),
                entry_views(installed_entries@),
                app@,
            ) is None,
        },
{
    let lid = chars_of(to_lowercase(app.id.as_str()).as_str());
    match find_last_with_key(installed_map, &lid) {
        Some(m) => {
            return Some(m);
        },
        None => {},
    }
    let norm_s = normalize_name(app.name.as_str());
    if norm_s.as_str().is_empty() {
        return None;
    }
    let norm = chars_of(norm_s.as_str());
    match find_last_with_key(installed_entries, &norm) {
        Some(m) => {
            return Some(m);
        },
        None => {},
    }
    assert(norm@ == normalized_name(app@.name));
    if utf8_len_at_least(&norm, 3) {
        find_first_loose(installed_entries, &norm)
    } else {
        None
    }
}

proof fn lemma_last_with_key_found(entries: Seq<(Seq<char>, (Seq<char>, Seq<char>))>, i: int)
    requires
        0 <= i < entries.len(),
    ensures
        last_with_key(entries, entries[i].0) is Some,
    decreases entries.len(),
{
    if entries.last().0 != entries[i].0 {
        assert(i < entries.len() - 1);
        assert(entries.drop_last()[i] == entries[i]);
        lemma_last_with_key_found(entries.drop_last(), i);
    }
}

/// Every installed application is found in the index built from the installed
/// applications.
pub proof fn lemma_installed_apps_are_found(apps: Seq<AppRecord>, i: int)
    requires
        0 <= i < apps.len(),
    ensures
        installed_match(id_entries(apps), name_entries(apps), apps[i]) is Some,
{
    let ids = id_entries(apps);
    assert(ids[i].0 == lowercase(apps[i].id));
    lemma_last_with_key_found(ids, i);
}

} // verus!
