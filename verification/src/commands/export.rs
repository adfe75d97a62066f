//! Exporting the installed applications as a configuration: which ones, how
//! each is written, and in what order.
use vstd::prelude::*;
use crate::order::{key_views, sort_by_keys, sorted_by_keys, SortKey};
use crate::text::{
    append_chars, chars_of, decimal, lowercase, same_chars, string_of, to_lowercase, usize_digits,
};
use crate::types::{config_records, records, AppConfig, AppRecord, Config, ConfigRecord, InstalledApp};

verus! {

/// `s` cut to `max` characters: unchanged when it has no more; otherwise its
/// first `max - 1` characters and an ellipsis (nothing for `max` 0).
pub open spec fn char_truncated(s: Seq<char>, max: nat) -> Seq<char> {
    if s.len() <= max {
        s
    } else if max == 0 {
        Seq::empty()
    } else {
        s.take(max - 1).push('\u{2026}')
    }
}

/// Truncates `s` to `max` characters (see `char_truncated`).
pub fn truncate(s: &str, max: usize) -> (res: String)
    ensures
        res@ == char_truncated(s@, max as nat),
{
    let c = chars_of(s);
    if c.len() <= max {
        return string_of(&c);
    }
    if max == 0 {
        return String::new();
    }
    let mut out: Vec<char> = Vec::new();
    let mut k: usize = 0;
    while k < max - 1
        invariant
            k <= max - 1,
            max - 1 < c@.len(),
            out@ == c@.take(k as int),
        decreases max - 1 - k,
    {
        out.push(c[k]);
        assert(c@.take(k + 1) =~= c@.take(k as int).push(c@[k as int]));
        k = k + 1;
    }
    out.push('\u{2026}');
    string_of(&out)
}

/// An application installed from the `winget` source is available there
/// without asking.
pub open spec fn from_winget(a: AppRecord) -> bool {
    lowercase(a.source) == "winget"@
}

/// Whether an application was installed from the `winget` source.
pub fn is_from_winget(app: &InstalledApp) -> (res: bool)
    ensures
        res == from_winget(app@),
{
    let l = chars_of(to_lowercase(app.source.as_str()).as_str());
    let w = chars_of("winget");
    same_chars(&l, &w)
}

/// The entry exported for an application: its id and name, version `latest`,
/// and, when it is not available in `winget`, a note to install it by hand.
pub open spec fn export_entry_of(a: AppRecord, available: bool) -> ConfigRecord {
    ConfigRecord {
        id: a.id,
        name: a.name,
        version: "latest"@,
        available_in_winget: available,
        note: if available { None } else { Some("Not available via winget - install manually"@) },
    }
}

pub fn export_entry(app: &InstalledApp, available: bool) -> (res: AppConfig)
    ensures
        res@ == export_entry_of(app@, available),
{
    AppConfig {
        id: app.id.clone(),
        name: app.name.clone(),
        version: String::from_str("latest"),
        available_in_winget: available,
        note: if available {
            None
        } else {
            Some(String::from_str("Not available via winget - install manually"))
        },
    }
}

/// The order of an export: the entries available in `winget` first, each
/// group by name; the key `0` marks the available ones, `1` the others.
pub open spec fn export_key(e: ConfigRecord) -> (Seq<char>, Seq<char>) {
    (if e.available_in_winget { "0"@ } else { "1"@ }, e.name)
}

/// The exported entries, one per application with its availability, in the
/// export order.
pub open spec fn exported(apps: Seq<AppRecord>, available: Seq<bool>) -> Seq<ConfigRecord> {
    let entries = Seq::new(apps.len(), |i: int| export_entry_of(apps[i], available[i]));
    sorted_by_keys(entries.map_values(|e: ConfigRecord| export_key(e)), entries)
}

/// The configuration exported for the applications, given whether each is
/// available in `winget`.
pub fn export_config(apps: &Vec<InstalledApp>, available: &Vec<bool>) -> (res: Config)
    requires
        apps@.len() == available@.len(),
    ensures
        config_records(res.apps@) == exported(records(apps@), available@),
{
    let ghost entries = Seq::new(
        apps@.len(),
        |i: int| export_entry_of(records(apps@)[i], available@[i]),
    );
    let ghost ks = entries.map_values(|e: ConfigRecord| export_key(e));
    let mut out: Vec<AppConfig> = Vec::new();
    let mut keys: Vec<SortKey> = Vec::new();
    let mut k: usize = 0;
    proof {
        reveal_strlit("0");
        reveal_strlit("1");
    }
    while k < apps.len()
        invariant
            k <= apps@.len(),
            apps@.len() == available@.len(),
            entries == Seq::new(apps@.len(), |i: int| export_entry_of(records(apps@)[i], available@[i])),
            ks == entries.map_values(|e: ConfigRecord| export_key(e)),
            config_records(out@) == entries.take(k as int),
            key_views(keys@) == ks.take(k as int),
        decreases apps@.len() - k,
    {
        let e = export_entry(&apps[k], available[k]);
        let first = if available[k] { chars_of("0") } else { chars_of("1") };
        let second = chars_of(e.name.as_str());
        let ghost c0 = config_records(out@);
        let ghost k0 = key_views(keys@);
        assert(entries[k as int] == e@);
        out.push(e);
        keys.push(SortKey { first, second });
        assert(config_records(out@) =~= c0.push(entries[k as int]));
        assert(key_views(keys@) =~= k0.push(ks[k as int]));
        assert(entries.take(k + 1) =~= entries.take(k as int).push(entries[k as int]));
        assert(ks.take(k + 1) =~= ks.take(k as int).push(ks[k as int]));
        k = k + 1;
    }
    assert(entries.take(apps@.len() as int) =~= entries);
    assert(ks.take(apps@.len() as int) =~= ks);
    let ghost items = out@;
    let sorted = sort_by_keys(out, keys);
    proof {
        crate::order::lemma_sorted_by_keys_map(ks, items, |a: AppConfig| a@);
    }
    Config { apps: sorted }
}

/// How many of the flags are set.
pub open spec fn count_true(v: Seq<bool>) -> nat {
    v.filter(|b: bool| b).len()
}

pub fn count_available(available: &Vec<bool>) -> (res: usize)
    ensures
        res == count_true(available@),
{
    let ghost all = available@;
    let mut n: usize = 0;
    let mut k: usize = 0;
    while k < available.len()
        invariant
            k <= available@.len(),
            all == available@,
            n == all.take(k as int).filter(|b: bool| b).len(),
            n <= k,
        decreases available@.len() - k,
    {
        reveal_with_fuel(Seq::<_>::filter, 1);
        assert(all.take(k + 1).drop_last() =~= all.take(k as int));
        if available[k] {
            n = n + 1;
        }
        k = k + 1;
    }
    assert(all.take(available@.len() as int) =~= all);
    n
}

/// The progress line while availability is checked: the position, the total,
/// and the name cut to 40 characters and padded to 40.
pub open spec fn checking_line(i: nat, total: nat, name: Seq<char>) -> Seq<char> {
    let shown = char_truncated(name, 40);
    "\r  Checking "@ + decimal((i + 1) as int) + "/"@ + decimal(total as int) + ": "@ + shown + Seq::new(
        (40 - shown.len()) as nat,
        |j: int| ' ',
    )
}

pub fn checking_text(i: usize, total: usize, name: &str) -> (res: String)
    ensures
        res@ == checking_line(i as nat, total as nat, name@),
{
    let shown = truncate(name, 40);
    let sc = chars_of(shown.as_str());
    let mut out = chars_of("\r  Checking ");
    append_chars(&mut out, &crate::text::digits_u128(i as u128 + 1));
    append_chars(&mut out, &chars_of("/"));
    append_chars(&mut out, &usize_digits(total));
    append_chars(&mut out, &chars_of(": "));
    append_chars(&mut out, &sc);
    let ghost before = out@;
    let pad = 40 - sc.len();
    let mut k: usize = 0;
    while k < pad
        invariant
            k <= pad,
            out@ == before + Seq::new(k as nat, |j: int| ' '),
        decreases pad - k,
    {
        out.push(' ');
        assert(before + Seq::new((k + 1) as nat, |j: int| ' ') =~= (before + Seq::new(
            k as nat,
            |j: int| ' ',
        )).push(' '));
        k = k + 1;
    }
    string_of(&out)
}

/// An export lists the entries available in `winget` before the others, each
/// group ordered by name; it holds one entry per application.
pub proof fn lemma_export_order(apps: Seq<AppRecord>, available: Seq<bool>)
    requires
        apps.len() == available.len(),
    ensures
        forall|i: int, j: int|
            0 <= i < j < exported(apps, available).len() ==> ((#[trigger] exported(apps, available)[i]).available_in_winget
                || !(#[trigger] exported(apps, available)[j]).available_in_winget),
        forall|i: int, j: int|
            0 <= i < j < exported(apps, available).len() && (#[trigger] exported(apps, available)[i]).available_in_winget
                == (#[trigger] exported(apps, available)[j]).available_in_winget ==> !crate::text::lex_lt(
                exported(apps, available)[j].name,
                exported(apps, available)[i].name,
            ),
        exported(apps, available).len() == apps.len(),
{
    let entries = Seq::new(apps.len(), |i: int| export_entry_of(apps[i], available[i]));
    let key = |e: ConfigRecord| export_key(e);
    assert(entries.map_values(|e: ConfigRecord| export_key(e)) =~= entries.map_values(key));
    crate::order::lemma_sorted_by_keys_ordered(entries, key);
    crate::order::lemma_sorted_by_keys_len(entries.map_values(key), entries);
    let out = exported(apps, available);
    reveal_strlit("0");
    reveal_strlit("1");
    assert forall|i: int, j: int| 0 <= i < j < out.len() implies ((#[trigger] out[i]).available_in_winget
        || !(#[trigger] out[j]).available_in_winget) by {
        assert(!crate::order::key_lt(key(out[j]), key(out[i])));
        if !out[i].available_in_winget && out[j].available_in_winget {
            assert(crate::text::lex_lt("0"@, "1"@));
        }
    }
    assert forall|i: int, j: int|
        0 <= i < j < out.len() && (#[trigger] out[i]).available_in_winget == (#[trigger] out[j]).available_in_winget
        implies !crate::text::lex_lt(out[j].name, out[i].name) by {
        assert(!crate::order::key_lt(key(out[j]), key(out[i])));
    }
}

/// Every exported entry is the entry of one of the applications: version
/// `latest`, and the note to install by hand exactly when it is not available
/// in `winget`.
pub proof fn lemma_export_marks_availability(apps: Seq<AppRecord>, available: Seq<bool>)
    requires
        apps.len() == available.len(),
    ensures
        forall|i: int|
            0 <= i < exported(apps, available).len() ==> exists|k: int|
                0 <= k < apps.len() && #[trigger] exported(apps, available)[i] == export_entry_of(
                    apps[k],
                    available[k],
                ),
        forall|i: int|
            0 <= i < exported(apps, available).len() ==> (#[trigger] exported(apps, available)[i]).version
                == "latest"@ && (exported(apps, available)[i].available_in_winget <==> exported(
                apps,
                available,
            )[i].note is None),
{
    broadcast use vstd::seq_lib::to_multiset_contains;

    let entries = Seq::new(apps.len(), |i: int| export_entry_of(apps[i], available[i]));
    let ks = entries.map_values(|e: ConfigRecord| export_key(e));
    crate::order::lemma_sorted_by_keys_permutes(ks, entries);
    let out = exported(apps, available);
    assert forall|i: int| 0 <= i < out.len() implies exists|k: int|
        0 <= k < apps.len() && #[trigger] out[i] == export_entry_of(apps[k], available[k]) by {
        assert(out.contains(out[i]));
        assert(out.to_multiset().count(out[i]) > 0);
        assert(entries.contains(out[i]));
        let k = choose|k: int| 0 <= k < entries.len() && entries[k] == out[i];
        assert(out[i] == export_entry_of(apps[k], available[k]));
    }
    assert forall|i: int| 0 <= i < out.len() implies (#[trigger] out[i]).version == "latest"@ && (
    out[i].available_in_winget <==> out[i].note is None) by {
        let k = choose|k: int| 0 <= k < apps.len() && out[i] == export_entry_of(apps[k], available[k]);
    }
}

} // verus!
