//! The tables that `winget list` and `winget search` print.
//!
//! A header line, a separator of dashes, then one row per package. Columns are
//! taken from the dash groups of the separator; when they give nothing, rows are
//! split at runs of two or more whitespace characters.
use vstd::prelude::*;
use crate::pattern::{regex_compiles, regex_replace_all, regex_split, string_views, CompiledRegex};
use crate::text::{
    split_on, chars_of, has_prefix, is_blank, last_piece, last_piece_chars, lemma_trim_empty, seqs_of,
    split_chars, starts_with_chars, string_of, subrange_chars, trim, trim_chars, trim_str,
};
use crate::types::{records, AppRecord, InstalledApp};

verus! {

// ───────────────────────── cleaning the raw output ─────────────────────────

/// The control sequences that `winget` writes around its tables.
pub open spec fn ansi_pattern() -> Seq<char> {
    "\x1b\\[[0-9;?]*[ -/]*[@-~]"@
}

/// The gaps between cells when the table is split by spacing.
pub open spec fn spacing_pattern() -> Seq<char> {
    "\\s{2,}"@
}

/// `s` without leading byte order marks.
pub open spec fn skip_bom(s: Seq<char>) -> Seq<char>
    decreases s.len(),
{
    if s.len() > 0 && s[0] == '\u{feff}' {
        skip_bom(s.drop_first())
    } else {
        s
    }
}

/// One line as the table parser sees it: the text after its last carriage
/// return, with the control sequences removed when the pattern compiles.
pub open spec fn cleaned_line(l: Seq<char>) -> Seq<char> {
    if regex_compiles(ansi_pattern()) {
        regex_replace_all(ansi_pattern(), last_piece(l, '\r'), Seq::<char>::empty())
    } else {
        last_piece(l, '\r')
    }
}

/// The non-blank cleaned lines of the raw output.
pub open spec fn table_lines(raw: Seq<char>) -> Seq<Seq<char>> {
    crate::text::split_on(skip_bom(raw), '\n').map_values(|l: Seq<char>| cleaned_line(l)).filter(
        |l: Seq<char>| !is_blank(l),
    )
}

// ───────────────────────── finding the columns ─────────────────────────

/// A separator line: once trimmed, at least three characters, all dashes or spaces.
pub open spec fn is_separator(l: Seq<char>) -> bool {
    let t = trim(l);
    t.len() >= 3 && forall|i: int| 0 <= i < t.len() ==> (#[trigger] t[i] == '-' || t[i] == ' ')
}

/// The index of the first separator line at or after `i`.
pub open spec fn separator_from(lines: Seq<Seq<char>>, i: int) -> Option<int>
    decreases lines.len() - i,
{
    if i < 0 || i >= lines.len() {
        None
    } else if is_separator(lines[i]) {
        Some(i)
    } else {
        separator_from(lines, i + 1)
    }
}

/// Where the dash groups of a separator start, scanning from `i`; a space ends a
/// group, other characters neither start nor end one.
pub open spec fn dash_starts(s: Seq<char>, i: int, in_dash: bool) -> Seq<int>
    decreases s.len() - i,
{
    if i < 0 || i >= s.len() {
        Seq::<int>::empty()
    } else if s[i] == '-' && !in_dash {
        seq![i] + dash_starts(s, i + 1, true)
    } else if s[i] == '-' {
        dash_starts(s, i + 1, true)
    } else if s[i] == ' ' {
        dash_starts(s, i + 1, false)
    } else {
        dash_starts(s, i + 1, in_dash)
    }
}

/// The column starts of a separator line.
pub open spec fn column_starts(sep: Seq<char>) -> Seq<int> {
    dash_starts(sep, 0, false)
}

// ───────────────────────── rows by columns ─────────────────────────

pub open spec fn min_int(a: int, b: int) -> int {
    if a <= b { a } else { b }
}

/// The trimmed characters of `line` from `s` up to `e`, both clamped to the line.
pub open spec fn cell(line: Seq<char>, s: int, e: int) -> Seq<char> {
    let a = min_int(s, line.len() as int);
    let b = min_int(e, line.len() as int);
    trim(line.subrange(a, if b < a { a } else { b }))
}

/// Where column `k` ends: the next column start, or the end of the line.
pub open spec fn column_end(line: Seq<char>, cs: Seq<int>, k: int) -> int {
    if k + 1 < cs.len() { cs[k + 1] } else { line.len() as int }
}

pub open spec fn is_rule(line: Seq<char>) -> bool {
    has_prefix(trim(line), "---"@)
}

/// The package in one row, read by columns: name, id, version (when there are
/// three columns or more) and the last column as the source; no package when the
/// row is a rule or its name or id is empty.
pub open spec fn column_row(line: Seq<char>, cs: Seq<int>) -> Option<AppRecord> {
    if is_rule(line) {
        None
    } else {
        let name = cell(line, cs[0], column_end(line, cs, 0));
        let id = cell(line, cs[1], column_end(line, cs, 1));
        let version = if cs.len() > 2 {
            cell(line, cs[2], column_end(line, cs, 2))
        } else {
            Seq::<char>::empty()
        };
        let source = cell(line, cs[cs.len() - 1], line.len() as int);
        if name.len() > 0 && id.len() > 0 {
            Some(AppRecord { name, id, version, source })
        } else {
            None
        }
    }
}

// ───────────────────────── rows by spacing ─────────────────────────

/// The non-blank pieces of a trimmed row split at the spacing pattern.
pub open spec fn spacing_parts(line: Seq<char>) -> Seq<Seq<char>> {
    regex_split(spacing_pattern(), trim(line)).filter(|p: Seq<char>| !is_blank(p))
}

/// The package in one row split by spacing: the first three pieces are name, id
/// and version, the last one the source when there are more than three.
pub open spec fn spacing_row(line: Seq<char>) -> Option<AppRecord> {
    let parts = spacing_parts(line);
    if is_rule(line) || parts.len() < 3 {
        None
    } else {
        Some(
            AppRecord {
                name: trim(parts[0]),
                id: trim(parts[1]),
                version: trim(parts[2]),
                source: if parts.len() > 3 { trim(parts.last()) } else { Seq::<char>::empty() },
            },
        )
    }
}

pub open spec fn spacing_rows(lines: Seq<Seq<char>>, sep: int) -> Seq<AppRecord> {
    if regex_compiles(spacing_pattern()) {
        lines.skip(sep + 1).filter_map(|l: Seq<char>| spacing_row(l))
    } else {
        Seq::<AppRecord>::empty()
    }
}

/// The packages of a table given as its non-blank lines.
pub open spec fn table_rows(lines: Seq<Seq<char>>) -> Seq<AppRecord> {
    match separator_from(lines, 0) {
        None => Seq::<AppRecord>::empty(),
        Some(sep) => {
            let cs = column_starts(lines[sep]);
            if cs.len() < 2 {
                spacing_rows(lines, sep)
            } else {
                let rows = lines.skip(sep + 1).filter_map(|l: Seq<char>| column_row(l, cs));
                if rows.len() == 0 {
                    spacing_rows(lines, sep)
                } else {
                    rows
                }
            }
        },
    }
}

// ───────────────────────── executable parsing ─────────────────────────

fn is_separator_line(l: &Vec<char>) -> (res: bool)
    ensures
        res == is_separator(l@),
{
    let t = trim_chars(l);
    if t.len() < 3 {
        return false;
    }
    let mut k: usize = 0;
    while k < t.len()
        invariant
            k <= t@.len(),
            t@ == trim(l@),
            forall|i: int| 0 <= i < k ==> (#[trigger] t@[i] == '-' || t@[i] == ' '),
        decreases t@.len() - k,
    {
        if t[k] != '-' && t[k] != ' ' {
            assert(!(t@[k as int] == '-' || t@[k as int] == ' '));
            assert(trim(l@)[k as int] == t@[k as int]);
            assert(!is_separator(l@));
            return false;
        }
        k = k + 1;
    }
    true
}

fn find_separator(lines: &Vec<Vec<char>>) -> (res: Option<usize>)
    ensures
        match res {
            Some(i) => separator_from(seqs_of(lines@), 0) == Some(i as int) && i < lines@.len(),
            None => separator_from(seqs_of(lines@), 0) is None,
        },
{
    let ghost ls = seqs_of(lines@);
    let mut i: usize = 0;
    while i < lines.len()
        invariant
            i <= lines@.len(),
            ls == seqs_of(lines@),
            separator_from(ls, 0) == separator_from(ls, i as int),
        decreases lines@.len() - i,
    {
        assert(lines@[i as int]@ == ls[i as int]);
        if is_separator_line(&lines[i]) {
            return Some(i);
        }
        i = i + 1;
    }
    None
}

fn find_column_starts(sep: &Vec<char>) -> (res: Vec<usize>)
    ensures
        res@.map_values(|u: usize| u as int) == column_starts(sep@),
        forall|k: int| 0 <= k < res@.len() ==> #[trigger] res@[k] < sep@.len(),
{
    let mut out: Vec<usize> = Vec::new();
    let mut in_dash = false;
    let mut i: usize = 0;
    while i < sep.len()
        invariant
            i <= sep@.len(),
            column_starts(sep@) == out@.map_values(|u: usize| u as int) + dash_starts(
                sep@,
                i as int,
                in_dash,
            ),
            forall|k: int| 0 <= k < out@.len() ==> #[trigger] out@[k] < sep@.len(),
        decreases sep@.len() - i,
    {
        let ghost before = out@.map_values(|u: usize| u as int);
        let c = sep[i];
        if c == '-' && !in_dash {
            out.push(i);
            in_dash = true;
            assert(out@.map_values(|u: usize| u as int) =~= before.push(i as int));
            assert(before + (seq![i as int] + dash_starts(sep@, i + 1, true)) =~= before.push(
                i as int,
            ) + dash_starts(sep@, i + 1, true));
        } else if c == ' ' {
            in_dash = false;
        }
        i = i + 1;
    }
    assert(out@.map_values(|u: usize| u as int) + Seq::<int>::empty() =~= out@.map_values(
        |u: usize| u as int,
    ));
    out
}

fn min_usize(a: usize, b: usize) -> (r: usize)
    ensures
        r as int == min_int(a as int, b as int),
{
    if a <= b { a } else { b }
}

fn cell_exec(line: &Vec<char>, s: usize, e: usize) -> (res: String)
    ensures
        res@ == cell(line@, s as int, e as int),
{
    let a = min_usize(s, line.len());
    let b = min_usize(e, line.len());
    let b2 = if b < a { a } else { b };
    let piece = subrange_chars(line, a, b2);
    string_of(&trim_chars(&piece))
}

fn is_rule_exec(line: &Vec<char>) -> (res: bool)
    ensures
        res == is_rule(line@),
{
    let t = trim_chars(line);
    let dashes = chars_of("---");
    starts_with_chars(&t, &dashes)
}

fn column_row_exec(line: &Vec<char>, cs: &Vec<usize>) -> (res: Option<InstalledApp>)
    requires
        cs@.len() >= 2,
    ensures
        match res {
            Some(a) => column_row(line@, cs@.map_values(|u: usize| u as int)) == Some(a@),
            None => column_row(line@, cs@.map_values(|u: usize| u as int)) is None,
        },
{
    let ghost csi = cs@.map_values(|u: usize| u as int);
    if is_rule_exec(line) {
        return None;
    }
    let ll = line.len();
    let n = cs.len();
    let name = cell_exec(line, cs[0], cs[1]);
    let id = cell_exec(line, cs[1], if n > 2 { cs[2] } else { ll });
    let version = if n > 2 {
        cell_exec(line, cs[2], if n > 3 { cs[3] } else { ll })
    } else {
        String::new()
    };
    let source = cell_exec(line, cs[n - 1], ll);
    proof {
        assert(csi[0] == cs@[0] as int);
        assert(csi[1] == cs@[1] as int);
        if n > 2 {
            assert(csi[2] == cs@[2] as int);
        }
        if n > 3 {
            assert(csi[3] == cs@[3] as int);
        }
        assert(csi[n - 1] == cs@[n - 1] as int);
    }
    if !name.as_str().is_empty() && !id.as_str().is_empty() {
        Some(InstalledApp::new(name, id, version, source))
    } else {
        None
    }
}

/// The packages of the rows after the separator, read by columns.
fn rows_by_columns(lines: &Vec<Vec<char>>, sep: usize, cs: &Vec<usize>) -> (res: Vec<InstalledApp>)
    requires
        sep < lines@.len(),
        cs@.len() >= 2,
    ensures
        records(res@) == seqs_of(lines@).skip(sep + 1).filter_map(
            |l: Seq<char>| column_row(l, cs@.map_values(|u: usize| u as int)),
        ),
{
    let ghost csi = cs@.map_values(|u: usize| u as int);
    let ghost f = |l: Seq<char>| column_row(l, csi);
    let ghost rest = seqs_of(lines@).skip(sep + 1);
    let mut out: Vec<InstalledApp> = Vec::new();
    let n = lines.len();
    let mut k: usize = sep + 1;
    while k < lines.len()
        invariant
            sep < k <= lines@.len(),
            cs@.len() >= 2,
            csi == cs@.map_values(|u: usize| u as int),
            rest == seqs_of(lines@).skip(sep + 1),
            f == (|l: Seq<char>| column_row(l, csi)),
            records(out@) == rest.take(k - sep - 1).filter_map(f),
        decreases lines@.len() - k,
    {
        let ghost before = records(out@);
        let ghost pre = rest.take(k - sep - 1);
        let ghost pre1 = rest.take(k - sep);
        assert(pre1.drop_last() =~= pre);
        assert(pre1.last() == lines@[k as int]@);
        match column_row_exec(&lines[k], cs) {
            Some(a) => {
                out.push(a);
                assert(records(out@) =~= before.push(a@));
                assert(pre1.filter_map(f) == pre.filter_map(f) + seq![a@]);
            },
            None => {
                assert(pre1.filter_map(f) == pre.filter_map(f));
            },
        }
        k = k + 1;
    }
    assert(rest.take(k - sep - 1) =~= rest);
    out
}

fn spacing_row_exec(splitter: &CompiledRegex, line: &Vec<char>) -> (res: Option<InstalledApp>)
    requires
        splitter@ == spacing_pattern(),
    ensures
        match res {
            Some(a) => spacing_row(line@) == Some(a@),
            None => spacing_row(line@) is None,
        },
{
    let trimmed = string_of(&trim_chars(line));
    let pieces = splitter.split(trimmed.as_str());
    let ghost all = string_views(pieces@);
    let ghost keep = |p: Seq<char>| !is_blank(p);
    let mut parts: Vec<String> = Vec::new();
    let mut k: usize = 0;
    while k < pieces.len()
        invariant
            k <= pieces@.len(),
            all == string_views(pieces@),
            keep == (|p: Seq<char>| !is_blank(p)),
            string_views(parts@) == all.take(k as int).filter(keep),
        decreases pieces@.len() - k,
    {
        let ghost before = string_views(parts@);
        assert(all.take(k + 1).drop_last() =~= all.take(k as int));
        assert(all.take(k + 1).last() == pieces@[k as int]@);
        let t = trim_str(pieces[k].as_str());
        proof {
            lemma_trim_empty(pieces@[k as int]@);
        }
        let ghost x = pieces@[k as int]@;
        if !t.as_str().is_empty() {
            parts.push(pieces[k].clone());
            assert(string_views(parts@) =~= before.push(x));
            assert(keep(x));
            reveal_with_fuel(Seq::<_>::filter, 1);
            assert(all.take(k + 1).last() == x);
            assert(all.take(k + 1).filter(keep) == all.take(k as int).filter(keep).push(x));
        } else {
            assert(!keep(x));
            reveal_with_fuel(Seq::<_>::filter, 1);
            assert(all.take(k + 1).last() == x);
            assert(all.take(k + 1).filter(keep) == all.take(k as int).filter(keep));
        }
        k = k + 1;
    }
    assert(all.take(pieces@.len() as int) =~= all);
    let ghost ps = string_views(parts@);
    assert(ps == spacing_parts(line@));
    if is_rule_exec(line) || parts.len() < 3 {
        return None;
    }
    let n = parts.len();
    let name = trim_str(parts[0].as_str());
    let id = trim_str(parts[1].as_str());
    let version = trim_str(parts[2].as_str());
    let source = if n > 3 {
        trim_str(parts[n - 1].as_str())
    } else {
        String::new()
    };
    proof {
        assert(ps[0] == parts@[0]@);
        assert(ps[1] == parts@[1]@);
        assert(ps[2] == parts@[2]@);
        assert(ps.last() == parts@[n - 1]@);
    }
    Some(InstalledApp::new(name, id, version, source))
}

/// The packages of the rows after the separator, split at runs of whitespace.
pub fn parse_table_by_spacing(lines: &Vec<Vec<char>>, sep: usize) -> (res: Vec<InstalledApp>)
    requires
        sep < lines@.len(),
    ensures
        records(res@) == spacing_rows(seqs_of(lines@), sep as int),
{
    let splitter = match CompiledRegex::new("\\s{2,}") {
        Some(r) => r,
        None => {
            return Vec::new();
        },
    };
    let ghost f = |l: Seq<char>| spacing_row(l);
    let ghost rest = seqs_of(lines@).skip(sep + 1);
    let mut out: Vec<InstalledApp> = Vec::new();
    let n = lines.len();
    let mut k: usize = sep + 1;
    while k < lines.len()
        invariant
            sep < k <= lines@.len(),
            splitter@ == spacing_pattern(),
            rest == seqs_of(lines@).skip(sep + 1),
            f == (|l: Seq<char>| spacing_row(l)),
            records(out@) == rest.take(k - sep - 1).filter_map(f),
        decreases lines@.len() - k,
    {
        let ghost before = records(out@);
        let ghost pre = rest.take(k - sep - 1);
        let ghost pre1 = rest.take(k - sep);
        assert(pre1.drop_last() =~= pre);
        assert(pre1.last() == lines@[k as int]@);
        match spacing_row_exec(&splitter, &lines[k]) {
            Some(a) => {
                out.push(a);
                assert(records(out@) =~= before.push(a@));
                assert(pre1.filter_map(f) == pre.filter_map(f) + seq![a@]);
            },
            None => {
                assert(pre1.filter_map(f) == pre.filter_map(f));
            },
        }
        k = k + 1;
    }
    assert(rest.take(k - sep - 1) =~= rest);
    out
}

/// The packages of a table given as its non-blank lines.
pub fn parse_table_lines(lines: &Vec<Vec<char>>) -> (res: Vec<InstalledApp>)
    ensures
        records(res@) == table_rows(seqs_of(lines@)),
{
    let sep = match find_separator(lines) {
        Some(i) => i,
        None => {
            return Vec::new();
        },
    };
    let cs = find_column_starts(&lines[sep]);
    assert(lines@[sep as int]@ == seqs_of(lines@)[sep as int]);
    if cs.len() < 2 {
        return parse_table_by_spacing(lines, sep);
    }
    let apps = rows_by_columns(lines, sep, &cs);
    if apps.len() == 0 {
        parse_table_by_spacing(lines, sep)
    } else {
        apps
    }
}

// ───────────────────────── from raw output ─────────────────────────

fn skip_bom_chars(s: &Vec<char>) -> (res: Vec<char>)
    ensures
        res@ == skip_bom(s@),
{
    let mut i: usize = 0;
    assert(s@.skip(0) =~= s@);
    while i < s.len() && s[i] == '\u{feff}'
        invariant
            i <= s@.len(),
            skip_bom(s@) == skip_bom(s@.skip(i as int)),
        decreases s@.len() - i,
    {
        assert(s@.skip(i as int).drop_first() =~= s@.skip(i + 1));
        i = i + 1;
    }
    let r = subrange_chars(s, i, s.len());
    assert(s@.subrange(i as int, s@.len() as int) =~= s@.skip(i as int));
    r
}

/// The non-blank cleaned lines of raw `winget` output.
pub fn clean_table_lines(raw: &str) -> (res: Vec<Vec<char>>)
    ensures
        seqs_of(res@) == table_lines(raw@),
{
    let all = chars_of(raw);
    let body = skip_bom_chars(&all);
    let pieces = split_chars(&body, '\n');
    let ansi = CompiledRegex::new("\x1b\\[[0-9;?]*[ -/]*[@-~]");
    let ghost ps = seqs_of(pieces@);
    let ghost cleaned = ps.map_values(|l: Seq<char>| cleaned_line(l));
    let ghost keep = |l: Seq<char>| !is_blank(l);
    let mut out: Vec<Vec<char>> = Vec::new();
    let mut k: usize = 0;
    while k < pieces.len()
        invariant
            k <= pieces@.len(),
            ps == seqs_of(pieces@),
            ps == crate::text::split_on(skip_bom(raw@), '\n'),
            cleaned == ps.map_values(|l: Seq<char>| cleaned_line(l)),
            keep == (|l: Seq<char>| !is_blank(l)),
            ansi is Some == regex_compiles(ansi_pattern()),
            ansi matches Some(r) ==> r@ == ansi_pattern(),
            seqs_of(out@) == cleaned.take(k as int).filter(keep),
        decreases pieces@.len() - k,
    {
        let ghost before = seqs_of(out@);
        let tail = last_piece_chars(&pieces[k], '\r');
        let line: Vec<char> = match &ansi {
            Some(re) => {
                let t = string_of(&tail);
                let empty = String::new();
                let r = re.replace_all(t.as_str(), empty.as_str());
                chars_of(r.as_str())
            },
            None => tail,
        };
        assert(pieces@[k as int]@ == ps[k as int]);
        assert(line@ == cleaned[k as int]);
        assert(cleaned.take(k + 1).drop_last() =~= cleaned.take(k as int));
        let t = trim_chars(&line);
        proof {
            lemma_trim_empty(line@);
        }
        let ghost x = cleaned[k as int];
        if t.len() > 0 {
            out.push(line);
            assert(seqs_of(out@) =~= before.push(x));
            assert(keep(x));
            reveal_with_fuel(Seq::<_>::filter, 1);
            assert(cleaned.take(k + 1).last() == x);
            assert(cleaned.take(k + 1).filter(keep) == cleaned.take(k as int).filter(keep).push(x));
        } else {
            assert(!keep(x));
            reveal_with_fuel(Seq::<_>::filter, 1);
            assert(cleaned.take(k + 1).last() == x);
            assert(cleaned.take(k + 1).filter(keep) == cleaned.take(k as int).filter(keep));
        }
        k = k + 1;
    }
    assert(cleaned.take(pieces@.len() as int) =~= cleaned);
    out
}

// ───────────────────────── laws ─────────────────────────

proof fn lemma_spacing_row_named(line: Seq<char>)
    ensures
        spacing_row(line) matches Some(a) ==> a.name.len() > 0 && a.id.len() > 0,
{
    let parts = spacing_parts(line);
    let pred = |p: Seq<char>| !is_blank(p);
    if !is_rule(line) && parts.len() >= 3 {
        let all = regex_split(spacing_pattern(), trim(line));
        all.lemma_filter_pred(pred, 0);
        all.lemma_filter_pred(pred, 1);
        crate::text::lemma_trim_empty(parts[0]);
        crate::text::lemma_trim_empty(parts[1]);
    }
}

/// Every package read from a `winget` table has a name and an id.
pub proof fn lemma_table_rows_named(lines: Seq<Seq<char>>)
    ensures
        forall|i: int|
            0 <= i < table_rows(lines).len() ==> (#[trigger] table_rows(lines)[i]).name.len() > 0
                && table_rows(lines)[i].id.len() > 0,
{
    let rows = table_rows(lines);
    assert forall|i: int| 0 <= i < rows.len() implies (#[trigger] rows[i]).name.len() > 0
        && rows[i].id.len() > 0 by {
        let a = rows[i];
        assert(rows.contains(a));
        match separator_from(lines, 0) {
            None => {},
            Some(sep) => {
                let cs = column_starts(lines[sep]);
                let rest = lines.skip(sep + 1);
                let by_cols = |l: Seq<char>| column_row(l, cs);
                let by_spacing = |l: Seq<char>| spacing_row(l);
                let cols = rest.filter_map(by_cols);
                if cs.len() >= 2 && cols.len() > 0 {
                    rest.lemma_filter_map_contains(by_cols, a);
                } else if regex_compiles(spacing_pattern()) {
                    rest.lemma_filter_map_contains(by_spacing, a);
                    let l = choose|l: Seq<char>| #[trigger] rest.contains(l) && by_spacing(l) == Some(a);
                    lemma_spacing_row_named(l);
                }
            },
        }
    }
}


proof fn lemma_skip_bom_append(s: Seq<char>, t: Seq<char>)
    requires
        s.len() > 0,
        s.last() != '\u{feff}',
    ensures
        skip_bom(s + t) == skip_bom(s) + t,
    decreases s.len(),
{
    assert((s + t)[0] == s[0]);
    if s[0] == '\u{feff}' {
        assert((s + t).drop_first() =~= s.drop_first() + t);
        lemma_skip_bom_append(s.drop_first(), t);
    }
}

/// What `skip_bom` leaves is what follows the marks in front.
proof fn lemma_skip_bom_suffix(s: Seq<char>) -> (k: int)
    ensures
        0 <= k <= s.len(),
        skip_bom(s) == s.skip(k),
        forall|i: int| 0 <= i < k ==> s[i] == '\u{feff}',
    decreases s.len(),
{
    if s.len() > 0 && s[0] == '\u{feff}' {
        let k1 = lemma_skip_bom_suffix(s.drop_first());
        assert(s.drop_first().skip(k1) =~= s.skip(k1 + 1));
        assert forall|i: int| 0 <= i < k1 + 1 implies s[i] == '\u{feff}' by {
            if i > 0 {
                assert(s[i] == s.drop_first()[i - 1]);
            }
        }
        k1 + 1
    } else {
        assert(s.skip(0) =~= s);
        0
    }
}

/// The lines of `p + x + b`, a text whose lines split where `p` ends and `b`
/// begins, with `x` as one line of it.
proof fn lemma_split_around(p: Seq<char>, x: Seq<char>, b: Seq<char>)
    requires
        p.len() == 0 || p.last() == '\n',
        b.len() == 0 || b[0] == '\n',
        forall|i: int| 0 <= i < x.len() ==> x[i] != '\n',
    ensures
        split_on(p + x + b, '\n') == (if p.len() == 0 {
            Seq::<Seq<char>>::empty()
        } else {
            split_on(p.drop_last(), '\n')
        }) + seq![x] + (if b.len() == 0 {
            Seq::<Seq<char>>::empty()
        } else {
            split_on(b.drop_first(), '\n')
        }),
{
    crate::text::lemma_split_on_without_sep(x, '\n');
    let xb = x + b;
    let tail = if b.len() == 0 {
        Seq::<Seq<char>>::empty()
    } else {
        split_on(b.drop_first(), '\n')
    };
    if b.len() == 0 {
        assert(xb =~= x);
        assert(split_on(xb, '\n') =~= seq![x] + tail);
    } else {
        assert(xb =~= x + seq!['\n'] + b.drop_first());
        crate::text::lemma_split_on_at_sep(x, b.drop_first(), '\n');
    }
    if p.len() == 0 {
        assert(p + x + b =~= xb);
        assert(split_on(p + x + b, '\n') =~= Seq::<Seq<char>>::empty() + seq![x] + tail);
    } else {
        assert(p + x + b =~= p.drop_last() + seq!['\n'] + xb);
        crate::text::lemma_split_on_at_sep(p.drop_last(), xb, '\n');
        assert(split_on(p.drop_last(), '\n') + (seq![x] + tail) =~= split_on(p.drop_last(), '\n')
            + seq![x] + tail);
    }
}

/// A byte order mark in front of the output changes nothing in the table.
pub proof fn lemma_table_ignores_bom(raw: Seq<char>)
    ensures
        table_lines(seq!['\u{feff}'] + raw) == table_lines(raw),
        table_rows(table_lines(seq!['\u{feff}'] + raw)) == table_rows(table_lines(raw)),
{
    let s = seq!['\u{feff}'] + raw;
    assert(s[0] == '\u{feff}');
    assert(s.drop_first() =~= raw);
    assert(skip_bom(s) == skip_bom(raw));
}

/// Text on a line that a carriage return sends the cursor back over, as
/// progress output does, changes nothing in the table: a line `l` of the
/// output, between `a` and `b`, may have any `junk` and a carriage return in
/// front of it.
pub proof fn lemma_table_ignores_overwritten_text(
    a: Seq<char>,
    junk: Seq<char>,
    l: Seq<char>,
    b: Seq<char>,
)
    requires
        a.len() == 0 || a.last() == '\n',
        b.len() == 0 || b[0] == '\n',
        !junk.contains('\n'),
        !l.contains('\n'),
        l.len() == 0 || l[0] != '\u{feff}',
    ensures
        table_lines(a + (junk + seq!['\r'] + l) + b) == table_lines(a + l + b),
        table_rows(table_lines(a + (junk + seq!['\r'] + l) + b)) == table_rows(table_lines(a + l + b)),
{
    let x2 = junk + seq!['\r'] + l;
    // The text that the lines are split from, in both cases.
    let (p, j) = if a.len() > 0 {
        lemma_skip_bom_append(a, l + b);
        lemma_skip_bom_append(a, x2 + b);
        assert(a + l + b =~= a + (l + b));
        assert(a + x2 + b =~= a + (x2 + b));
        (skip_bom(a), junk)
    } else {
        assert(a + l + b =~= l + b);
        if l.len() > 0 {
            assert((l + b)[0] == l[0]);
        } else {
            assert(l + b =~= b);
        }
        assert(skip_bom(l + b) == l + b);
        let jr = junk + seq!['\r'];
        assert(jr.last() == '\r');
        lemma_skip_bom_append(jr, l + b);
        assert(a + x2 + b =~= jr + (l + b));
        let k = lemma_skip_bom_suffix(jr);
        assert(k <= junk.len()) by {
            if k > junk.len() {
                assert(jr[junk.len() as int] == '\r');
            }
        }
        assert(jr.skip(k) =~= junk.skip(k) + seq!['\r']);
        (Seq::<char>::empty(), junk.skip(k))
    };
    let y2 = j + seq!['\r'] + l;
    assert(skip_bom(a + l + b) =~= p + l + b);
    assert(skip_bom(a + x2 + b) =~= p + y2 + b);
    assert(p.len() == 0 || p.last() == '\n') by {
        if a.len() > 0 {
            let k = lemma_skip_bom_suffix(a);
            assert(k < a.len()) by {
                if k == a.len() {
                    assert(a[a.len() - 1] == '\u{feff}');
                }
            }
            assert(p.last() == a.last());
        }
    }
    assert forall|i: int| 0 <= i < y2.len() implies y2[i] != '\n' by {
        if i < j.len() {
            if a.len() > 0 {
                assert(y2[i] == junk[i]);
            } else {
                assert(y2[i] == j[i]);
            }
            assert(!junk.contains('\n'));
        } else if i > j.len() {
            assert(y2[i] == l[i - j.len() - 1]);
        }
    }
    assert forall|i: int| 0 <= i < l.len() implies l[i] != '\n' by {}
    lemma_split_around(p, l, b);
    lemma_split_around(p, y2, b);
    // The overwritten line cleans up to the same text as `l`.
    crate::text::lemma_split_on_at_sep(j, l, '\r');
    crate::text::lemma_split_on_len(l, '\r');
    assert(last_piece(y2, '\r') == last_piece(l, '\r'));
    assert(cleaned_line(y2) == cleaned_line(l));
    let s1 = split_on(p + l + b, '\n');
    let s2 = split_on(p + y2 + b, '\n');
    let f = |x: Seq<char>| cleaned_line(x);
    assert(s1.map_values(f) =~= s2.map_values(f));
}

} // verus!
