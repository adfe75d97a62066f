//! The table of installed applications that `show` prints.
use vstd::prelude::*;
use crate::display::{fit_cell, fitted};
use crate::text::{append_chars, chars_of, decimal, string_of, usize_digits};
use crate::types::{AppRecord, InstalledApp};

verus! {

pub open spec fn dashes(n: nat) -> Seq<char> {
    Seq::new(n, |i: int| '-')
}

pub open spec fn spaces(n: nat) -> Seq<char> {
    Seq::new(n, |i: int| ' ')
}

/// `s` padded with spaces to `w` characters.
pub open spec fn padded(s: Seq<char>, w: nat) -> Seq<char> {
    if s.len() < w {
        s + spaces((w - s.len()) as nat)
    } else {
        s
    }
}

/// The rule above and below the table.
pub open spec fn table_rule() -> Seq<char> {
    "+-"@ + dashes(40) + "-+-"@ + dashes(45) + "-+-"@ + dashes(18) + "-+-"@ + dashes(10) + "-+"@
}

/// The header of the table.
pub open spec fn table_header() -> Seq<char> {
    "| "@ + padded("Name"@, 40) + " | "@ + padded("ID"@, 45) + " | "@ + padded("Version"@, 18)
        + " | "@ + padded("Source"@, 10) + " |"@
}

/// The source shown for an application: `N/A` when it has none.
pub open spec fn shown_source(a: AppRecord) -> Seq<char> {
    if a.source.len() == 0 {
        "N/A"@
    } else {
        a.source
    }
}

/// The row of an application: each field fitted to its column.
pub open spec fn table_row(a: AppRecord) -> Seq<char> {
    "| "@ + fitted(a.name, 40) + " | "@ + fitted(a.id, 45) + " | "@ + fitted(a.version, 18) + " | "@
        + fitted(shown_source(a), 10) + " |"@
}

/// The line under the table.
pub open spec fn total_line(n: nat) -> Seq<char> {
    "\nTotal: "@ + decimal(n as int) + " applications"@
}

fn push_repeated(out: &mut Vec<char>, c: char, n: usize)
    ensures
        final(out)@ == old(out)@ + Seq::new(n as nat, |i: int| c),
{
    let mut k: usize = 0;
    while k < n
        invariant
            k <= n,
            out@ == old(out)@ + Seq::new(k as nat, |i: int| c),
        decreases n - k,
    {
        out.push(c);
        assert(old(out)@ + Seq::new((k + 1) as nat, |i: int| c) =~= (old(out)@ + Seq::new(
            k as nat,
            |i: int| c,
        )).push(c));
        k = k + 1;
    }
}

fn push_padded(out: &mut Vec<char>, s: &str, w: usize)
    ensures
        final(out)@ == old(out)@ + padded(s@, w as nat),
{
    let c = chars_of(s);
    append_chars(out, &c);
    if c.len() < w {
        push_repeated(out, ' ', w - c.len());
    }
}

/// See `table_rule`.
pub fn rule_line() -> (res: String)
    ensures
        res@ == table_rule(),
{
    let mut out = chars_of("+-");
    push_repeated(&mut out, '-', 40);
    append_chars(&mut out, &chars_of("-+-"));
    push_repeated(&mut out, '-', 45);
    append_chars(&mut out, &chars_of("-+-"));
    push_repeated(&mut out, '-', 18);
    append_chars(&mut out, &chars_of("-+-"));
    push_repeated(&mut out, '-', 10);
    append_chars(&mut out, &chars_of("-+"));
    string_of(&out)
}

/// See `table_header`.
pub fn header_line() -> (res: String)
    ensures
        res@ == table_header(),
{
    let mut out = chars_of("| ");
    push_padded(&mut out, "Name", 40);
    append_chars(&mut out, &chars_of(" | "));
    push_padded(&mut out, "ID", 45);
    append_chars(&mut out, &chars_of(" | "));
    push_padded(&mut out, "Version", 18);
    append_chars(&mut out, &chars_of(" | "));
    push_padded(&mut out, "Source", 10);
    append_chars(&mut out, &chars_of(" |"));
    string_of(&out)
}

/// See `table_row`.
pub fn row_line(app: &InstalledApp) -> (res: String)
    ensures
        res@ == table_row(app@),
{
    let mut out = chars_of("| ");
    append_chars(&mut out, &chars_of(fit_cell(app.name.as_str(), 40).as_str()));
    append_chars(&mut out, &chars_of(" | "));
    append_chars(&mut out, &chars_of(fit_cell(app.id.as_str(), 45).as_str()));
    append_chars(&mut out, &chars_of(" | "));
    append_chars(&mut out, &chars_of(fit_cell(app.version.as_str(), 18).as_str()));
    append_chars(&mut out, &chars_of(" | "));
    let src = if app.source.as_str().is_empty() {
        fit_cell("N/A", 10)
    } else {
        fit_cell(app.source.as_str(), 10)
    };
    append_chars(&mut out, &chars_of(src.as_str()));
    append_chars(&mut out, &chars_of(" |"));
    string_of(&out)
}

/// See `total_line`.
pub fn total_text(n: usize) -> (res: String)
    ensures
        res@ == total_line(n as nat),
{
    let mut out = chars_of("\nTotal: ");
    append_chars(&mut out, &usize_digits(n));
    append_chars(&mut out, &chars_of(" applications"));
    string_of(&out)
}

} // verus!
