//! Terminal text: display widths, truncation with an ellipsis, padded cells, and
//! cleaning of `winget` progress lines.
use vstd::prelude::*;
use crate::text::{chars_of, last_piece, last_piece_chars, string_of, subrange_chars};
use unicode_width::{UnicodeWidthChar, UnicodeWidthStr};

verus! {

// ───────────────────────── widths (unicode-width) ─────────────────────────

/// What `UnicodeWidthChar::width` returns for a character.
pub uninterp spec fn char_width(c: char) -> Option<usize>;

/// What `UnicodeWidthStr::width` returns for a string.
pub uninterp spec fn str_width(s: Seq<char>) -> usize;

/// `UnicodeWidthChar::width` of unicode-width. Its result is named by `char_width`;
/// stated besides, from the crate's source: printable ASCII has width 1, and the
/// C0 and C1 control characters have no width.
#[verifier::external_body]
pub(crate) fn width_of_char(c: char) -> (res: Option<usize>)
    ensures
        res == char_width(c),
        (' ' <= c && c < '\x7f') ==> res == Some(1usize),
        (c < ' ' || ('\x7f' <= c && c < '\u{a0}')) ==> res is None,
{
    UnicodeWidthChar::width(c)
}

/// `UnicodeWidthStr::width` of unicode-width. Its result is named by `str_width`
/// (it is not always the sum of the character widths); stated besides, from the
/// crate's source: a string of printable ASCII is as wide as it is long.
#[verifier::external_body]
pub(crate) fn width_of_str(s: &str) -> (res: usize)
    ensures
        res == str_width(s@),
        (forall|i: int| 0 <= i < s@.len() ==> ' ' <= #[trigger] s@[i] && s@[i] < '\x7f') ==> res
            == s@.len(),
{
    UnicodeWidthStr::width(s)
}

/// The width a character counts for while truncating: a control character counts 0.
pub open spec fn cw(c: char) -> nat {
    match char_width(c) {
        Some(w) => w as nat,
        None => 0,
    }
}

/// The width reserved for the ellipsis `…` (1 if it has none).
pub open spec fn ellipsis_width() -> nat {
    match char_width('…') {
        Some(w) => w as nat,
        None => 1,
    }
}

/// The sum of the character widths of `s`.
pub open spec fn width_sum(s: Seq<char>) -> nat
    decreases s.len(),
{
    if s.len() == 0 {
        0
    } else {
        cw(s[0]) + width_sum(s.drop_first())
    }
}

/// How many leading characters of `s` fit, one after another, into `budget` columns.
pub open spec fn kept(s: Seq<char>, budget: nat) -> nat
    decreases s.len(),
{
    if s.len() == 0 || cw(s[0]) > budget {
        0
    } else {
        1 + kept(s.drop_first(), (budget - cw(s[0])) as nat)
    }
}

/// `s` cut to at most `max` columns: unchanged when it fits; otherwise the characters
/// that fit before an ellipsis, then the ellipsis.
pub open spec fn truncated(s: Seq<char>, max: nat) -> Seq<char> {
    if str_width(s) <= max {
        s
    } else if max == 0 {
        Seq::<char>::empty()
    } else {
        let budget: nat = if max >= ellipsis_width() { (max - ellipsis_width()) as nat } else { 0 };
        s.take(kept(s, budget) as int).push('…')
    }
}

/// `s` truncated to `width` columns, then padded with spaces to `width` columns.
pub open spec fn fitted(s: Seq<char>, width: nat) -> Seq<char> {
    let t = truncated(s, width);
    if str_width(t) < width {
        t + Seq::new((width - str_width(t)) as nat, |i: int| ' ')
    } else {
        t
    }
}

pub proof fn lemma_kept(s: Seq<char>, budget: nat)
    ensures
        kept(s, budget) <= s.len(),
        width_sum(s.take(kept(s, budget) as int)) <= budget,
        kept(s, budget) < s.len() ==> width_sum(s.take(kept(s, budget) as int)) + cw(
            s[kept(s, budget) as int],
        ) > budget,
    decreases s.len(),
{
    if s.len() == 0 || cw(s[0]) > budget {
        assert(s.take(0) =~= Seq::<char>::empty());
    } else {
        let b2 = (budget - cw(s[0])) as nat;
        lemma_kept(s.drop_first(), b2);
        let k = kept(s, budget);
        assert(s.take(k as int).drop_first() =~= s.drop_first().take((k - 1) as int));
        if k < s.len() {
            assert(s[k as int] == s.drop_first()[k - 1]);
        }
    }
}

/// Truncation never leaves more than the budget for the kept characters: the
/// characters before the ellipsis are at most `max` minus the ellipsis wide.
pub proof fn lemma_truncated_budget(s: Seq<char>, max: nat)
    requires
        str_width(s) > max,
        max > 0,
    ensures
        truncated(s, max).len() >= 1,
        truncated(s, max).last() == '…',
        width_sum(truncated(s, max).drop_last()) + ellipsis_width() <= max || max
            < ellipsis_width(),
{
    let budget: nat = if max >= ellipsis_width() { (max - ellipsis_width()) as nat } else { 0 };
    lemma_kept(s, budget);
    assert(truncated(s, max).drop_last() =~= s.take(kept(s, budget) as int));
}

// ───────────────────────── truncate and fit_cell ─────────────────────────

/// Truncates `s` to `max` display columns, ending in `…` when something was cut.
pub fn truncate(s: &str, max: usize) -> (res: String)
    ensures
        res@ == truncated(s@, max as nat),
{
    if width_of_str(s) <= max {
        return copy_str(s);
    }
    if max == 0 {
        return String::new();
    }
    let ell_width: usize = match width_of_char('…') {
        Some(w) => w,
        None => 1,
    };
    let text_width: usize = if max >= ell_width { max - ell_width } else { 0 };
    let chars = chars_of(s);
    let mut width: usize = 0;
    let mut k: usize = 0;
    let ghost budget = text_width as nat;
    assert(chars@.skip(0) =~= chars@);
    while k < chars.len()
        invariant
            k <= chars@.len(),
            width <= text_width,
            budget == text_width as nat,
            chars@ == s@,
            kept(chars@, budget) == k + kept(chars@.skip(k as int), (budget - width) as nat),
        ensures
            k <= chars@.len(),
            chars@ == s@,
            budget == text_width as nat,
            kept(chars@, budget) == k,
        decreases chars@.len() - k,
    {
        let ch_width: usize = match width_of_char(chars[k]) {
            Some(w) => w,
            None => 0,
        };
        let ghost rest = chars@.skip(k as int);
        assert(rest[0] == chars@[k as int]);
        assert(ch_width as nat == cw(chars@[k as int]));
        if ch_width > text_width - width {
            assert(kept(rest, (budget - width) as nat) == 0);
            assert(kept(chars@, budget) == k);
            break;
        }
        assert(rest.drop_first() =~= chars@.skip(k + 1));
        assert(kept(rest, (budget - width) as nat) == 1 + kept(
            chars@.skip(k + 1),
            (budget - width - ch_width) as nat,
        ));
        width = width + ch_width;
        k = k + 1;
    }
    proof {
        if k == chars@.len() {
            assert(chars@.skip(k as int) =~= Seq::<char>::empty());
        }
        assert(kept(chars@, budget) == k);
        assert(ell_width as nat == ellipsis_width());
    }
    let mut out = subrange_chars(&chars, 0, k);
    out.push('…');
    assert(chars@.subrange(0, k as int) =~= chars@.take(k as int));
    string_of(&out)
}

pub fn copy_str(s: &str) -> (res: String)
    ensures
        res@ == s@,
{
    String::from_str(s)
}

/// Truncates `s` to `width` columns and pads it with spaces to `width` columns.
pub fn fit_cell(s: &str, width: usize) -> (res: String)
    ensures
        res@ == fitted(s@, width as nat),
{
    let out = truncate(s, width);
    let used = width_of_str(out.as_str());
    if used < width {
        let mut v = chars_of(out.as_str());
        let ghost t = v@;
        let mut k: usize = 0;
        while k < width - used
            invariant
                k <= width - used,
                v@ == t + Seq::new(k as nat, |i: int| ' '),
            decreases width - used - k,
        {
            v.push(' ');
            assert(t + Seq::new((k + 1) as nat, |i: int| ' ') =~= (t + Seq::new(
                k as nat,
                |i: int| ' ',
            )).push(' '));
            k = k + 1;
        }
        string_of(&v)
    } else {
        out
    }
}

// ───────────────────────── progress lines ─────────────────────────

/// A final byte of an ANSI control sequence (`@` to `~`).
pub open spec fn is_final_byte(c: char) -> bool {
    '@' <= c && c <= '~'
}

/// What follows the parameters and the final byte of a control sequence.
pub open spec fn after_sequence(u: Seq<char>) -> Seq<char>
    decreases u.len(),
{
    if u.len() == 0 {
        u
    } else if is_final_byte(u[0]) {
        u.drop_first()
    } else {
        after_sequence(u.drop_first())
    }
}

pub proof fn lemma_after_sequence_len(u: Seq<char>)
    ensures
        after_sequence(u).len() <= u.len(),
        exists|k: int| 0 <= k <= u.len() && after_sequence(u) == u.skip(k),
    decreases u.len(),
{
    if u.len() > 0 && !is_final_byte(u[0]) {
        lemma_after_sequence_len(u.drop_first());
        let k = choose|k: int|
            0 <= k <= u.drop_first().len() && after_sequence(u.drop_first())
                == u.drop_first().skip(k);
        assert(u.drop_first().skip(k) =~= u.skip(k + 1));
    } else if u.len() > 0 {
        assert(u.drop_first() =~= u.skip(1));
    } else {
        assert(u.skip(0) =~= u);
    }
}

/// `t` with every `ESC [` control sequence removed: the escape, the bracket, the
/// characters up to and including the first final byte (or to the end).
pub open spec fn without_sequences(t: Seq<char>) -> Seq<char>
    decreases t.len(),
{
    if t.len() == 0 {
        t
    } else if t.len() >= 2 && t[0] == '\x1b' && t[1] == '[' {
        proof {
            lemma_after_sequence_len(t.skip(2));
        }
        without_sequences(after_sequence(t.skip(2)))
    } else {
        seq![t[0]] + without_sequences(t.drop_first())
    }
}

/// What a `winget` output line shows: the text after its last carriage return,
/// without its ANSI control sequences.
pub open spec fn shown_line(s: Seq<char>) -> Seq<char> {
    without_sequences(last_piece(s, '\r'))
}

/// Keeps the text after the last carriage return of `s` (winget redraws one line)
/// and removes its ANSI control sequences.
pub fn strip_ansi_cr(s: &str) -> (res: String)
    ensures
        res@ == shown_line(s@),
{
    let all = chars_of(s);
    let t = last_piece_chars(&all, '\r');
    let n = t.len();
    let mut out: Vec<char> = Vec::new();
    let mut i: usize = 0;
    assert(t@.skip(0) =~= t@);
    while i < n
        invariant
            i <= n,
            n == t@.len(),
            without_sequences(t@) == out@ + without_sequences(t@.skip(i as int)),
        decreases n - i,
    {
        let ghost x = t@.skip(i as int);
        let ghost old_out = out@;
        if t[i] == '\x1b' && i + 1 < n && t[i + 1] == '[' {
            let ghost u = t@.skip(i + 2);
            assert(x.skip(2) =~= u);
            let start = i + 2;
            i = i + 2;
            while i < n && !('@' <= t[i] && t[i] <= '~')
                invariant
                    start <= i <= n,
                    n == t@.len(),
                    after_sequence(u) == after_sequence(t@.skip(i as int)),
                decreases n - i,
            {
                assert(t@.skip(i as int).drop_first() =~= t@.skip(i + 1));
                i = i + 1;
            }
            if i < n {
                assert(t@.skip(i as int).drop_first() =~= t@.skip(i + 1));
                i = i + 1;
            } else {
                assert(t@.skip(i as int) =~= Seq::<char>::empty());
            }
            assert(after_sequence(u) == t@.skip(i as int));
        } else {
            assert(x.drop_first() =~= t@.skip(i + 1));
            out.push(t[i]);
            assert(old_out + (seq![x[0]] + without_sequences(x.drop_first())) =~= out@
                + without_sequences(x.drop_first()));
            i = i + 1;
        }
    }
    assert(t@.skip(i as int) =~= Seq::<char>::empty());
    assert(out@ + Seq::<char>::empty() =~= out@);
    string_of(&out)
}

} // verus!
