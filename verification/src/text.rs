//! Character-level string handling shared by the parsers and the views.
//!
//! Strings are modelled by their `Seq<char>` view. The executable helpers work
//! on `Vec<char>` and convert at the edges.
use vstd::prelude::*;

verus! {

// ───────────────────────── whitespace and trimming ─────────────────────────

/// The Unicode `White_Space` property, which is what `char::is_whitespace` tests.
pub open spec fn is_ws(c: char) -> bool {
    ||| ('\t' <= c && c <= '\r')
    ||| c == ' '
    ||| c == '\u{85}'
    ||| c == '\u{a0}'
    ||| c == '\u{1680}'
    ||| ('\u{2000}' <= c && c <= '\u{200a}')
    ||| c == '\u{2028}'
    ||| c == '\u{2029}'
    ||| c == '\u{202f}'
    ||| c == '\u{205f}'
    ||| c == '\u{3000}'
}

pub fn is_ws_char(c: char) -> (res: bool)
    ensures
        res == is_ws(c),
{
    ('\t' <= c && c <= '\r') || c == ' ' || c == '\u{85}' || c == '\u{a0}' || c == '\u{1680}'
        || ('\u{2000}' <= c && c <= '\u{200a}') || c == '\u{2028}' || c == '\u{2029}' || c
        == '\u{202f}' || c == '\u{205f}' || c == '\u{3000}'
}

/// `s` without its leading whitespace.
pub open spec fn trim_start(s: Seq<char>) -> Seq<char>
    decreases s.len(),
{
    if s.len() > 0 && is_ws(s[0]) {
        trim_start(s.drop_first())
    } else {
        s
    }
}

/// `s` without its trailing whitespace.
pub open spec fn trim_end(s: Seq<char>) -> Seq<char>
    decreases s.len(),
{
    if s.len() > 0 && is_ws(s.last()) {
        trim_end(s.drop_last())
    } else {
        s
    }
}

/// `s` without leading and trailing whitespace (`str::trim`).
pub open spec fn trim(s: Seq<char>) -> Seq<char> {
    trim_end(trim_start(s))
}

/// A string that is empty or whitespace only.
pub open spec fn is_blank(s: Seq<char>) -> bool {
    forall|i: int| 0 <= i < s.len() ==> is_ws(#[trigger] s[i])
}

pub proof fn lemma_trim_start_skip(s: Seq<char>, k: int)
    requires
        0 <= k <= s.len(),
        forall|i: int| 0 <= i < k ==> is_ws(#[trigger] s[i]),
    ensures
        trim_start(s) == trim_start(s.skip(k)),
    decreases k,
{
    if k > 0 {
        assert(s.skip(k) =~= s.drop_first().skip(k - 1));
        lemma_trim_start_skip(s.drop_first(), k - 1);
    } else {
        assert(s.skip(0) =~= s);
    }
}

pub proof fn lemma_trim_end_take(s: Seq<char>, k: int)
    requires
        0 <= k <= s.len(),
        forall|i: int| k <= i < s.len() ==> is_ws(#[trigger] s[i]),
    ensures
        trim_end(s) == trim_end(s.take(k)),
    decreases s.len() - k,
{
    if k < s.len() {
        assert(s.drop_last().take(k) =~= s.take(k));
        lemma_trim_end_take(s.drop_last(), k);
    } else {
        assert(s.take(k) =~= s);
    }
}

pub proof fn lemma_trim_start_len(s: Seq<char>)
    ensures
        trim_start(s).len() <= s.len(),
        trim_start(s).len() > 0 ==> !is_ws(trim_start(s)[0]),
        exists|k: int|
            0 <= k <= s.len() && trim_start(s) == s.skip(k) && (forall|i: int|
                0 <= i < k ==> is_ws(#[trigger] s[i])),
    decreases s.len(),
{
    if s.len() > 0 && is_ws(s[0]) {
        lemma_trim_start_len(s.drop_first());
        let k = choose|k: int|
            0 <= k <= s.drop_first().len() && trim_start(s.drop_first()) == s.drop_first().skip(
                k,
            ) && (forall|i: int| 0 <= i < k ==> is_ws(#[trigger] s.drop_first()[i]));
        assert(s.drop_first().skip(k) =~= s.skip(k + 1));
        assert forall|i: int| 0 <= i < k + 1 implies is_ws(#[trigger] s[i]) by {
            if i > 0 {
                assert(s[i] == s.drop_first()[i - 1]);
            }
        }
    } else {
        assert(s.skip(0) =~= s);
    }
}

pub proof fn lemma_trim_end_len(s: Seq<char>)
    ensures
        trim_end(s).len() <= s.len(),
        trim_end(s).len() > 0 ==> !is_ws(trim_end(s).last()),
        trim_end(s) == s.take(trim_end(s).len() as int),
    decreases s.len(),
{
    if s.len() > 0 && is_ws(s.last()) {
        lemma_trim_end_len(s.drop_last());
        assert(s.drop_last().take(trim_end(s).len() as int) =~= s.take(trim_end(s).len() as int));
    } else {
        assert(s.take(s.len() as int) =~= s);
    }
}

/// The trimmed string is empty exactly when the string is blank.
pub proof fn lemma_trim_empty(s: Seq<char>)
    ensures
        (trim(s).len() == 0) <==> is_blank(s),
{
    lemma_trim_start_len(s);
    let t = trim_start(s);
    lemma_trim_end_len(t);
    let k = choose|k: int|
        0 <= k <= s.len() && trim_start(s) == s.skip(k) && (forall|i: int|
            0 <= i < k ==> is_ws(#[trigger] s[i]));
    if trim(s).len() == 0 {
        if t.len() > 0 {
            // the first char of t is not whitespace, so trimming the end cannot remove it
            lemma_trim_end_keeps_non_ws_first(t);
        }
        assert(k == s.len());
    } else {
        if is_blank(s) {
            lemma_trim_start_blank(s);
        }
    }
}

proof fn lemma_trim_start_blank(s: Seq<char>)
    requires
        is_blank(s),
    ensures
        trim_start(s).len() == 0,
    decreases s.len(),
{
    if s.len() > 0 {
        assert(is_blank(s.drop_first())) by {
            assert forall|i: int| 0 <= i < s.drop_first().len() implies is_ws(
                #[trigger] s.drop_first()[i],
            ) by {
                assert(s.drop_first()[i] == s[i + 1]);
            }
        }
        lemma_trim_start_blank(s.drop_first());
    }
}

proof fn lemma_trim_end_keeps_non_ws_first(t: Seq<char>)
    requires
        t.len() > 0,
        !is_ws(t[0]),
    ensures
        trim_end(t).len() > 0,
    decreases t.len(),
{
    if is_ws(t.last()) {
        assert(t.len() > 1);
        lemma_trim_end_keeps_non_ws_first(t.drop_last());
    }
}

pub fn trim_chars(s: &Vec<char>) -> (res: Vec<char>)
    ensures
        res@ == trim(s@),
{
    let n = s.len();
    let mut i: usize = 0;
    while i < n && is_ws_char(s[i])
        invariant
            i <= n,
            n == s@.len(),
            forall|k: int| 0 <= k < i ==> is_ws(#[trigger] s@[k]),
        decreases n - i,
    {
        i = i + 1;
    }
    proof {
        lemma_trim_start_skip(s@, i as int);
        if i < n {
            assert(!is_ws(s@.skip(i as int)[0]));
        }
    }
    let ghost t = s@.skip(i as int);
    assert(trim_start(s@) == t);
    let mut j: usize = n;
    while j > i && is_ws_char(s[j - 1])
        invariant
            i <= j <= n,
            n == s@.len(),
            t == s@.skip(i as int),
            forall|k: int| j - i <= k < t.len() ==> is_ws(#[trigger] t[k]),
        decreases j,
    {
        j = j - 1;
    }
    proof {
        lemma_trim_end_take(t, (j - i) as int);
    }
    let res = subrange_chars(s, i, j);
    assert(res@ =~= t.take((j - i) as int));
    res
}

pub fn subrange_chars(s: &Vec<char>, from: usize, to: usize) -> (res: Vec<char>)
    requires
        from <= to <= s@.len(),
    ensures
        res@ == s@.subrange(from as int, to as int),
{
    let mut out: Vec<char> = Vec::new();
    let mut k = from;
    while k < to
        invariant
            from <= k <= to <= s@.len(),
            out@ == s@.subrange(from as int, k as int),
        decreases to - k,
    {
        out.push(s[k]);
        k = k + 1;
    }
    out
}

// ───────────────────────── conversions ─────────────────────────

pub fn chars_of(s: &str) -> (res: Vec<char>)
    ensures
        res@ == s@,
{
    let mut v: Vec<char> = Vec::new();
    for c in it: s.chars()
        invariant
            v@ == it.seq().take(it.index() as int),
    {
        v.push(c);
    }
    v
}

/// Appends one character to a `String` (`String::push`).
#[verifier::external_body]
pub(crate) fn push_char(s: &mut String, c: char)
    ensures
        final(s)@ == old(s)@.push(c),
{
    s.push(c);
}

pub fn string_of(v: &Vec<char>) -> (res: String)
    ensures
        res@ == v@,
{
    let mut out = String::new();
    let mut k: usize = 0;
    while k < v.len()
        invariant
            k <= v@.len(),
            out@ == v@.take(k as int),
        decreases v@.len() - k,
    {
        push_char(&mut out, v[k]);
        assert(v@.take(k as int).push(v@[k as int]) =~= v@.take(k + 1));
        k = k + 1;
    }
    assert(v@.take(v@.len() as int) =~= v@);
    out
}

pub fn trim_str(s: &str) -> (res: String)
    ensures
        res@ == trim(s@),
{
    let v = chars_of(s);
    let t = trim_chars(&v);
    string_of(&t)
}

// ───────────────────────── searching ─────────────────────────

/// `n` occurs in `h` starting at index `i`.
pub open spec fn occurs_at(h: Seq<char>, n: Seq<char>, i: int) -> bool {
    0 <= i && i + n.len() <= h.len() && h.subrange(i, i + n.len()) == n
}

/// `n` is a substring of `h` (`str::contains`).
pub open spec fn has_sub(h: Seq<char>, n: Seq<char>) -> bool {
    exists|i: int| occurs_at(h, n, i)
}

/// `p` is a prefix of `s` (`str::starts_with`).
pub open spec fn has_prefix(s: Seq<char>, p: Seq<char>) -> bool {
    p.len() <= s.len() && s.take(p.len() as int) == p
}

pub fn occurs_at_exec(h: &Vec<char>, n: &Vec<char>, i: usize) -> (res: bool)
    ensures
        res == occurs_at(h@, n@, i as int),
{
    if i > h.len() || n.len() > h.len() - i {
        return false;
    }
    let mut k: usize = 0;
    while k < n.len()
        invariant
            i + n@.len() <= h@.len(),
            h@.len() == h.len(),
            n@.len() == n.len(),
            k <= n@.len(),
            forall|j: int| 0 <= j < k ==> h@[i + j] == n@[j],
        decreases n@.len() - k,
    {
        if h[i + k] != n[k] {
            assert(h@.subrange(i as int, i + n@.len())[k as int] != n@[k as int]);
            return false;
        }
        k = k + 1;
    }
    assert(h@.subrange(i as int, i + n@.len()) =~= n@);
    true
}

pub fn contains_chars(h: &Vec<char>, n: &Vec<char>) -> (res: bool)
    ensures
        res == has_sub(h@, n@),
{
    if n.len() > h.len() {
        assert forall|i: int| !occurs_at(h@, n@, i) by {}
        return false;
    }
    let last = h.len() - n.len();
    let mut i: usize = 0;
    while i <= last
        invariant
            last == h@.len() - n@.len(),
            forall|j: int| 0 <= j < i ==> !occurs_at(h@, n@, j),
        decreases last + 1 - i,
    {
        if occurs_at_exec(h, n, i) {
            return true;
        }
        if i == last {
            assert forall|j: int| !occurs_at(h@, n@, j) by {
                if 0 <= j <= last as int {
                    assert(j < i || j == i);
                }
            }
            return false;
        }
        i = i + 1;
    }
    false
}

pub fn same_chars(a: &Vec<char>, b: &Vec<char>) -> (res: bool)
    ensures
        res == (a@ == b@),
{
    if a.len() != b.len() {
        return false;
    }
    let mut i: usize = 0;
    while i < a.len()
        invariant
            i <= a@.len(),
            a@.len() == b@.len(),
            forall|j: int| 0 <= j < i ==> a@[j] == b@[j],
        decreases a@.len() - i,
    {
        if a[i] != b[i] {
            assert(a@[i as int] != b@[i as int]);
            return false;
        }
        i = i + 1;
    }
    assert(a@ =~= b@);
    true
}

pub fn starts_with_chars(s: &Vec<char>, p: &Vec<char>) -> (res: bool)
    ensures
        res == has_prefix(s@, p@),
{
    let r = occurs_at_exec(s, p, 0);
    proof {
        if r {
            assert(s@.take(p@.len() as int) =~= s@.subrange(0, p@.len() as int));
        } else if p@.len() <= s@.len() {
            assert(s@.take(p@.len() as int) =~= s@.subrange(0, p@.len() as int));
        }
    }
    r
}

// ───────────────────────── splitting ─────────────────────────

/// The pieces of `s` between occurrences of `c` (`str::split` with a char).
/// There is always at least one piece.
pub open spec fn split_on(s: Seq<char>, c: char) -> Seq<Seq<char>>
    decreases s.len(),
{
    if s.len() == 0 {
        seq![Seq::<char>::empty()]
    } else {
        let rest = split_on(s.drop_first(), c);
        if s[0] == c {
            seq![Seq::<char>::empty()] + rest
        } else {
            rest.update(0, seq![s[0]] + rest[0])
        }
    }
}

pub open spec fn prepend_piece(cur: Seq<char>, pieces: Seq<Seq<char>>) -> Seq<Seq<char>> {
    pieces.update(0, cur + pieces[0])
}

pub open spec fn seqs_of(v: Seq<Vec<char>>) -> Seq<Seq<char>> {
    v.map_values(|x: Vec<char>| x@)
}

pub proof fn lemma_split_on_len(s: Seq<char>, c: char)
    ensures
        split_on(s, c).len() >= 1,
    decreases s.len(),
{
    if s.len() > 0 {
        lemma_split_on_len(s.drop_first(), c);
    }
}

/// Splitting two texts put together: the last piece of the first and the first
/// piece of the second run into one.
pub proof fn lemma_split_on_append(a: Seq<char>, b: Seq<char>, c: char)
    ensures
        split_on(a + b, c) == split_on(a, c).drop_last() + prepend_piece(split_on(a, c).last(), split_on(b, c)),
    decreases a.len(),
{
    lemma_split_on_len(a, c);
    lemma_split_on_len(b, c);
    let sb = split_on(b, c);
    if a.len() == 0 {
        assert(a + b =~= b);
        assert(prepend_piece(Seq::<char>::empty(), sb) =~= sb);
        assert(split_on(a, c).drop_last() + sb =~= sb);
    } else {
        let a1 = a.drop_first();
        assert((a + b).drop_first() =~= a1 + b);
        assert((a + b)[0] == a[0]);
        lemma_split_on_append(a1, b, c);
        lemma_split_on_len(a1, c);
        let sa1 = split_on(a1, c);
        let p1 = sa1.drop_last();
        let l1 = sa1.last();
        let r = p1 + prepend_piece(l1, sb);
        let empty = seq![Seq::<char>::empty()];
        if a[0] == c {
            assert(split_on(a, c) == empty + sa1);
            assert((empty + sa1).drop_last() =~= empty + p1);
            assert((empty + sa1).last() == l1);
            assert(split_on(a + b, c) == empty + r);
            assert(empty + r =~= (empty + p1) + prepend_piece(l1, sb));
        } else {
            let sa = sa1.update(0, seq![a[0]] + sa1[0]);
            assert(split_on(a, c) == sa);
            assert(split_on(a + b, c) == r.update(0, seq![a[0]] + r[0]));
            if sa1.len() > 1 {
                assert(sa.last() == l1);
                assert(r.update(0, seq![a[0]] + r[0]) =~= sa.drop_last() + prepend_piece(l1, sb));
            } else {
                assert(seq![a[0]] + (l1 + sb[0]) =~= (seq![a[0]] + sa1[0]) + sb[0]);
                assert(sa.drop_last() =~= Seq::<Seq<char>>::empty());
                assert(r.update(0, seq![a[0]] + r[0]) =~= sa.drop_last() + prepend_piece(sa.last(), sb));
            }
        }
    }
}

/// Splitting at a separator that stands between two texts: the pieces of the
/// first, then the pieces of the second.
pub proof fn lemma_split_on_at_sep(a: Seq<char>, b: Seq<char>, c: char)
    ensures
        split_on(a + seq![c] + b, c) == split_on(a, c) + split_on(b, c),
{
    let cb = seq![c] + b;
    assert(a + seq![c] + b =~= a + cb);
    lemma_split_on_append(a, cb, c);
    assert(cb[0] == c);
    assert(cb.drop_first() =~= b);
    assert(split_on(cb, c) == seq![Seq::<char>::empty()] + split_on(b, c));
    lemma_split_on_len(a, c);
    let sa = split_on(a, c);
    assert(prepend_piece(sa.last(), seq![Seq::<char>::empty()] + split_on(b, c)) =~= seq![sa.last()]
        + split_on(b, c));
    assert(sa.drop_last() + (seq![sa.last()] + split_on(b, c)) =~= sa + split_on(b, c));
}

/// A text without the separator is one piece.
pub proof fn lemma_split_on_without_sep(x: Seq<char>, c: char)
    requires
        forall|i: int| 0 <= i < x.len() ==> x[i] != c,
    ensures
        split_on(x, c) == seq![x],
    decreases x.len(),
{
    if x.len() > 0 {
        lemma_split_on_without_sep(x.drop_first(), c);
        assert(seq![x[0]] + x.drop_first() =~= x);
        assert(split_on(x, c) =~= seq![x]);
    } else {
        assert(x =~= Seq::<char>::empty());
    }
}

pub fn split_chars(s: &Vec<char>, sep: char) -> (res: Vec<Vec<char>>)
    ensures
        seqs_of(res@) == split_on(s@, sep),
        res@.len() >= 1,
{
    let mut done: Vec<Vec<char>> = Vec::new();
    let mut cur: Vec<char> = Vec::new();
    let mut i: usize = 0;
    assert(s@.skip(0) =~= s@);
    proof {
        lemma_split_on_len(s@, sep);
        assert(prepend_piece(cur@, split_on(s@, sep)) =~= split_on(s@, sep));
        assert(seqs_of(done@) =~= Seq::<Seq<char>>::empty());
        assert(seqs_of(done@) + split_on(s@, sep) =~= split_on(s@, sep));
    }
    while i < s.len()
        invariant
            i <= s@.len(),
            split_on(s@, sep) == seqs_of(done@) + prepend_piece(cur@, split_on(s@.skip(i as int), sep)),
        decreases s@.len() - i,
    {
        let ghost x = s@.skip(i as int);
        proof {
            assert(x.drop_first() =~= s@.skip(i + 1));
            lemma_split_on_len(x.drop_first(), sep);
        }
        let ghost old_done = seqs_of(done@);
        let ghost old_cur = cur@;
        let ch = s[i];
        if ch == sep {
            done.push(cur);
            cur = Vec::new();
            proof {
                let r = split_on(x.drop_first(), sep);
                assert(x[0] == ch);
                assert(split_on(x, sep) == seq![Seq::<char>::empty()] + r);
                assert(prepend_piece(old_cur, seq![Seq::<char>::empty()] + r) =~= seq![old_cur] + r);
                assert(prepend_piece(cur@, r) =~= r);
                assert(seqs_of(done@) =~= old_done.push(old_cur));
                assert(seqs_of(done@) + prepend_piece(cur@, r) =~= old_done + (seq![old_cur] + r));
            }
        } else {
            cur.push(ch);
            proof {
                let r = split_on(x.drop_first(), sep);
                assert(x[0] == ch);
                assert(split_on(x, sep) == prepend_piece(seq![ch], r));
                assert(old_cur + (seq![ch] + r[0]) =~= cur@ + r[0]);
                assert(prepend_piece(old_cur, prepend_piece(seq![ch], r)) =~= prepend_piece(cur@, r));
            }
        }
        i = i + 1;
    }
    proof {
        assert(s@.skip(i as int) =~= Seq::<char>::empty());
        assert(prepend_piece(cur@, seq![Seq::<char>::empty()]) =~= seq![cur@]);
    }
    let ghost old_done = seqs_of(done@);
    done.push(cur);
    assert(seqs_of(done@) =~= old_done.push(cur@));
    done
}

/// The last piece of `s` split at `c` (`s.rsplit(c).next()`).
pub open spec fn last_piece(s: Seq<char>, c: char) -> Seq<char> {
    split_on(s, c).last()
}

pub fn last_piece_chars(s: &Vec<char>, c: char) -> (res: Vec<char>)
    ensures
        res@ == last_piece(s@, c),
{
    let mut pieces = split_chars(s, c);
    let n = pieces.len();
    let ghost all = seqs_of(pieces@);
    let last = pieces.remove(n - 1);
    assert(last@ == all[n - 1]);
    last
}

/// A line of `str::lines`: one trailing carriage return is dropped.
pub open spec fn strip_cr(s: Seq<char>) -> Seq<char> {
    if s.len() > 0 && s.last() == '\r' {
        s.drop_last()
    } else {
        s
    }
}

/// `str::lines`: split at `\n`, drop a `\r` before each `\n`, and no empty
/// piece after a final newline.
pub open spec fn lines(s: Seq<char>) -> Seq<Seq<char>> {
    let pieces = split_on(s, '\n');
    let body = pieces.drop_last().map_values(|p: Seq<char>| strip_cr(p));
    if pieces.last().len() == 0 {
        body
    } else {
        body.push(pieces.last())
    }
}

pub fn lines_of(s: &Vec<char>) -> (res: Vec<Vec<char>>)
    ensures
        seqs_of(res@) == lines(s@),
{
    let pieces = split_chars(s, '\n');
    let ghost ps = seqs_of(pieces@);
    let n = pieces.len();
    let mut out: Vec<Vec<char>> = Vec::new();
    let mut k: usize = 0;
    while k + 1 < n
        invariant
            n == pieces@.len(),
            n >= 1,
            ps == seqs_of(pieces@),
            k < n,
            seqs_of(out@) == ps.take(k as int).map_values(|p: Seq<char>| strip_cr(p)),
        decreases n - k,
    {
        let p = &pieces[k];
        let m = p.len();
        let line = if m > 0 && p[m - 1] == '\r' {
            subrange_chars(p, 0, m - 1)
        } else {
            subrange_chars(p, 0, m)
        };
        proof {
            assert(p@ == ps[k as int]);
            assert(p@.subrange(0, m as int) =~= p@);
            assert(p@.subrange(0, m - 1) =~= p@.drop_last());
        }
        let ghost old_out = seqs_of(out@);
        out.push(line);
        assert(seqs_of(out@) =~= old_out.push(line@));
        assert(ps.take(k + 1).map_values(|p: Seq<char>| strip_cr(p)) =~= ps.take(
            k as int,
        ).map_values(|p: Seq<char>| strip_cr(p)).push(strip_cr(ps[k as int])));
        k = k + 1;
    }
    assert(ps.take(k as int) =~= ps.drop_last());
    let last = &pieces[n - 1];
    assert(last@ == ps.last());
    if last.len() > 0 {
        let ghost old_out = seqs_of(out@);
        let l = subrange_chars(last, 0, last.len());
        assert(last@.subrange(0, last@.len() as int) =~= last@);
        out.push(l);
        assert(seqs_of(out@) =~= old_out.push(l@));
    }
    out
}

// ───────────────────────── case and ordering ─────────────────────────

/// What `str::to_lowercase` returns for a string.
pub uninterp spec fn lowercase(s: Seq<char>) -> Seq<char>;

/// `str::to_lowercase`. Its result is named by `lowercase`: the Unicode lower-case
/// mapping, which this crate does not restate.
#[verifier::external_body]
pub(crate) fn to_lowercase(s: &str) -> (res: String)
    ensures
        res@ == lowercase(s@),
{
    s.to_lowercase()
}

pub fn lowercase_chars(s: &Vec<char>) -> (res: Vec<char>)
    ensures
        res@ == lowercase(s@),
{
    let st = string_of(s);
    let low = to_lowercase(st.as_str());
    chars_of(low.as_str())
}

/// Lexicographic order of strings by code point, which is the order of `String`.
pub open spec fn lex_lt(a: Seq<char>, b: Seq<char>) -> bool
    decreases a.len(),
{
    if a.len() == 0 {
        b.len() > 0
    } else if b.len() == 0 {
        false
    } else if a[0] != b[0] {
        a[0] < b[0]
    } else {
        lex_lt(a.drop_first(), b.drop_first())
    }
}

pub proof fn lemma_lex_lt_irrefl(a: Seq<char>)
    ensures
        !lex_lt(a, a),
    decreases a.len(),
{
    if a.len() > 0 {
        lemma_lex_lt_irrefl(a.drop_first());
    }
}

pub proof fn lemma_lex_lt_trans(a: Seq<char>, b: Seq<char>, c: Seq<char>)
    requires
        lex_lt(a, b),
        lex_lt(b, c),
    ensures
        lex_lt(a, c),
    decreases a.len(),
{
    if a.len() > 0 && b.len() > 0 && c.len() > 0 && a[0] == b[0] && b[0] == c[0] {
        lemma_lex_lt_trans(a.drop_first(), b.drop_first(), c.drop_first());
    }
}

pub fn lex_less(a: &Vec<char>, b: &Vec<char>) -> (res: bool)
    ensures
        res == lex_lt(a@, b@),
{
    let mut i: usize = 0;
    assert(a@.skip(0) =~= a@);
    assert(b@.skip(0) =~= b@);
    while i < a.len() && i < b.len() && a[i] == b[i]
        invariant
            i <= a@.len(),
            i <= b@.len(),
            lex_lt(a@, b@) == lex_lt(a@.skip(i as int), b@.skip(i as int)),
        decreases a@.len() - i,
    {
        proof {
            assert(a@.skip(i as int).drop_first() =~= a@.skip(i + 1));
            assert(b@.skip(i as int).drop_first() =~= b@.skip(i + 1));
        }
        i = i + 1;
    }
    if i == a.len() {
        i < b.len()
    } else if i == b.len() {
        false
    } else {
        a[i] < b[i]
    }
}

// ───────────────────────── replacing and squeezing ─────────────────────────

/// `str::replace`: every non-overlapping occurrence of `p`, scanning from the left,
/// replaced by `r` (for a non-empty `p`).
pub open spec fn replace_all(s: Seq<char>, p: Seq<char>, r: Seq<char>) -> Seq<char>
    decreases s.len(),
{
    if p.len() == 0 || s.len() == 0 {
        s
    } else if has_prefix(s, p) {
        r + replace_all(s.skip(p.len() as int), p, r)
    } else {
        seq![s[0]] + replace_all(s.drop_first(), p, r)
    }
}

pub fn replace_chars(s: &Vec<char>, p: &Vec<char>, r: &Vec<char>) -> (res: Vec<char>)
    requires
        p@.len() > 0,
    ensures
        res@ == replace_all(s@, p@, r@),
{
    let mut out: Vec<char> = Vec::new();
    let mut i: usize = 0;
    assert(s@.skip(0) =~= s@);
    while i < s.len()
        invariant
            i <= s@.len(),
            p@.len() > 0,
            replace_all(s@, p@, r@) == out@ + replace_all(s@.skip(i as int), p@, r@),
        decreases s@.len() - i,
    {
        let ghost x = s@.skip(i as int);
        let ghost old_out = out@;
        if occurs_at_exec(s, p, i) {
            proof {
                assert(x.take(p@.len() as int) =~= s@.subrange(i as int, i + p@.len()));
                assert(x.skip(p@.len() as int) =~= s@.skip(i + p@.len()));
            }
            let mut k: usize = 0;
            while k < r.len()
                invariant
                    k <= r@.len(),
                    out@ == old_out + r@.take(k as int),
                decreases r@.len() - k,
            {
                out.push(r[k]);
                assert(old_out + r@.take(k + 1) =~= (old_out + r@.take(k as int)).push(r@[k as int]));
                k = k + 1;
            }
            assert(r@.take(r@.len() as int) =~= r@);
            assert(out@ + replace_all(x.skip(p@.len() as int), p@, r@) =~= old_out + (r@
                + replace_all(x.skip(p@.len() as int), p@, r@)));
            i = i + p.len();
        } else {
            proof {
                if p@.len() <= x.len() {
                    assert(x.take(p@.len() as int) =~= s@.subrange(i as int, i + p@.len()));
                }
                assert(x.drop_first() =~= s@.skip(i + 1));
            }
            out.push(s[i]);
            assert(out@ + replace_all(x.drop_first(), p@, r@) =~= old_out + (seq![x[0]]
                + replace_all(x.drop_first(), p@, r@)));
            i = i + 1;
        }
    }
    assert(s@.skip(i as int) =~= Seq::<char>::empty());
    assert(out@ + Seq::<char>::empty() =~= out@);
    out
}

/// The length of the run of non-whitespace characters at the start of `s`.
pub open spec fn word_len(s: Seq<char>) -> nat
    decreases s.len(),
{
    if s.len() == 0 || is_ws(s[0]) {
        0
    } else {
        1 + word_len(s.drop_first())
    }
}

pub proof fn lemma_word_len(s: Seq<char>)
    ensures
        word_len(s) <= s.len(),
        forall|i: int| 0 <= i < word_len(s) ==> !is_ws(#[trigger] s[i]),
        word_len(s) < s.len() ==> is_ws(s[word_len(s) as int]),
    decreases s.len(),
{
    if s.len() > 0 && !is_ws(s[0]) {
        lemma_word_len(s.drop_first());
        assert forall|i: int| 0 <= i < word_len(s) implies !is_ws(#[trigger] s[i]) by {
            if i > 0 {
                assert(s[i] == s.drop_first()[i - 1]);
            }
        }
    }
}

/// The words of `s`: its maximal runs of non-whitespace (`str::split_whitespace`).
pub open spec fn words(s: Seq<char>) -> Seq<Seq<char>>
    decreases s.len(),
{
    let t = trim_start(s);
    if t.len() == 0 {
        seq![]
    } else {
        let n = word_len(t);
        proof {
            lemma_trim_start_len(s);
            lemma_word_len(t);
        }
        if 0 < n {
            seq![t.take(n as int)] + words(t.skip(n as int))
        } else {
            seq![]
        }
    }
}

/// The words joined by single spaces (`join(" ")`).
pub open spec fn join_spaced(ws: Seq<Seq<char>>) -> Seq<char>
    decreases ws.len(),
{
    if ws.len() == 0 {
        Seq::<char>::empty()
    } else if ws.len() == 1 {
        ws[0]
    } else {
        join_spaced(ws.drop_last()) + seq![' '] + ws.last()
    }
}


proof fn lemma_word_len_exact(t: Seq<char>, m: int)
    requires
        0 <= m <= t.len(),
        forall|i: int| 0 <= i < m ==> !is_ws(#[trigger] t[i]),
        m == t.len() || is_ws(t[m]),
    ensures
        word_len(t) == m,
    decreases m,
{
    if m > 0 {
        assert forall|i: int| 0 <= i < m - 1 implies !is_ws(#[trigger] t.drop_first()[i]) by {
            assert(t.drop_first()[i] == t[i + 1]);
        }
        lemma_word_len_exact(t.drop_first(), m - 1);
    }
}

/// Runs of non-whitespace with one space between them and none at either end.
pub open spec fn single_spaced(r: Seq<char>) -> bool {
    forall|i: int|
        0 <= i < r.len() ==> (#[trigger] r[i] == ' ' || !is_ws(r[i])) && (r[i] == ' ' ==> 0 < i && i
            + 1 < r.len() && r[i + 1] != ' ')
}

/// Joining words, from the front.
pub proof fn lemma_join_spaced_front(w: Seq<char>, ws: Seq<Seq<char>>)
    ensures
        join_spaced(seq![w] + ws) == (if ws.len() == 0 {
            w
        } else {
            w + seq![' '] + join_spaced(ws)
        }),
    decreases ws.len(),
{
    let all = seq![w] + ws;
    assert(join_spaced(seq![w]) == w);
    if ws.len() == 0 {
        assert(all =~= seq![w]);
    } else if ws.len() == 1 {
        assert(all.drop_last() =~= seq![w]);
        assert(all.last() == ws[0]);
        assert(join_spaced(all) == join_spaced(all.drop_last()) + seq![' '] + all.last());
    } else {
        assert(join_spaced(all) == join_spaced(all.drop_last()) + seq![' '] + all.last());
        assert(all.drop_last() =~= seq![w] + ws.drop_last());
        assert(all.last() == ws.last());
        lemma_join_spaced_front(w, ws.drop_last());
        assert(w + seq![' '] + join_spaced(ws.drop_last()) + seq![' '] + ws.last() =~= w + seq![' ']
            + (join_spaced(ws.drop_last()) + seq![' '] + ws.last()));
    }
}

/// The words of `s`, from the front: where `s` is not blank, the first word
/// `t.take(n)` of `t = s.skip(k)`, then the words of `t.skip(n)`.
proof fn lemma_words_front(s: Seq<char>) -> (kn: (int, int))
    ensures
        0 <= kn.0 <= s.len(),
        trim_start(s) == s.skip(kn.0),
        trim_start(s).len() == 0 ==> words(s).len() == 0,
        trim_start(s).len() > 0 ==> {
            let t = trim_start(s);
            &&& 0 < kn.1 <= t.len()
            &&& words(s) == seq![t.take(kn.1)] + words(t.skip(kn.1))
            &&& forall|i: int| 0 <= i < kn.1 ==> !is_ws(#[trigger] t[i])
            &&& kn.1 < t.len() ==> is_ws(t[kn.1])
        },
{
    lemma_trim_start_len(s);
    let k = choose|k: int|
        0 <= k <= s.len() && trim_start(s) == s.skip(k) && (forall|i: int|
            0 <= i < k ==> is_ws(#[trigger] s[i]));
    let t = trim_start(s);
    if t.len() == 0 {
        assert(words(s) =~= Seq::<Seq<char>>::empty());
        (k, 0)
    } else {
        lemma_word_len(t);
        let n = word_len(t);
        assert(n > 0);
        (k, n as int)
    }
}

/// Joining the words of `s` gives a single-spaced text, empty only when there
/// are no words, whose other characters all occur in `s`.
pub proof fn lemma_join_words(s: Seq<char>)
    ensures
        single_spaced(join_spaced(words(s))),
        join_spaced(words(s)).len() == 0 <==> words(s).len() == 0,
        forall|i: int|
            0 <= i < join_spaced(words(s)).len() && join_spaced(words(s))[i] != ' ' ==> s.contains(
                #[trigger] join_spaced(words(s))[i],
            ),
    decreases s.len(),
{
    let r = join_spaced(words(s));
    let (k, n) = lemma_words_front(s);
    let t = trim_start(s);
    if t.len() > 0 {
        let w = t.take(n);
        let u = t.skip(n);
        lemma_join_words(u);
        let r2 = join_spaced(words(u));
        lemma_join_spaced_front(w, words(u));
        assert forall|i: int| 0 <= i < r.len() && r[i] != ' ' implies s.contains(#[trigger] r[i]) by {
            if i < w.len() {
                assert(r[i] == s[k + i]);
            } else {
                let j = i - w.len() - 1;
                assert(r[i] == r2[j]);
                assert(u.contains(r2[j]));
                let jj = choose|jj: int| 0 <= jj < u.len() && u[jj] == r2[j];
                assert(u[jj] == s[k + n + jj]);
            }
        }
        assert forall|i: int| 0 <= i < r.len() implies (#[trigger] r[i] == ' ' || !is_ws(r[i])) && (r[i]
            == ' ' ==> 0 < i && i + 1 < r.len() && r[i + 1] != ' ') by {
            if i < w.len() {
                assert(r[i] == t[i]);
            } else if i == w.len() {
                assert(r2[0] != ' ');
                assert(r[i + 1] == r2[0]);
            } else {
                let j = i - w.len() - 1;
                assert(r[i] == r2[j]);
                if j + 1 < r2.len() {
                    assert(r[i + 1] == r2[j + 1]);
                }
            }
        }
        if words(u).len() > 0 {
            assert(r.len() > 0);
        }
    }
}

/// A text without whitespace that occurs in the joined words of `s` occurs in `s`.
pub proof fn lemma_join_words_sub(s: Seq<char>, q: Seq<char>)
    requires
        q.len() > 0,
        forall|j: int| 0 <= j < q.len() ==> !is_ws(#[trigger] q[j]),
    ensures
        has_sub(join_spaced(words(s)), q) ==> has_sub(s, q),
    decreases s.len(),
{
    let r = join_spaced(words(s));
    if has_sub(r, q) {
        let i = choose|i: int| occurs_at(r, q, i);
        let (k, n) = lemma_words_front(s);
        let t = trim_start(s);
        if t.len() > 0 {
            let w = t.take(n);
            let u = t.skip(n);
            lemma_join_words(u);
            let r2 = join_spaced(words(u));
            lemma_join_spaced_front(w, words(u));
            if i + q.len() <= w.len() {
                assert forall|j: int| 0 <= j < q.len() implies s[k + i + j] == q[j] by {
                    assert(q[j] == r.subrange(i, i + q.len())[j]);
                    assert(r[i + j] == w[i + j]);
                }
                assert(s.subrange(k + i, k + i + q.len()) =~= q);
                assert(occurs_at(s, q, k + i));
            } else if i <= w.len() {
                assert(q[w.len() - i] == r.subrange(i, i + q.len())[w.len() - i]);
                assert(r[w.len() as int] == ' ');
            } else {
                let j = i - w.len() - 1;
                assert(r2.subrange(j, j + q.len()) =~= r.subrange(i, i + q.len()));
                assert(occurs_at(r2, q, j));
                lemma_join_words_sub(u, q);
                let jj = choose|jj: int| occurs_at(u, q, jj);
                assert(s.subrange(k + n + jj, k + n + jj + q.len()) =~= u.subrange(jj, jj + q.len()));
                assert(occurs_at(s, q, k + n + jj));
            }
        }
    }
}

/// A single-spaced text is the join of its own words.
pub proof fn lemma_words_of_single_spaced(r: Seq<char>)
    requires
        single_spaced(r),
    ensures
        join_spaced(words(r)) == r,
    decreases r.len(),
{
    if r.len() == 0 {
        assert(words(r) =~= Seq::<Seq<char>>::empty());
    } else {
        assert(r[0] == ' ' || !is_ws(r[0]));
        assert(trim_start(r) == r);
        let (k, n) = lemma_words_front(r);
        assert(r.skip(0) =~= r);
        let w = r.take(n);
        let u = r.skip(n);
        lemma_join_spaced_front(w, words(u));
        if n == r.len() {
            assert(u =~= Seq::<char>::empty());
            assert(words(u) =~= Seq::<Seq<char>>::empty());
            assert(w =~= r);
        } else {
            assert(r[n] == ' ' || !is_ws(r[n]));
            let v = r.skip(n + 1);
            assert(u.drop_first() =~= v);
            assert(v[0] == r[n + 1]);
            assert(trim_start(v) == v);
            assert(trim_start(u) == trim_start(v));
            assert(words(u) == words(v));
            assert forall|j: int| 0 <= j < v.len() implies (#[trigger] v[j] == ' ' || !is_ws(v[j])) && (
            v[j] == ' ' ==> 0 < j && j + 1 < v.len() && v[j + 1] != ' ') by {
                assert(v[j] == r[n + 1 + j]);
                if j + 1 < v.len() {
                    assert(v[j + 1] == r[n + 2 + j]);
                }
            }
            lemma_words_of_single_spaced(v);
            if words(v).len() == 0 {
                assert(join_spaced(words(v)).len() == 0);
            }
            assert(w + seq![' '] + v =~= r);
        }
    }
}

/// Where `p` is replaced by a space, a prefix of the result without spaces is a
/// prefix of `s`.
proof fn lemma_replace_space_prefix(s: Seq<char>, p: Seq<char>, sp: Seq<char>, m: int)
    requires
        p.len() > 0,
        sp == seq![' '],
        0 <= m <= replace_all(s, p, sp).len(),
        forall|j: int| 0 <= j < m ==> replace_all(s, p, sp)[j] != ' ',
    ensures
        m <= s.len(),
        replace_all(s, p, sp).take(m) == s.take(m),
    decreases s.len(),
{
    let out = replace_all(s, p, sp);
    if m == 0 {
        assert(out.take(0) =~= s.take(0));
    } else if s.len() > 0 {
        if has_prefix(s, p) {
            assert(out[0] == ' ');
        } else {
            let out1 = replace_all(s.drop_first(), p, sp);
            assert(out == seq![s[0]] + out1);
            assert forall|j: int| 0 <= j < m - 1 implies out1[j] != ' ' by {
                assert(out1[j] == out[j + 1]);
            }
            lemma_replace_space_prefix(s.drop_first(), p, sp, m - 1);
            assert(out.take(m) =~= seq![s[0]] + out1.take(m - 1));
            assert(s.take(m) =~= seq![s[0]] + s.drop_first().take(m - 1));
        }
    }
}

/// Replacing `p` by a space leaves no `p` behind and makes no text without
/// spaces that was not there before.
pub proof fn lemma_replace_by_space(s: Seq<char>, p: Seq<char>, sp: Seq<char>, q: Seq<char>)
    requires
        p.len() > 0,
        sp == seq![' '],
        q.len() > 0,
        forall|j: int| 0 <= j < q.len() ==> q[j] != ' ',
    ensures
        has_sub(replace_all(s, p, sp), q) ==> q != p && has_sub(s, q),
    decreases s.len(),
{
    let out = replace_all(s, p, sp);
    if has_sub(out, q) && s.len() > 0 {
        let i = choose|i: int| occurs_at(out, q, i);
        assert(q[0] == out[i]);
        let (d, s1) = if has_prefix(s, p) {
            (p.len() as int, s.skip(p.len() as int))
        } else {
            (1int, s.drop_first())
        };
        let out1 = replace_all(s1, p, sp);
        if has_prefix(s, p) {
            assert(out == sp + out1);
        } else {
            assert(out == seq![s[0]] + out1);
        }
        if i == 0 {
            assert(!has_prefix(s, p));
            assert forall|j: int| 0 <= j < q.len() implies out[j] != ' ' by {
                assert(out[j] == out.subrange(0, q.len() as int)[j]);
            }
            lemma_replace_space_prefix(s, p, sp, q.len() as int);
            assert(s.subrange(0, q.len() as int) =~= q);
            assert(occurs_at(s, q, 0));
            if q == p {
                assert(s.take(p.len() as int) =~= p);
            }
        } else {
            assert(out1.subrange(i - 1, i - 1 + q.len()) =~= out.subrange(i, i + q.len()));
            assert(occurs_at(out1, q, i - 1));
            lemma_replace_by_space(s1, p, sp, q);
            let j = choose|j: int| occurs_at(s1, q, j);
            assert(s.subrange(j + d, j + d + q.len()) =~= s1.subrange(j, j + q.len()));
            assert(occurs_at(s, q, j + d));
        }
    }
}

/// Replacing a text that does not occur changes nothing.
pub proof fn lemma_replace_absent(s: Seq<char>, p: Seq<char>, r: Seq<char>)
    requires
        p.len() > 0,
        !has_sub(s, p),
    ensures
        replace_all(s, p, r) == s,
    decreases s.len(),
{
    if s.len() > 0 {
        if has_prefix(s, p) {
            assert(s.subrange(0, p.len() as int) =~= s.take(p.len() as int));
            assert(occurs_at(s, p, 0));
        }
        if has_sub(s.drop_first(), p) {
            let j = choose|j: int| occurs_at(s.drop_first(), p, j);
            assert(s.subrange(j + 1, j + 1 + p.len()) =~= s.drop_first().subrange(j, j + p.len()));
            assert(occurs_at(s, p, j + 1));
        }
        lemma_replace_absent(s.drop_first(), p, r);
        assert(seq![s[0]] + s.drop_first() =~= s);
    }
}

/// Collapses every run of whitespace into one space and drops whitespace at the
/// ends (`split_whitespace` followed by `join(" ")`).
pub fn squeeze_ws(s: &Vec<char>) -> (res: Vec<char>)
    ensures
        res@ == join_spaced(words(s@)),
{
    let n = s.len();
    let mut out: Vec<char> = Vec::new();
    let ghost mut done: Seq<Seq<char>> = Seq::empty();
    let mut i: usize = 0;
    assert(s@.skip(0) =~= s@);
    while i < n
        invariant
            i <= n,
            n == s@.len(),
            words(s@) == done + words(s@.skip(i as int)),
            out@ == join_spaced(done),
            (done.len() == 0) == (out@.len() == 0),
        decreases n - i,
    {
        let start = i;
        let mut k = i;
        while k < n && is_ws_char(s[k])
            invariant
                start <= k <= n,
                n == s@.len(),
                forall|q: int| start <= q < k ==> is_ws(#[trigger] s@[q]),
            decreases n - k,
        {
            k = k + 1;
        }
        let ghost x = s@.skip(start as int);
        proof {
            assert forall|q: int| 0 <= q < k - start implies is_ws(#[trigger] x[q]) by {
                assert(x[q] == s@[start + q]);
            }
            lemma_trim_start_skip(x, (k - start) as int);
            assert(x.skip((k - start) as int) =~= s@.skip(k as int));
        }
        if k == n {
            proof {
                assert(s@.skip(k as int) =~= Seq::<char>::empty());
                assert(trim_start(x).len() == 0);
                assert(words(x) =~= Seq::<Seq<char>>::empty());
                assert(done + words(x) =~= done);
            }
            i = k;
            assert(s@.skip(i as int) =~= Seq::<char>::empty());
            assert(words(s@.skip(i as int)) =~= Seq::<Seq<char>>::empty());
            assert(done + words(s@.skip(i as int)) =~= done);
        } else {
            let ghost t = s@.skip(k as int);
            assert(!is_ws(t[0]));
            assert(trim_start(t) == t);
            let mut j = k;
            while j < n && !is_ws_char(s[j])
                invariant
                    k <= j <= n,
                    n == s@.len(),
                    forall|q: int| k <= q < j ==> !is_ws(#[trigger] s@[q]),
                decreases n - j,
            {
                j = j + 1;
            }
            let m = j - k;
            proof {
                assert forall|q: int| 0 <= q < m implies !is_ws(#[trigger] t[q]) by {
                    assert(t[q] == s@[k + q]);
                }
                if j < n {
                    assert(t[m as int] == s@[j as int]);
                }
                lemma_word_len_exact(t, m as int);
                assert(m > 0);
                assert(words(x) == words(t));
                assert(t.skip(m as int) =~= s@.skip(j as int));
                assert(t.take(m as int) =~= s@.subrange(k as int, j as int));
            }
            let ghost old_out = out@;
            let ghost w = s@.subrange(k as int, j as int);
            if out.len() > 0 {
                proof {
                    if done.len() == 0 {
                        assert(join_spaced(done) =~= Seq::<char>::empty());
                    }
                }
                out.push(' ');
            }
            let mut q = k;
            let ghost before = out@;
            while q < j
                invariant
                    k <= q <= j <= n,
                    n == s@.len(),
                    out@ == before + s@.subrange(k as int, q as int),
                decreases j - q,
            {
                out.push(s[q]);
                assert(before + s@.subrange(k as int, q + 1) =~= (before + s@.subrange(
                    k as int,
                    q as int,
                )).push(s@[q as int]));
                q = q + 1;
            }
            proof {
                let nd = done.push(w);
                assert(nd.drop_last() =~= done);
                if done.len() == 0 {
                    assert(join_spaced(nd) == w);
                    assert(out@ =~= w);
                } else {
                    assert(join_spaced(nd) == join_spaced(done) + seq![' '] + w);
                    assert(out@ =~= old_out + seq![' '] + w);
                }
                assert(words(t) == seq![w] + words(s@.skip(j as int)));
                assert(done + (seq![w] + words(s@.skip(j as int))) =~= nd + words(
                    s@.skip(j as int),
                ));
                done = nd;
            }
            i = j;
        }
    }
    assert(s@.skip(i as int) =~= Seq::<char>::empty());
    assert(done + words(s@.skip(i as int)) =~= done);
    out
}

// ───────────────────────── characters ─────────────────────────

/// What `char::is_alphanumeric` returns: the Unicode `Alphabetic` or `Numeric` property.
pub uninterp spec fn alphanumeric(c: char) -> bool;

/// `char::is_alphanumeric`; the Unicode tables behind it are named by `alphanumeric`.
#[verifier::external_body]
pub(crate) fn is_alphanumeric(c: char) -> (res: bool)
    ensures
        res == alphanumeric(c),
{
    c.is_alphanumeric()
}

// ───────────────────────── byte length ─────────────────────────

fn utf8_width(c: char) -> (w: u128)
    ensures
        w == vstd::utf8::encode_scalar(c as u32).len(),
{
    proof {
        vstd::utf8::char_is_scalar(c);
    }
    let u = c as u32;
    if u <= 0x7F {
        1
    } else if u <= 0x7FF {
        2
    } else if u <= 0xFFFF {
        3
    } else {
        4
    }
}

/// Whether the UTF-8 encoding of `s` is at least `n` bytes long (`str::len() >= n`).
pub fn utf8_len_at_least(s: &Vec<char>, n: usize) -> (res: bool)
    ensures
        res == (vstd::utf8::encode_utf8(s@).len() >= n),
{
    if n == 0 {
        return true;
    }
    let mut total: u128 = 0;
    let mut i: usize = 0;
    assert(s@.skip(0) =~= s@);
    while i < s.len()
        invariant
            i <= s@.len(),
            total < n,
            vstd::utf8::encode_utf8(s@).len() == total + vstd::utf8::encode_utf8(s@.skip(i as int)).len(),
        decreases s@.len() - i,
    {
        let ghost x = s@.skip(i as int);
        assert(x.drop_first() =~= s@.skip(i + 1));
        assert(x[0] == s@[i as int]);
        total = total + utf8_width(s[i]);
        if total >= n as u128 {
            return true;
        }
        i = i + 1;
    }
    assert(s@.skip(i as int) =~= Seq::<char>::empty());
    false
}

// ───────────────────────── bytes and numbers ─────────────────────────

/// What `String::from_utf8_lossy` returns for some bytes.
pub uninterp spec fn utf8_lossy(bytes: Seq<u8>) -> Seq<char>;

/// `String::from_utf8_lossy`. Valid UTF-8 decodes exactly; for invalid input the
/// result (with U+FFFD in place of the bad sequences) is named by `utf8_lossy`.
#[verifier::external_body]
pub(crate) fn from_utf8_lossy(bytes: &[u8]) -> (res: String)
    ensures
        res@ == utf8_lossy(bytes@),
        vstd::utf8::valid_utf8(bytes@) ==> res@ == vstd::utf8::decode_utf8(bytes@),
{
    String::from_utf8_lossy(bytes).into_owned()
}

pub open spec fn digit_char(d: nat) -> char {
    if d == 0 { '0' } else if d == 1 { '1' } else if d == 2 { '2' } else if d == 3 { '3' }
    else if d == 4 { '4' } else if d == 5 { '5' } else if d == 6 { '6' } else if d == 7 { '7' }
    else if d == 8 { '8' } else { '9' }
}

/// The decimal digits of `n`, without leading zeros.
pub open spec fn decimal_digits(n: nat) -> Seq<char>
    decreases n,
{
    if n < 10 {
        seq![digit_char(n)]
    } else {
        decimal_digits(n / 10).push(digit_char(n % 10))
    }
}

/// How `Display` writes an integer.
pub open spec fn decimal(n: int) -> Seq<char> {
    if n < 0 {
        seq!['-'] + decimal_digits((-n) as nat)
    } else {
        decimal_digits(n as nat)
    }
}

fn digit_of(d: u64) -> (c: char)
    requires
        d < 10,
    ensures
        c == digit_char(d as nat),
{
    if d == 0 { '0' } else if d == 1 { '1' } else if d == 2 { '2' } else if d == 3 { '3' }
    else if d == 4 { '4' } else if d == 5 { '5' } else if d == 6 { '6' } else if d == 7 { '7' }
    else if d == 8 { '8' } else { '9' }
}

pub fn digits_u64(n: u64) -> (res: Vec<char>)
    ensures
        res@ == decimal_digits(n as nat),
    decreases n,
{
    if n < 10 {
        let mut v: Vec<char> = Vec::new();
        v.push(digit_of(n));
        v
    } else {
        let mut v = digits_u64(n / 10);
        v.push(digit_of(n % 10));
        v
    }
}

fn digit_of_u128(d: u128) -> (c: char)
    requires
        d < 10,
    ensures
        c == digit_char(d as nat),
{
    digit_of(d as u64)
}

pub fn digits_u128(n: u128) -> (res: Vec<char>)
    ensures
        res@ == decimal_digits(n as nat),
    decreases n,
{
    if n < 10 {
        let mut v: Vec<char> = Vec::new();
        v.push(digit_of_u128(n));
        v
    } else {
        let mut v = digits_u128(n / 10);
        v.push(digit_of_u128(n % 10));
        v
    }
}

pub fn usize_digits(n: usize) -> (res: Vec<char>)
    ensures
        res@ == decimal(n as int),
{
    digits_u64(n as u64)
}

pub fn format_i64(n: i64) -> (res: Vec<char>)
    ensures
        res@ == decimal(n as int),
{
    if n < 0 {
        let m: u64 = if n == i64::MIN {
            9223372036854775808u64
        } else {
            (-n) as u64
        };
        let d = digits_u64(m);
        let mut v: Vec<char> = Vec::new();
        v.push('-');
        let mut k: usize = 0;
        while k < d.len()
            invariant
                k <= d@.len(),
                v@ == seq!['-'] + d@.take(k as int),
            decreases d@.len() - k,
        {
            v.push(d[k]);
            assert(seq!['-'] + d@.take(k + 1) =~= (seq!['-'] + d@.take(k as int)).push(d@[k as int]));
            k = k + 1;
        }
        assert(d@.take(d@.len() as int) =~= d@);
        v
    } else {
        digits_u64(n as u64)
    }
}

pub fn append_chars(out: &mut Vec<char>, more: &Vec<char>)
    ensures
        final(out)@ == old(out)@ + more@,
{
    let mut k: usize = 0;
    while k < more.len()
        invariant
            k <= more@.len(),
            out@ == old(out)@ + more@.take(k as int),
        decreases more@.len() - k,
    {
        out.push(more[k]);
        assert(old(out)@ + more@.take(k + 1) =~= (old(out)@ + more@.take(k as int)).push(
            more@[k as int],
        ));
        k = k + 1;
    }
    assert(more@.take(more@.len() as int) =~= more@);
}

} // verus!
