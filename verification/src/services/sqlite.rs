//! The packages of the local `winget` source index, read straight from the bytes
//! of its SQLite database: the table b-tree rooted at page 3, one row per package
//! with the id in column 1, the name in column 2 and the version in column 4.
use vstd::prelude::*;
use crate::order::{key_views, sort_by_keys, sorted_by_keys, SortKey};
use crate::text::{
    append_chars, chars_of, decimal, from_utf8_lossy, lowercase, lowercase_chars, string_of,
    utf8_lossy,
};
use crate::types::{records, AppRecord, InstalledApp};

verus! {

// ───────────────────────── integers ─────────────────────────

/// A big-endian 16-bit integer at `o`, if the bytes are there.
pub open spec fn u16_at(d: Seq<u8>, o: int) -> Option<int> {
    if 0 <= o && o + 2 <= d.len() {
        Some(d[o] * 256 + d[o + 1])
    } else {
        None
    }
}

/// A big-endian 32-bit integer at `o`, if the bytes are there.
pub open spec fn u32_at(d: Seq<u8>, o: int) -> Option<int> {
    if 0 <= o && o + 4 <= d.len() {
        Some(((d[o] * 256 + d[o + 1]) * 256 + d[o + 2]) * 256 + d[o + 3])
    } else {
        None
    }
}

/// The rest of a SQLite varint from byte `i` on, `acc` holding the bits so far:
/// seven bits from each byte with the high bit set, then the byte without it;
/// the ninth byte gives all eight bits. The value and the number of bytes.
pub open spec fn varint_from(d: Seq<u8>, o: int, i: int, acc: int) -> Option<(int, int)>
    decreases 9 - i,
{
    if i < 0 || i >= 9 || o + i < 0 || o + i >= d.len() {
        None
    } else if i == 8 {
        Some((acc * 256 + d[o + 8], 9))
    } else if d[o + i] < 128 {
        Some((acc * 128 + d[o + i], i + 1))
    } else {
        varint_from(d, o, i + 1, acc * 128 + (d[o + i] - 128))
    }
}

/// The SQLite varint at `o`: its value and its length.
pub open spec fn varint_at(d: Seq<u8>, o: int) -> Option<(int, int)> {
    varint_from(d, o, 0, 0)
}

pub open spec fn pow128(i: nat) -> nat
    decreases i,
{
    if i == 0 {
        1
    } else {
        128 * pow128((i - 1) as nat)
    }
}

pub proof fn lemma_varint_from(d: Seq<u8>, o: int, i: int, acc: int)
    requires
        0 <= acc,
    ensures
        varint_from(d, o, i, acc) matches Some((v, n)) ==> i < n <= 9 && 0 <= v,
    decreases 9 - i,
{
    if !(i < 0 || i >= 9 || o + i < 0 || o + i >= d.len()) && i != 8 && d[o + i] >= 128 {
        lemma_varint_from(d, o, i + 1, acc * 128 + (d[o + i] - 128));
    }
}

/// A varint takes one to nine bytes and is not negative.
pub proof fn lemma_varint_at(d: Seq<u8>, o: int)
    ensures
        varint_at(d, o) matches Some((v, n)) ==> 1 <= n <= 9 && 0 <= v,
{
    lemma_varint_from(d, o, 0, 0);
}

pub open spec fn end_of_data() -> Seq<char> {
    "Unexpected end of varint"@
}

/// Reads a big-endian `u16` at `offset`.
pub fn read_u16(data: &[u8], offset: usize) -> (res: Result<u16, String>)
    ensures
        match res {
            Ok(v) => u16_at(data@, offset as int) == Some(v as int),
            Err(e) => u16_at(data@, offset as int) is None && e@ == "Unexpected end reading u16"@,
        },
{
    if offset > data.len() || data.len() - offset < 2 {
        return Err(String::from_str("Unexpected end reading u16"));
    }
    let v = (data[offset] as u16) * 256 + (data[offset + 1] as u16);
    Ok(v)
}

/// Reads a big-endian `u32` at `offset`.
pub fn read_u32(data: &[u8], offset: usize) -> (res: Result<u32, String>)
    ensures
        match res {
            Ok(v) => u32_at(data@, offset as int) == Some(v as int),
            Err(e) => u32_at(data@, offset as int) is None && e@ == "Unexpected end reading u32"@,
        },
{
    if offset > data.len() || data.len() - offset < 4 {
        return Err(String::from_str("Unexpected end reading u32"));
    }
    let b0 = data[offset] as u32;
    let b1 = data[offset + 1] as u32;
    let b2 = data[offset + 2] as u32;
    let b3 = data[offset + 3] as u32;
    let v = ((b0 * 256 + b1) * 256 + b2) * 256 + b3;
    Ok(v)
}

/// Reads the SQLite varint at `offset`: its value and how many bytes it took.
pub fn read_varint(data: &[u8], offset: usize) -> (res: Result<(u64, usize), String>)
    ensures
        match res {
            Ok((v, n)) => varint_at(data@, offset as int) == Some((v as int, n as int)),
            Err(e) => varint_at(data@, offset as int) is None && e@ == end_of_data(),
        },
{
    let mut value: u64 = 0;
    let mut i: usize = 0;
    proof {
        reveal_with_fuel(pow128, 9);
        assert(pow128(8) == 72057594037927936);
    }
    loop
        invariant
            i <= 8,
            value < pow128(i as nat),
            pow128(8) == 72057594037927936,
            varint_at(data@, offset as int) == varint_from(data@, offset as int, i as int, value as int),
        decreases 9 - i,
    {
        proof {
            lemma_pow128_mono(i as nat);
        }
        if offset >= data.len() || i >= data.len() - offset {
            return Err(String::from_str("Unexpected end of varint"));
        }
        let byte = data[offset + i];
        if i == 8 {
            let v = value * 256 + (byte as u64);
            return Ok((v, 9));
        }
        if byte < 128 {
            let v = value * 128 + (byte as u64);
            return Ok((v, i + 1));
        }
        value = value * 128 + ((byte - 128) as u64);
        i = i + 1;
    }
}

proof fn lemma_pow128_mono(i: nat)
    requires
        i <= 8,
    ensures
        pow128(i) <= pow128(8),
        pow128(i + 1) == 128 * pow128(i),
    decreases 8 - i,
{
    if i < 8 {
        lemma_pow128_mono(i + 1);
    }
}

// ───────────────────────── records ─────────────────────────

/// How many bytes a field of a serial type takes; no length for the reserved
/// types 10 and 11.
pub open spec fn serial_len(s: int) -> Option<int> {
    if s == 0 || s == 8 || s == 9 {
        Some(0)
    } else if 1 <= s <= 4 {
        Some(s)
    } else if s == 5 {
        Some(6)
    } else if s == 6 || s == 7 {
        Some(8)
    } else if s >= 12 {
        Some((((s - 12) / 2) as usize) as int)
    } else {
        None
    }
}

/// The text of a field: none for NULL, the decoded bytes for a text field, empty
/// for every other type.
pub open spec fn serial_text(s: int, bytes: Seq<u8>) -> Option<Seq<char>> {
    if s == 0 {
        None
    } else if s >= 13 && s % 2 == 1 {
        Some(utf8_lossy(bytes))
    } else {
        Some(Seq::empty())
    }
}

pub open spec fn unsupported_serial(s: int) -> Seq<char> {
    "Unsupported SQLite serial type "@ + decimal(s)
}

/// How many bytes a field of serial type `serial` takes.
pub fn sqlite_serial_len(serial: u64) -> (res: Result<usize, String>)
    ensures
        match res {
            Ok(n) => serial_len(serial as int) == Some(n as int),
            Err(e) => serial_len(serial as int) is None && e@ == unsupported_serial(serial as int),
        },
{
    if serial == 0 || serial == 8 || serial == 9 {
        Ok(0)
    } else if 1 <= serial && serial <= 4 {
        Ok(serial as usize)
    } else if serial == 5 {
        Ok(6)
    } else if serial == 6 || serial == 7 {
        Ok(8)
    } else if serial >= 12 {
        Ok(((serial - 12) / 2) as usize)
    } else {
        let mut msg = chars_of("Unsupported SQLite serial type ");
        append_chars(&mut msg, &crate::text::format_i64(serial as i64));
        Err(string_of(&msg))
    }
}

/// The text of a field of serial type `serial` with content `bytes`.
pub fn sqlite_serial_text(serial: u64, bytes: &[u8]) -> (res: Result<Option<String>, String>)
    ensures
        res matches Ok(v) && match v {
            Some(t) => serial_text(serial as int, bytes@) == Some(t@),
            None => serial_text(serial as int, bytes@) is None,
        },
{
    if serial == 0 {
        return Ok(None);
    }
    if serial >= 13 && serial % 2 == 1 {
        return Ok(Some(from_utf8_lossy(bytes)));
    }
    Ok(Some(String::new()))
}

/// The serial types in a record header from `pos` up to `end`.
pub open spec fn serials_from(p: Seq<u8>, pos: int, end: int) -> Result<Seq<int>, Seq<char>>
    decreases end - pos,
{
    if pos >= end {
        Ok(Seq::empty())
    } else {
        match varint_at(p, pos) {
            None => Err(end_of_data()),
            Some((s, u)) => {
                if u < 1 {
                    Err(end_of_data())
                } else if pos + u >= end {
                    Ok(seq![s])
                } else {
                    match serials_from(p, pos + u, end) {
                        Ok(rest) => Ok(seq![s] + rest),
                        Err(e) => Err(e),
                    }
                }
            },
        }
    }
}

/// The texts of the fields of a record, from field `k` on, its body from `pos`.
pub open spec fn fields_from(p: Seq<u8>, ss: Seq<int>, k: int, pos: int) -> Result<Seq<Option<Seq<char>>>, Seq<char>>
    decreases ss.len() - k,
{
    if k < 0 || k >= ss.len() {
        Ok(Seq::empty())
    } else {
        match serial_len(ss[k]) {
            None => Err(unsupported_serial(ss[k])),
            Some(l) => {
                let end = pos + l;
                if end > usize::MAX {
                    Err("Invalid SQLite field length"@)
                } else if end > p.len() {
                    Err("SQLite field outside payload"@)
                } else {
                    match fields_from(p, ss, k + 1, end) {
                        Ok(rest) => Ok(seq![serial_text(ss[k], p.subrange(pos, end))] + rest),
                        Err(e) => Err(e),
                    }
                }
            },
        }
    }
}

/// The text of field `i`, empty when it is missing or NULL.
pub open spec fn field_text(vals: Seq<Option<Seq<char>>>, i: int) -> Seq<char> {
    if 0 <= i < vals.len() {
        match vals[i] {
            Some(t) => t,
            None => Seq::empty(),
        }
    } else {
        Seq::empty()
    }
}

/// The package a record stands for: none when its id or name is empty.
pub open spec fn package_of(vals: Seq<Option<Seq<char>>>) -> Option<AppRecord> {
    let id = field_text(vals, 1);
    let name = field_text(vals, 2);
    if id.len() == 0 || name.len() == 0 {
        None
    } else {
        Some(AppRecord { name, id, version: field_text(vals, 4), source: "winget"@ })
    }
}

/// The package in the table b-tree leaf cell at `offset`: payload length and row id
/// as varints, then the record: a header of serial types and the field bodies.
pub open spec fn package_cell(d: Seq<u8>, offset: int) -> Result<Option<AppRecord>, Seq<char>> {
    match varint_at(d, offset) {
        None => Err(end_of_data()),
        Some((plen, n1)) => match varint_at(d, offset + n1) {
            None => Err(end_of_data()),
            Some((_, n2)) => {
                let ps = offset + n1 + n2;
                let pe = ps + ((plen as u64) as usize);
                if pe > usize::MAX {
                    Err("Invalid SQLite payload length"@)
                } else if pe > d.len() {
                    Err("SQLite payload outside file"@)
                } else {
                    let p = d.subrange(ps, pe);
                    match varint_at(p, 0) {
                        None => Err(end_of_data()),
                        Some((hl, hu)) => {
                            let hl2 = ((hl as u64) as usize) as int;
                            if hl2 > p.len() || hu > hl2 {
                                Err("Invalid SQLite record header"@)
                            } else {
                                match serials_from(p, hu, hl2) {
                                    Err(e) => Err(e),
                                    Ok(ss) => match fields_from(p, ss, 0, hl2) {
                                        Err(e) => Err(e),
                                        Ok(vals) => Ok(package_of(vals)),
                                    },
                                }
                            }
                        },
                    }
                }
            },
        },
    }
}


/// `r` with `pre` put in front of its items, or its error.
pub open spec fn with_prefix<A>(pre: Seq<A>, r: Result<Seq<A>, Seq<char>>) -> Result<Seq<A>, Seq<char>> {
    match r {
        Ok(rest) => Ok(pre + rest),
        Err(e) => Err(e),
    }
}

pub open spec fn ints_of(v: Seq<u64>) -> Seq<int> {
    v.map_values(|x: u64| x as int)
}

pub open spec fn texts_of(v: Seq<Option<String>>) -> Seq<Option<Seq<char>>> {
    v.map_values(|x: Option<String>| match x {
        Some(t) => Some(t@),
        None => None,
    })
}

fn text_at(values: &Vec<Option<String>>, i: usize) -> (res: String)
    ensures
        res@ == field_text(texts_of(values@), i as int),
{
    if i < values.len() {
        match &values[i] {
            Some(t) => t.clone(),
            None => String::new(),
        }
    } else {
        String::new()
    }
}

/// Reads the package in the table b-tree leaf cell at `offset`.
pub fn parse_sqlite_package_cell(data: &[u8], offset: usize) -> (res: Result<Option<InstalledApp>, String>)
    requires
        data@.len() <= isize::MAX,
    ensures
        match res {
            Ok(Some(a)) => package_cell(data@, offset as int) == Ok::<Option<AppRecord>, Seq<char>>(Some(a@)),
            Ok(None) => package_cell(data@, offset as int) == Ok::<Option<AppRecord>, Seq<char>>(None),
            Err(e) => package_cell(data@, offset as int) == Err::<Option<AppRecord>, Seq<char>>(e@),
        },
{
    let (payload_len, n1) = read_varint(data, offset)?;
    proof {
        lemma_varint_at(data@, offset as int);
    }
    let (_, n2) = read_varint(data, offset + n1)?;
    proof {
        lemma_varint_at(data@, offset + n1);
    }
    let payload_start = offset + n1 + n2;
    let payload_end = match payload_start.checked_add(payload_len as usize) {
        Some(e) => e,
        None => {
            return Err(String::from_str("Invalid SQLite payload length"));
        },
    };
    if payload_end > data.len() {
        return Err(String::from_str("SQLite payload outside file"));
    }
    let payload = vstd::slice::slice_subrange(data, payload_start, payload_end);
    let ghost p = payload@;
    assert(p == data@.subrange(payload_start as int, payload_end as int));
    let (header_len, h_used) = read_varint(payload, 0)?;
    proof {
        lemma_varint_at(p, 0);
    }
    let header_len = header_len as usize;
    if header_len > payload.len() || h_used > header_len {
        return Err(String::from_str("Invalid SQLite record header"));
    }
    let ghost rest_of_cell = match serials_from(p, h_used as int, header_len as int) {
        Err(e) => Err(e),
        Ok(ss) => match fields_from(p, ss, 0, header_len as int) {
            Err(e) => Err(e),
            Ok(vals) => Ok(package_of(vals)),
        },
    };
    assert(package_cell(data@, offset as int) == rest_of_cell);
    let mut serials: Vec<u64> = Vec::new();
    let mut pos = h_used;
    while pos < header_len
        invariant
            h_used <= pos <= header_len + 9,
            header_len <= p.len(),
            package_cell(data@, offset as int) == rest_of_cell,
            rest_of_cell == match serials_from(p, h_used as int, header_len as int) {
                Err(e) => Err(e),
                Ok(ss) => match fields_from(p, ss, 0, header_len as int) {
                    Err(e) => Err(e),
                    Ok(vals) => Ok(package_of(vals)),
                },
            },
            p == payload@,
            p.len() <= isize::MAX,
            serials_from(p, h_used as int, header_len as int) == with_prefix(
                ints_of(serials@),
                serials_from(p, pos as int, header_len as int),
            ),
        decreases p.len() + 9 - pos,
    {
        let ghost before = ints_of(serials@);
        let (serial, used) = match read_varint(payload, pos) {
            Ok(r) => r,
            Err(e) => {
                return Err(e);
            },
        };
        proof {
            lemma_varint_at(p, pos as int);
        }
        serials.push(serial);
        assert(ints_of(serials@) =~= before.push(serial as int));
        proof {
            if pos + used >= header_len {
                assert(seq![serial as int] + Seq::<int>::empty() =~= seq![serial as int]);
            }
            let r = serials_from(p, pos + used, header_len as int);
            match r {
                Ok(rest) => {
                    assert(before + (seq![serial as int] + rest) =~= before.push(serial as int) + rest);
                },
                Err(_) => {},
            }
        }
        pos = pos + used;
    }
    assert(ints_of(serials@) + Seq::<int>::empty() =~= ints_of(serials@));
    let ghost ss = ints_of(serials@);
    assert(serials_from(p, h_used as int, header_len as int) == Ok::<Seq<int>, Seq<char>>(ss));
    let mut values: Vec<Option<String>> = Vec::new();
    let mut body_pos = header_len;
    let mut k: usize = 0;
    while k < serials.len()
        invariant
            k <= serials@.len(),
            body_pos <= p.len(),
            p == payload@,
            ss == ints_of(serials@),
            package_cell(data@, offset as int) == match fields_from(p, ss, 0, header_len as int) {
                Err(e) => Err(e),
                Ok(vals) => Ok(package_of(vals)),
            },
            fields_from(p, ss, 0, header_len as int) == with_prefix(
                texts_of(values@),
                fields_from(p, ss, k as int, body_pos as int),
            ),
        decreases serials@.len() - k,
    {
        let ghost before = texts_of(values@);
        let serial = serials[k];
        assert(ss[k as int] == serial as int);
        let len = match sqlite_serial_len(serial) {
            Ok(n) => n,
            Err(e) => {
                return Err(e);
            },
        };
        let end = match body_pos.checked_add(len) {
            Some(e) => e,
            None => {
                return Err(String::from_str("Invalid SQLite field length"));
            },
        };
        if end > payload.len() {
            return Err(String::from_str("SQLite field outside payload"));
        }
        let field = vstd::slice::slice_subrange(payload, body_pos, end);
        let text = match sqlite_serial_text(serial, field) {
            Ok(t) => t,
            Err(e) => {
                return Err(e);
            },
        };
        let ghost tv = texts_of(seq![text])[0];
        assert(tv == serial_text(ss[k as int], p.subrange(body_pos as int, end as int)));
        values.push(text);
        assert(texts_of(values@) =~= before.push(tv));
        proof {
            let r = fields_from(p, ss, k + 1, end as int);
            match r {
                Ok(rest) => {
                    assert(before + (seq![tv] + rest) =~= before.push(tv) + rest);
                },
                Err(_) => {},
            }
        }
        body_pos = end;
        k = k + 1;
    }
    assert(texts_of(values@) + Seq::<Option<Seq<char>>>::empty() =~= texts_of(values@));
    let id = text_at(&values, 1);
    let name = text_at(&values, 2);
    let version = text_at(&values, 4);
    if id.as_str().is_empty() || name.as_str().is_empty() {
        return Ok(None);
    }
    Ok(Some(InstalledApp::new(name, id, version, String::from_str("winget"))))
}


// ───────────────────────── pages ─────────────────────────

pub open spec fn hex_digit(d: int) -> char {
    if d < 10 {
        digit_of_nat(d)
    } else if d == 10 { 'a' } else if d == 11 { 'b' } else if d == 12 { 'c' } else if d == 13 { 'd' }
    else if d == 14 { 'e' } else { 'f' }
}

pub open spec fn digit_of_nat(d: int) -> char {
    crate::text::digit_char(d as nat)
}

/// A byte in lower-case hexadecimal with a `0x` prefix, as `{:#x}` writes it.
pub open spec fn hex_byte(b: u8) -> Seq<char> {
    if b < 16 {
        seq!['0', 'x', hex_digit(b as int)]
    } else {
        seq!['0', 'x', hex_digit((b / 16) as int), hex_digit((b % 16) as int)]
    }
}

fn hex_digit_exec(d: u8) -> (c: char)
    requires
        d < 16,
    ensures
        c == hex_digit(d as int),
{
    if d == 0 { '0' } else if d == 1 { '1' } else if d == 2 { '2' } else if d == 3 { '3' }
    else if d == 4 { '4' } else if d == 5 { '5' } else if d == 6 { '6' } else if d == 7 { '7' }
    else if d == 8 { '8' } else if d == 9 { '9' } else if d == 10 { 'a' } else if d == 11 { 'b' }
    else if d == 12 { 'c' } else if d == 13 { 'd' } else if d == 14 { 'e' } else { 'f' }
}

pub open spec fn unsupported_page(t: u8) -> Seq<char> {
    "Unsupported SQLite page type "@ + hex_byte(t)
}

fn unsupported_page_message(t: u8) -> (res: String)
    ensures
        res@ == unsupported_page(t),
{
    let mut msg = chars_of("Unsupported SQLite page type ");
    let mut hex: Vec<char> = Vec::new();
    hex.push('0');
    hex.push('x');
    if t < 16 {
        hex.push(hex_digit_exec(t));
    } else {
        hex.push(hex_digit_exec(t / 16));
        hex.push(hex_digit_exec(t % 16));
    }
    assert(hex@ =~= hex_byte(t));
    append_chars(&mut msg, &hex);
    string_of(&msg)
}

/// Where page `page_no` starts (pages are numbered from 1), if that is a position.
pub open spec fn page_offset(ps: int, page_no: int) -> Option<int> {
    if page_no >= 1 && (page_no - 1) * ps <= usize::MAX {
        Some((page_no - 1) * ps)
    } else {
        None
    }
}

/// The packages in the table b-tree under page `page_no`, in key order. `fuel`
/// bounds the depth: a tree deeper than that (only a cycle between pages can make
/// it deeper than the file has pages) is an error.
pub open spec fn table_rows_at(d: Seq<u8>, ps: int, page_no: int, fuel: nat) -> Result<Seq<AppRecord>, Seq<char>>
    decreases fuel, 1nat, 0nat,
{
    if fuel == 0 {
        Err("SQLite page tree too deep"@)
    } else {
        match page_offset(ps, page_no) {
            None => Err("Invalid SQLite page number"@),
            Some(start) => {
                let hs = if page_no == 1 { start + 100 } else { start };
                if hs >= d.len() {
                    Err("SQLite page outside file"@)
                } else {
                    let t = d[hs];
                    match u16_at(d, hs + 3) {
                        None => Err("Unexpected end reading u16"@),
                        Some(count) => {
                            if t == 5 {
                                match interior_rows(d, ps, start, hs + 12, 0, count, fuel) {
                                    Err(e) => Err(e),
                                    Ok(rows) => match u32_at(d, hs + 8) {
                                        None => Err("Unexpected end reading u32"@),
                                        Some(right) => with_prefix(
                                            rows,
                                            table_rows_at(d, ps, right, (fuel - 1) as nat),
                                        ),
                                    },
                                }
                            } else if t == 13 {
                                leaf_rows(d, start, hs + 8, 0, count)
                            } else {
                                Err(unsupported_page(t))
                            }
                        },
                    }
                }
            },
        }
    }
}

/// The packages under the children of the cells `i..count` of an interior page.
pub open spec fn interior_rows(
    d: Seq<u8>,
    ps: int,
    start: int,
    cps: int,
    i: int,
    count: int,
    fuel: nat,
) -> Result<Seq<AppRecord>, Seq<char>>
    decreases fuel, 0nat, count - i,
{
    if fuel == 0 || i < 0 || i >= count {
        Ok(Seq::empty())
    } else {
        match u16_at(d, cps + 2 * i) {
            None => Err("Unexpected end reading u16"@),
            Some(ptr) => match u32_at(d, start + ptr) {
                None => Err("Unexpected end reading u32"@),
                Some(child) => match table_rows_at(d, ps, child, (fuel - 1) as nat) {
                    Err(e) => Err(e),
                    Ok(rows) => with_prefix(rows, interior_rows(d, ps, start, cps, i + 1, count, fuel)),
                },
            },
        }
    }
}

/// The packages in the cells `i..count` of a leaf page.
pub open spec fn leaf_rows(d: Seq<u8>, start: int, cps: int, i: int, count: int) -> Result<Seq<AppRecord>, Seq<char>>
    decreases count - i,
{
    if i < 0 || i >= count {
        Ok(Seq::empty())
    } else {
        match u16_at(d, cps + 2 * i) {
            None => Err("Unexpected end reading u16"@),
            Some(ptr) => match package_cell(d, start + ptr) {
                Err(e) => Err(e),
                Ok(found) => with_prefix(
                    match found {
                        Some(a) => seq![a],
                        None => Seq::empty(),
                    },
                    leaf_rows(d, start, cps, i + 1, count),
                ),
            },
        }
    }
}

pub open spec fn opt_records(found: Option<InstalledApp>) -> Seq<AppRecord> {
    match found {
        Some(a) => seq![a@],
        None => Seq::empty(),
    }
}

/// `after` begins with `before`: rows were only appended.
pub open spec fn keeps_prefix(before: Seq<AppRecord>, after: Seq<AppRecord>) -> bool {
    before.len() <= after.len() && after.take(before.len() as int) == before
}

/// What reading more rows into a list came to: the new rows appended, or an
/// error, the rows read before it still in front.
pub open spec fn appended(
    before: Seq<AppRecord>,
    after: Seq<AppRecord>,
    r: Result<Seq<AppRecord>, Seq<char>>,
    ok: bool,
    err: Seq<char>,
) -> bool {
    match r {
        Ok(rows) => ok && after == before + rows,
        Err(e) => !ok && err == e && keeps_prefix(before, after),
    }
}

/// The error found in the header of page `page_no` before any of its cells is
/// read: too deep, no such page, a page outside the file, no cell count, or a
/// page that is neither an interior nor a leaf table page.
pub open spec fn page_check(d: Seq<u8>, ps: int, page_no: int, fuel: nat) -> Option<Seq<char>> {
    if fuel == 0 {
        Some("SQLite page tree too deep"@)
    } else {
        match page_offset(ps, page_no) {
            None => Some("Invalid SQLite page number"@),
            Some(start) => {
                let hs = if page_no == 1 { start + 100 } else { start };
                if hs >= d.len() {
                    Some("SQLite page outside file"@)
                } else {
                    match u16_at(d, hs + 3) {
                        None => Some("Unexpected end reading u16"@),
                        Some(_) => if d[hs] == 5 || d[hs] == 13 {
                            None
                        } else {
                            Some(unsupported_page(d[hs]))
                        },
                    }
                }
            },
        }
    }
}

fn read_leaf_cells(
    data: &[u8],
    start: usize,
    cps: usize,
    count: usize,
    rows: &mut Vec<InstalledApp>,
) -> (res: Result<(), String>)
    requires
        data@.len() <= isize::MAX,
        start < data@.len(),
        cps <= data@.len() + 12,
        count <= 65535,
    ensures
        appended(
            records(old(rows)@),
            records(final(rows)@),
            leaf_rows(data@, start as int, cps as int, 0, count as int),
            res is Ok,
            match res {
                Err(e) => e@,
                Ok(_) => Seq::empty(),
            },
        ),
{
    let ghost before = records(rows@);
    let mut i: usize = 0;
    while i < count
        invariant
            i <= count,
            data@.len() <= isize::MAX,
            start < data@.len(),
            cps <= data@.len() + 12,
            count <= 65535,
            leaf_rows(data@, start as int, cps as int, 0, count as int) == with_prefix(
                records(rows@).skip(before.len() as int),
                leaf_rows(data@, start as int, cps as int, i as int, count as int),
            ),
            before == records(old(rows)@),
            records(rows@).len() >= before.len(),
            records(rows@).take(before.len() as int) == before,
        decreases count - i,
    {
        let ghost done = records(rows@).skip(before.len() as int);
        let ptr = match read_u16(data, cps + i * 2) {
            Ok(v) => v,
            Err(e) => {
                return Err(e);
            },
        };
        let cell = start + ptr as usize;
        match parse_sqlite_package_cell(data, cell) {
            Err(e) => {
                return Err(e);
            },
            Ok(found) => {
                let ghost r0 = records(rows@);
                let ghost fv = opt_records(found);
                match found {
                    Some(a) => {
                        rows.push(a);
                    },
                    None => {},
                }
                assert(records(rows@) =~= r0 + fv);
                assert(records(rows@).skip(before.len() as int) =~= done + fv);
                assert(records(rows@).take(before.len() as int) =~= r0.take(before.len() as int));
                proof {
                    match leaf_rows(data@, start as int, cps as int, i + 1, count as int) {
                        Ok(rest) => {
                            assert(done + (fv + rest) =~= (done + fv) + rest);
                        },
                        Err(_) => {},
                    }
                }
            },
        }
        i = i + 1;
    }
    proof {
        assert(records(rows@) =~= before + records(rows@).skip(before.len() as int));
        let done = records(rows@).skip(before.len() as int);
        assert(done + Seq::<AppRecord>::empty() =~= done);
    }
    Ok(())
}

/// Reads the packages in the table b-tree under page `page_no` into `rows`,
/// going at most `fuel` pages deep.
#[verifier::spinoff_prover]
#[verifier::rlimit(40)]
pub fn read_table_page_within(
    data: &[u8],
    page_size: usize,
    page_no: u32,
    fuel: usize,
    rows: &mut Vec<InstalledApp>,
) -> (res: Result<(), String>)
    requires
        data@.len() <= isize::MAX,
    ensures
        appended(
            records(old(rows)@),
            records(final(rows)@),
            table_rows_at(data@, page_size as int, page_no as int, fuel as nat),
            res is Ok,
            match res {
                Err(e) => e@,
                Ok(_) => Seq::empty(),
            },
        ),
        page_check(data@, page_size as int, page_no as int, fuel as nat) is Some ==> final(rows)@
            == old(rows)@,
    decreases fuel, 1nat, 0nat,
{
    // Until a page's cells are read, the rows stay as they came.
    assert(records(rows@).take(records(rows@).len() as int) =~= records(rows@));
    if fuel == 0 {
        return Err(String::from_str("SQLite page tree too deep"));
    }
    let page_start = match (page_no as usize).checked_sub(1) {
        None => {
            return Err(String::from_str("Invalid SQLite page number"));
        },
        Some(n) => match n.checked_mul(page_size) {
            None => {
                return Err(String::from_str("Invalid SQLite page number"));
            },
            Some(s) => {
                assert(n == 0 ==> s == 0);
                s
            },
        },
    };
    let header_start = if page_no == 1 {
        page_start + 100
    } else {
        page_start
    };
    if header_start >= data.len() {
        return Err(String::from_str("SQLite page outside file"));
    }
    let page_type = data[header_start];
    let cell_count = match read_u16(data, header_start + 3) {
        Ok(v) => v as usize,
        Err(e) => {
            return Err(e);
        },
    };
    if page_type == 0x05 {
        let ghost before = records(rows@);
        read_interior_cells(data, page_size, page_start, header_start + 12, cell_count, fuel, rows)?;
        let ghost mid = records(rows@);
        let ghost pre = interior_rows(data@, page_size as int, page_start as int, header_start + 12, 0, cell_count as int, fuel as nat)->Ok_0;
        assert(mid == before + pre);
        assert(mid.take(before.len() as int) =~= before);
        let right_child = match read_u32(data, header_start + 8) {
            Ok(v) => v,
            Err(e) => {
                return Err(e);
            },
        };
        let r = read_table_page_within(data, page_size, right_child, fuel - 1, rows);
        proof {
            match table_rows_at(data@, page_size as int, right_child as int, (fuel - 1) as nat) {
                Ok(rest) => {
                    assert(records(rows@) =~= records(old(rows)@) + (pre + rest));
                },
                Err(_) => {
                    assert(records(rows@).take(before.len() as int) =~= records(rows@).take(
                        mid.len() as int,
                    ).take(before.len() as int));
                },
            }
        }
        r
    } else if page_type == 0x0d {
        read_leaf_cells(data, page_start, header_start + 8, cell_count, rows)
    } else {
        Err(unsupported_page_message(page_type))
    }
}

fn read_interior_cells(
    data: &[u8],
    page_size: usize,
    start: usize,
    cps: usize,
    count: usize,
    fuel: usize,
    rows: &mut Vec<InstalledApp>,
) -> (res: Result<(), String>)
    requires
        data@.len() <= isize::MAX,
        start < data@.len(),
        cps <= data@.len() + 12,
        count <= 65535,
        fuel > 0,
    ensures
        appended(
            records(old(rows)@),
            records(final(rows)@),
            interior_rows(data@, page_size as int, start as int, cps as int, 0, count as int, fuel as nat),
            res is Ok,
            match res {
                Err(e) => e@,
                Ok(_) => Seq::empty(),
            },
        ),
    decreases fuel, 0nat, count,
{
    let ghost before = records(rows@);
    let mut i: usize = 0;
    while i < count
        invariant
            i <= count,
            fuel > 0,
            data@.len() <= isize::MAX,
            start < data@.len(),
            cps <= data@.len() + 12,
            count <= 65535,
            interior_rows(data@, page_size as int, start as int, cps as int, 0, count as int, fuel as nat)
                == with_prefix(
                records(rows@).skip(before.len() as int),
                interior_rows(data@, page_size as int, start as int, cps as int, i as int, count as int, fuel as nat),
            ),
            before == records(old(rows)@),
            records(rows@).len() >= before.len(),
            records(rows@).take(before.len() as int) == before,
        decreases count - i,
    {
        let ghost done = records(rows@).skip(before.len() as int);
        let ghost r0 = records(rows@);
        let ptr = match read_u16(data, cps + i * 2) {
            Ok(v) => v,
            Err(e) => {
                return Err(e);
            },
        };
        let cell = start + ptr as usize;
        let child = match read_u32(data, cell) {
            Ok(v) => v,
            Err(e) => {
                return Err(e);
            },
        };
        match read_table_page_within(data, page_size, child, fuel - 1, rows) {
            Err(e) => {
                assert(records(rows@).take(before.len() as int) =~= records(rows@).take(
                    r0.len() as int,
                ).take(before.len() as int));
                return Err(e);
            },
            Ok(()) => {
                let ghost cv = table_rows_at(data@, page_size as int, child as int, (fuel - 1) as nat)->Ok_0;
                assert(records(rows@) == r0 + cv);
                assert(records(rows@).skip(before.len() as int) =~= done + cv);
                assert(records(rows@).take(before.len() as int) =~= r0.take(before.len() as int));
                proof {
                    match interior_rows(data@, page_size as int, start as int, cps as int, i + 1, count as int, fuel as nat) {
                        Ok(rest) => {
                            assert(done + (cv + rest) =~= (done + cv) + rest);
                        },
                        Err(_) => {},
                    }
                }
            },
        }
        i = i + 1;
    }
    proof {
        assert(records(rows@) =~= before + records(rows@).skip(before.len() as int));
        let done = records(rows@).skip(before.len() as int);
        assert(done + Seq::<AppRecord>::empty() =~= done);
    }
    Ok(())
}


/// Reads the packages in the table b-tree under page `page_no` into `rows`.
/// A tree deeper than the file has pages (only pages that refer back to one
/// another can make one) is an error rather than an endless descent.
pub fn read_sqlite_table_page(
    data: &[u8],
    page_size: usize,
    page_no: u32,
    rows: &mut Vec<InstalledApp>,
) -> (res: Result<(), String>)
    requires
        data@.len() <= isize::MAX,
    ensures
        appended(
            records(old(rows)@),
            records(final(rows)@),
            table_rows_at(data@, page_size as int, page_no as int, page_budget(data@, page_size as int)),
            res is Ok,
            match res {
                Err(e) => e@,
                Ok(_) => Seq::empty(),
            },
        ),
        page_check(data@, page_size as int, page_no as int, page_budget(data@, page_size as int)) is Some
            ==> final(rows)@ == old(rows)@,
{
    let fuel: usize = data.len() / (if page_size > 0 { page_size } else { 1 }) + 2;
    read_table_page_within(data, page_size, page_no, fuel, rows)
}

/// The page number that cell `k` of an interior page points to: the cell's
/// offset is the `k`-th entry of the pointer array at `cps`, and the child page
/// number is the first four bytes of the cell.
pub open spec fn cell_child(d: Seq<u8>, start: int, cps: int, k: int) -> Option<int> {
    match u16_at(d, cps + 2 * k) {
        None => None,
        Some(ptr) => u32_at(d, start + ptr),
    }
}

/// The page `page_no` of `d` has its header at `hs`, starting at `start`, and
/// holds `count` cells of type `t`.
pub open spec fn page_header(d: Seq<u8>, ps: int, page_no: int, start: int, hs: int, t: u8, count: int) -> bool {
    &&& page_offset(ps, page_no) == Some(start)
    &&& hs == (if page_no == 1 { start + 100 } else { start })
    &&& hs < d.len()
    &&& d[hs] == t
    &&& u16_at(d, hs + 3) == Some(count)
}

proof fn lemma_interior_cells(d: Seq<u8>, ps: int, start: int, cps: int, i: int, fuel: nat, kids: Seq<Seq<AppRecord>>)
    requires
        fuel > 0,
        0 <= i <= kids.len(),
        forall|k: int|
            0 <= k < kids.len() ==> ((#[trigger] cell_child(d, start, cps, k)) matches Some(c)
                && table_rows_at(d, ps, c, (fuel - 1) as nat) == Ok::<Seq<AppRecord>, Seq<char>>(kids[k])),
    ensures
        interior_rows(d, ps, start, cps, i, kids.len() as int, fuel) == Ok::<Seq<AppRecord>, Seq<char>>(kids.skip(i).flatten()),
    decreases kids.len() - i,
{
    if i == kids.len() {
        assert(kids.skip(i) =~= Seq::<Seq<AppRecord>>::empty());
    } else {
        lemma_interior_cells(d, ps, start, cps, i + 1, fuel, kids);
        assert(cell_child(d, start, cps, i) is Some);
        assert(kids.skip(i).drop_first() =~= kids.skip(i + 1));
        assert(kids.skip(i).first() == kids[i]);
    }
}

/// The packages under an interior table page are those under the child of each
/// of its cells, in cell order, followed by those under its right-most child,
/// the page number at offset 8 of its header.
pub proof fn lemma_interior_page_rows(
    d: Seq<u8>,
    ps: int,
    page_no: int,
    fuel: nat,
    start: int,
    hs: int,
    kids: Seq<Seq<AppRecord>>,
    right: int,
    right_rows: Seq<AppRecord>,
)
    requires
        fuel > 0,
        page_header(d, ps, page_no, start, hs, 5, kids.len() as int),
        forall|k: int|
            0 <= k < kids.len() ==> ((#[trigger] cell_child(d, start, hs + 12, k)) matches Some(c)
                && table_rows_at(d, ps, c, (fuel - 1) as nat) == Ok::<Seq<AppRecord>, Seq<char>>(kids[k])),
        u32_at(d, hs + 8) == Some(right),
        table_rows_at(d, ps, right, (fuel - 1) as nat) == Ok::<Seq<AppRecord>, Seq<char>>(right_rows),
    ensures
        table_rows_at(d, ps, page_no, fuel) == Ok::<Seq<AppRecord>, Seq<char>>(kids.flatten() + right_rows),
{
    lemma_interior_cells(d, ps, start, hs + 12, 0, fuel, kids);
    assert(kids.skip(0) =~= kids);
}

proof fn lemma_leaf_cells(d: Seq<u8>, start: int, cps: int, i: int, cells: Seq<Option<AppRecord>>)
    requires
        0 <= i <= cells.len(),
        forall|k: int|
            0 <= k < cells.len() ==> ((#[trigger] u16_at(d, cps + 2 * k)) matches Some(ptr)
                && package_cell(d, start + ptr) == Ok::<Option<AppRecord>, Seq<char>>(cells[k])),
    ensures
        leaf_rows(d, start, cps, i, cells.len() as int) == Ok::<Seq<AppRecord>, Seq<char>>(
            cells.skip(i).map_values(|c: Option<AppRecord>| option_seq(c)).flatten(),
        ),
    decreases cells.len() - i,
{
    let f = |c: Option<AppRecord>| option_seq(c);
    if i == cells.len() {
        assert(cells.skip(i).map_values(f) =~= Seq::<Seq<AppRecord>>::empty());
    } else {
        lemma_leaf_cells(d, start, cps, i + 1, cells);
        assert(u16_at(d, cps + 2 * i) is Some);
        let m = cells.skip(i).map_values(f);
        assert(m.drop_first() =~= cells.skip(i + 1).map_values(f));
        assert(m.first() == option_seq(cells[i]));
        assert(option_seq(cells[i]) == (match cells[i] {
            Some(a) => seq![a],
            None => Seq::<AppRecord>::empty(),
        }));
    }
}

/// The packages a leaf cell gives: its package, if it has one.
pub open spec fn option_seq(c: Option<AppRecord>) -> Seq<AppRecord> {
    match c {
        Some(a) => seq![a],
        None => Seq::empty(),
    }
}

/// The packages of a leaf table page are the packages of its cells, in cell
/// order; a cell that holds no package gives none.
pub proof fn lemma_leaf_page_rows(
    d: Seq<u8>,
    ps: int,
    page_no: int,
    fuel: nat,
    start: int,
    hs: int,
    cells: Seq<Option<AppRecord>>,
)
    requires
        fuel > 0,
        page_header(d, ps, page_no, start, hs, 13, cells.len() as int),
        forall|k: int|
            0 <= k < cells.len() ==> ((#[trigger] u16_at(d, hs + 8 + 2 * k)) matches Some(ptr)
                && package_cell(d, start + ptr) == Ok::<Option<AppRecord>, Seq<char>>(cells[k])),
    ensures
        table_rows_at(d, ps, page_no, fuel) == Ok::<Seq<AppRecord>, Seq<char>>(
            cells.map_values(|c: Option<AppRecord>| option_seq(c)).flatten(),
        ),
{
    lemma_leaf_cells(d, start, hs + 8, 0, cells);
    assert(cells.skip(0) =~= cells);
}

// ───────────────────────── the index ─────────────────────────

/// The first sixteen bytes of a SQLite database: "SQLite format 3" and a zero.
pub open spec fn sqlite_magic() -> Seq<u8> {
    seq![83u8, 81, 76, 105, 116, 101, 32, 102, 111, 114, 109, 97, 116, 32, 51, 0]
}

/// The page size in the database header (the value 1 stands for 65536).
pub open spec fn header_page_size(d: Seq<u8>) -> int {
    let n = d[16] * 256 + d[17];
    if n == 1 {
        65536
    } else {
        n
    }
}

/// The depth a table b-tree of the file can have: one more than its pages.
pub open spec fn page_budget(d: Seq<u8>, ps: int) -> nat {
    ((d.len() as int) / (if ps > 0 { ps } else { 1 }) + 2) as nat
}

pub open spec fn name_id_keys(rows: Seq<AppRecord>) -> Seq<(Seq<char>, Seq<char>)> {
    rows.map_values(|a: AppRecord| (lowercase(a.name), lowercase(a.id)))
}

/// The packages of the winget source index, sorted by name and then id (both in
/// lower case), or why the file cannot be read.
pub open spec fn index_packages(d: Seq<u8>) -> Result<Seq<AppRecord>, Seq<char>> {
    if d.len() < 100 || d.take(16) != sqlite_magic() {
        Err("Invalid SQLite index header"@)
    } else {
        let ps = header_page_size(d);
        match table_rows_at(d, ps, 3, page_budget(d, ps)) {
            Err(e) => Err(e),
            Ok(rows) => Ok(sorted_by_keys(name_id_keys(rows), rows)),
        }
    }
}

/// Reads the packages of the winget source index from the bytes of its database.
pub fn read_winget_packages(data: &[u8]) -> (res: Result<Vec<InstalledApp>, String>)
    requires
        data@.len() <= isize::MAX,
    ensures
        match res {
            Ok(v) => index_packages(data@) == Ok::<Seq<AppRecord>, Seq<char>>(records(v@)),
            Err(e) => index_packages(data@) == Err::<Seq<AppRecord>, Seq<char>>(e@),
        },
{
    let magic: [u8; 16] = [83u8, 81, 76, 105, 116, 101, 32, 102, 111, 114, 109, 97, 116, 32, 51, 0];
    if data.len() < 100 {
        return Err(String::from_str("Invalid SQLite index header"));
    }
    let mut k: usize = 0;
    while k < 16
        invariant
            k <= 16,
            data@.len() >= 100,
            magic@ == sqlite_magic(),
            forall|j: int| 0 <= j < k ==> data@[j] == sqlite_magic()[j],
        decreases 16 - k,
    {
        if data[k] != magic[k] {
            assert(data@.take(16)[k as int] != sqlite_magic()[k as int]);
            return Err(String::from_str("Invalid SQLite index header"));
        }
        k = k + 1;
    }
    assert(data@.take(16) =~= sqlite_magic());
    let raw_size = read_u16(data, 16)?;
    let page_size: usize = if raw_size == 1 {
        65536
    } else {
        raw_size as usize
    };
    let mut rows: Vec<InstalledApp> = Vec::new();
    read_sqlite_table_page(data, page_size, 3, &mut rows)?;
    assert(records(rows@) =~= Seq::<AppRecord>::empty() + records(rows@));
    let ghost rv = records(rows@);
    let mut keys: Vec<SortKey> = Vec::new();
    let mut i: usize = 0;
    while i < rows.len()
        invariant
            i <= rows@.len(),
            rv == records(rows@),
            key_views(keys@) == name_id_keys(rv).take(i as int),
        decreases rows@.len() - i,
    {
        let first = lowercase_chars(&chars_of(rows[i].name.as_str()));
        let second = lowercase_chars(&chars_of(rows[i].id.as_str()));
        let ghost k0 = key_views(keys@);
        keys.push(SortKey { first, second });
        assert(key_views(keys@) =~= k0.push((lowercase(rv[i as int].name), lowercase(rv[i as int].id))));
        assert(name_id_keys(rv).take(i + 1) =~= name_id_keys(rv).take(i as int).push(
            (lowercase(rv[i as int].name), lowercase(rv[i as int].id)),
        ));
        i = i + 1;
    }
    assert(name_id_keys(rv).take(rows@.len() as int) =~= name_id_keys(rv));
    let ghost items = rows@;
    let sorted = sort_by_keys(rows, keys);
    proof {
        crate::order::lemma_sorted_by_keys_map(name_id_keys(rv), items, |a: InstalledApp| a@);
    }
    Ok(sorted)
}

/// The packages of the source index come sorted by name, then by id, both
/// ignoring case, and are the packages of its table, each as often as it occurs.
pub proof fn lemma_index_packages_sorted(d: Seq<u8>)
    ensures
        index_packages(d) matches Ok(rows) ==> forall|i: int, j: int|
            0 <= i < j < rows.len() ==> !crate::order::key_lt(
                (lowercase((#[trigger] rows[j]).name), lowercase(rows[j].id)),
                (lowercase((#[trigger] rows[i]).name), lowercase(rows[i].id)),
            ),
{
    if d.len() >= 100 && d.take(16) == sqlite_magic() {
        let ps = header_page_size(d);
        match table_rows_at(d, ps, 3, page_budget(d, ps)) {
            Ok(rows) => {
                let key = |a: AppRecord| (lowercase(a.name), lowercase(a.id));
                assert(name_id_keys(rows) =~= rows.map_values(key));
                crate::order::lemma_sorted_by_keys_ordered(rows, key);
                let out = sorted_by_keys(name_id_keys(rows), rows);
                assert forall|i: int, j: int| 0 <= i < j < out.len() implies !crate::order::key_lt(
                    (lowercase((#[trigger] out[j]).name), lowercase(out[j].id)),
                    (lowercase((#[trigger] out[i]).name), lowercase(out[i].id)),
                ) by {
                    assert(!crate::order::key_lt(key(out[j]), key(out[i])));
                }
            },
            Err(_) => {},
        }
    }
}

} // verus!
