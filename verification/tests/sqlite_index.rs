use setup::types::InstalledApp;
use setup::services::sqlite::{
    parse_sqlite_package_cell, read_sqlite_table_page, read_u16, read_u32, read_varint,
    read_winget_packages, sqlite_serial_len, sqlite_serial_text,
};

fn record(id: &str, name: &str, version: &str) -> Vec<u8> {
    let text = |s: &str| (13 + 2 * s.len()) as u8;
    let header = vec![6u8, 0, text(id), text(name), 0, text(version)];
    let mut payload = header;
    payload.extend_from_slice(id.as_bytes());
    payload.extend_from_slice(name.as_bytes());
    payload.extend_from_slice(version.as_bytes());
    let mut cell = vec![payload.len() as u8, 1u8];
    cell.extend_from_slice(&payload);
    cell
}

fn database(cells: &[Vec<u8>]) -> Vec<u8> {
    let page_size = 512usize;
    let mut data = vec![0u8; page_size * 3];
    data[..16].copy_from_slice(b"SQLite format 3\0");
    data[16] = 0x02;
    data[17] = 0x00;
    let page = page_size * 2;
    data[page] = 0x0d;
    data[page + 3] = 0;
    data[page + 4] = cells.len() as u8;
    let mut at = 100usize;
    for (i, c) in cells.iter().enumerate() {
        data[page + 8 + 2 * i] = (at >> 8) as u8;
        data[page + 9 + 2 * i] = at as u8;
        data[page + at..page + at + c.len()].copy_from_slice(c);
        at += c.len();
    }
    data
}

#[test]
fn reads_packages_from_a_source_index() {
    let data = database(&[
        record("Microsoft.VisualStudioCode", "Visual Studio Code", "1.2.3"),
        record("Example.Alpha", "Alpha Tool", "2.0"),
        record("", "No Id", "1"),
    ]);
    let apps = read_winget_packages(&data).unwrap();
    assert_eq!(apps.len(), 2);
    assert_eq!(apps[0].name, "Alpha Tool");
    assert_eq!(apps[0].version, "2.0");
    assert_eq!(apps[1].id, "Microsoft.VisualStudioCode");
    assert_eq!(apps[1].source, "winget");
}

#[test]
fn rejects_files_that_are_not_indexes() {
    assert_eq!(read_winget_packages(&[0u8; 50]).unwrap_err(), "Invalid SQLite index header");
    let mut data = database(&[]);
    data[0] = b'X';
    assert_eq!(read_winget_packages(&data).unwrap_err(), "Invalid SQLite index header");
    let mut bad = database(&[]);
    bad[1024] = 0x02;
    assert_eq!(read_winget_packages(&bad).unwrap_err(), "Unsupported SQLite page type 0x2");
}

#[test]
fn table_pages_outside_the_file() {
    let data = database(&[]);
    let mut rows = Vec::new();
    assert_eq!(
        read_sqlite_table_page(&data, 512, 9, &mut rows).unwrap_err(),
        "SQLite page outside file"
    );
    assert_eq!(
        read_sqlite_table_page(&data, 512, 0, &mut rows).unwrap_err(),
        "Invalid SQLite page number"
    );
    assert!(rows.is_empty());
}

#[test]
fn integers_and_varints() {
    assert_eq!(read_u16(&[0x01, 0x02], 0), Ok(258));
    assert_eq!(read_u16(&[0x01], 0), Err("Unexpected end reading u16".to_string()));
    assert_eq!(read_u32(&[0, 0, 0x01, 0x00, 9], 1), Ok(0x0100_09));
    assert_eq!(read_u32(&[1, 2, 3], 0), Err("Unexpected end reading u32".to_string()));
    assert_eq!(read_varint(&[0x81, 0x01], 0), Ok((129, 2)));
    assert_eq!(read_varint(&[0x05], 0), Ok((5, 1)));
    assert_eq!(read_varint(&[0x80], 0), Err("Unexpected end of varint".to_string()));
    assert_eq!(read_varint(&[0xff; 9], 0), Ok((u64::MAX, 9)));
}

#[test]
fn serial_types() {
    assert_eq!(sqlite_serial_len(0), Ok(0));
    assert_eq!(sqlite_serial_len(5), Ok(6));
    assert_eq!(sqlite_serial_len(7), Ok(8));
    assert_eq!(sqlite_serial_len(13), Ok(0));
    assert_eq!(sqlite_serial_len(25), Ok(6));
    assert_eq!(sqlite_serial_len(10), Err("Unsupported SQLite serial type 10".to_string()));
    assert_eq!(sqlite_serial_text(0, &[]), Ok(None));
    assert_eq!(sqlite_serial_text(15, b"a"), Ok(Some("a".to_string())));
    assert_eq!(sqlite_serial_text(1, &[5]), Ok(Some(String::new())));
}

#[test]
fn package_cells() {
    let cell = record("Ven.Tool", "Tool", "1.0");
    let found = parse_sqlite_package_cell(&cell, 0).unwrap().unwrap();
    assert_eq!(found.id, "Ven.Tool");
    assert_eq!(found.name, "Tool");
    assert_eq!(found.version, "1.0");
    let nameless = record("Ven.Tool", "", "1.0");
    assert!(parse_sqlite_package_cell(&nameless, 0).unwrap().is_none());
    let mut cut = record("Ven.Tool", "Tool", "1.0");
    cut.truncate(10);
    assert_eq!(parse_sqlite_package_cell(&cut, 0).unwrap_err(), "SQLite payload outside file");
}

#[test]
fn pages_that_refer_back_are_an_error() {
    let mut data = database(&[]);
    let page = 1024usize;
    data[page] = 0x05;
    data[page + 3] = 0;
    data[page + 4] = 1;
    data[page + 8..page + 12].copy_from_slice(&3u32.to_be_bytes());
    data[page + 12] = 0;
    data[page + 13] = 200;
    data[page + 200..page + 204].copy_from_slice(&3u32.to_be_bytes());
    assert_eq!(read_winget_packages(&data).unwrap_err(), "SQLite page tree too deep");
}

fn ids(rows: &[InstalledApp]) -> Vec<&str> {
    rows.iter().map(|a| a.id.as_str()).collect()
}

#[test]
fn failed_page_reads_keep_the_rows_read_before() {
    let old = InstalledApp::new(
        "Old App".to_string(),
        "Old.App".to_string(),
        "1.0".to_string(),
        "winget".to_string(),
    );
    let mut data = database(&[
        record("Example.Alpha", "Alpha Tool", "2.0"),
        record("Example.Beta", "Beta Tool", "3.0"),
    ]);
    let mut rows = vec![old.clone()];
    assert!(read_sqlite_table_page(&data, 512, 9, &mut rows).is_err());
    assert!(read_sqlite_table_page(&data, 512, 0, &mut rows).is_err());
    assert_eq!(ids(&rows), vec!["Old.App"]);

    let mut wrong_type = data.clone();
    wrong_type[1024] = 0x0a;
    assert_eq!(
        read_sqlite_table_page(&wrong_type, 512, 3, &mut rows).unwrap_err(),
        "Unsupported SQLite page type 0xa"
    );
    assert_eq!(ids(&rows), vec!["Old.App"]);

    // The second cell points past the end of the file: the first cell's
    // package is still appended behind the rows that were there.
    data[1024 + 10] = 0xff;
    data[1024 + 11] = 0xf0;
    assert!(read_sqlite_table_page(&data, 512, 3, &mut rows).is_err());
    assert_eq!(rows.len(), 2);
    assert_eq!(rows[0].id, old.id);
    assert_eq!(rows[1].id, "Example.Alpha");
}
