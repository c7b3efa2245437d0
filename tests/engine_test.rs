use rust_sqlite::layout::{
    EMAIL_SIZE, PAGE_SIZE, ROWS_PER_PAGE, ROW_SIZE, TABLE_MAX_ROWS, USERNAME_SIZE,
};
use rust_sqlite::pager::{PageLoad, Pager};
use rust_sqlite::row::{Row, RowError};
use rust_sqlite::statement::{parse_u32, InputType, MetaCommand, PrepareError, Statement};
use rust_sqlite::table::{ExecuteError, Table};

fn load(table: &mut Table, disk: &[u8], l: PageLoad) {
    if l.len == 0 {
        table.pager.load_page(l.page_num, &[]);
    } else {
        let start = l.offset as usize;
        table.pager.load_page(l.page_num, &disk[start..start + l.len]);
    }
}

fn append(table: &mut Table, disk: &[u8], row: &Row) -> Result<(), ExecuteError> {
    loop {
        match table.insert(row) {
            Err(ExecuteError::PageMissing(l)) => load(table, disk, l),
            other => return other,
        }
    }
}

fn scan(table: &mut Table, disk: &[u8]) -> Vec<Row> {
    let mut rows = Vec::new();
    let mut cursor = table.table_start();
    loop {
        match cursor.next(table) {
            Ok(Some(row)) => rows.push(row),
            Ok(None) => return rows,
            Err(l) => load(table, disk, l),
        }
    }
}

fn close(table: &mut Table, disk: &mut Vec<u8>) {
    loop {
        match table.db_close() {
            Ok(writes) => {
                for w in writes {
                    let start = w.offset as usize;
                    if disk.len() < start + w.bytes.len() {
                        disk.resize(start + w.bytes.len(), 0);
                    }
                    disk[start..start + w.bytes.len()].copy_from_slice(&w.bytes);
                }
                return;
            }
            Err(l) => load(table, disk, l),
        }
    }
}

fn text(field: &[u8]) -> &[u8] {
    let end = field.iter().position(|&c| c == 0).unwrap_or(field.len());
    &field[..end]
}

#[test]
fn layout_constants() {
    assert_eq!(ROW_SIZE, 291);
    assert_eq!(ROWS_PER_PAGE, 14);
    assert_eq!(TABLE_MAX_ROWS, 1400);
    assert_eq!(Table::row_slot(0), (0, 0));
    assert_eq!(Table::row_slot(13), (0, 13 * 291));
    assert_eq!(Table::row_slot(15), (1, 291));
}

#[test]
fn row_round_trip() {
    let row = Row::new(7, b"alice", b"alice@example.com").unwrap();
    let mut buf = vec![0xAAu8; 300];
    row.serialize(&mut buf, 5);
    assert_eq!(&buf[..5], &[0xAA; 5]);
    assert_eq!(&buf[5..9], &[7, 0, 0, 0]);
    assert_eq!(&buf[9..14], b"alice");
    assert_eq!(buf[14], 0);
    assert_eq!(&buf[296..], &[0xAA; 4]);
    let back = Row::deserialize(&buf, 5);
    assert_eq!(back.id, 7);
    assert_eq!(back.username, row.username);
    assert_eq!(back.email, row.email);
    assert_eq!(text(&back.username), b"alice");
    assert_eq!(text(&back.email), b"alice@example.com");
}

#[test]
fn row_id_little_endian() {
    let row = Row::new(0x01020304, b"", b"").unwrap();
    let mut buf = vec![0u8; ROW_SIZE];
    row.serialize(&mut buf, 0);
    assert_eq!(&buf[..4], &[4, 3, 2, 1]);
    assert_eq!(Row::deserialize(&buf, 0).id, 0x01020304);
}

#[test]
fn row_maximum_length_fields() {
    let u = vec![b'u'; USERNAME_SIZE];
    let e = vec![b'e'; EMAIL_SIZE];
    let row = Row::new(1, &u, &e).unwrap();
    let mut buf = vec![0u8; ROW_SIZE];
    row.serialize(&mut buf, 0);
    let back = Row::deserialize(&buf, 0);
    assert_eq!(back.username, u);
    assert_eq!(back.email, e);
}

#[test]
fn row_too_long_fields_are_refused() {
    let u = vec![b'u'; USERNAME_SIZE + 1];
    let e = vec![b'e'; EMAIL_SIZE + 1];
    assert_eq!(Row::new(1, &u, b"x").unwrap_err(), RowError::StringTooLong);
    assert_eq!(Row::new(1, b"x", &e).unwrap_err(), RowError::StringTooLong);
}

#[test]
fn row_display() {
    let row = Row::new(42, b"bob", b"bob@example.com").unwrap();
    assert_eq!(row.to_string(), "(42, bob, bob@example.com)");
    let row = Row::new(0, b"", b"").unwrap();
    assert_eq!(row.to_string(), "(0, , )");
    let row = Row::new(u32::MAX, &[0xff, 0xfe], "é".as_bytes()).unwrap();
    assert_eq!(row.to_string(), "(4294967295, , é)");
}

#[test]
fn open_derives_row_count_from_file_length() {
    assert_eq!(Table::db_open(0).num_rows(), 0);
    assert_eq!(Table::db_open(290).num_rows(), 0);
    assert_eq!(Table::db_open(3 * 291 + 100).num_rows(), 3);
    assert_eq!(Table::db_open(10_000_000).num_rows(), TABLE_MAX_ROWS);
}

#[test]
fn empty_scan_yields_nothing() {
    let mut table = Table::db_open(0);
    let cursor = table.table_start();
    assert!(cursor.end_of_table);
    assert!(scan(&mut table, &[]).is_empty());
}

#[test]
fn pager_loads_partial_pages() {
    let disk: Vec<u8> = (0..5000u32).map(|i| (i % 251) as u8 + 1).collect();
    let mut pager = Pager::open(disk.len() as u64);
    assert_eq!(pager.file_length(), 5000);
    assert!(!pager.is_loaded(1));
    let l = pager.get_page(1).unwrap_err();
    assert_eq!(l, PageLoad { page_num: 1, offset: 4096, len: 904 });
    assert_eq!(pager.load_request(0).len, PAGE_SIZE);
    assert_eq!(pager.load_request(2).len, 0);
    pager.load_page(1, &disk[4096..5000]);
    let page = pager.get_page(1).unwrap();
    assert_eq!(page.len(), PAGE_SIZE);
    assert_eq!(&page[..904], &disk[4096..5000]);
    assert!(page[904..].iter().all(|&b| b == 0));
}

#[test]
fn pager_flushes_page_prefix() {
    let mut pager = Pager::open(0);
    pager.load_page(3, &[]);
    let row = Row::new(9, b"n", b"m").unwrap();
    pager.write_row(3, 291, &row);
    let w = pager.flush_page(3, 2 * ROW_SIZE);
    assert_eq!(w.page_num, 3);
    assert_eq!(w.offset, 3 * 4096);
    assert_eq!(w.bytes.len(), 582);
    assert_eq!(&w.bytes[291..295], &[9, 0, 0, 0]);
    assert_eq!(pager.read_row(3, 291).id, 9);
}

#[test]
fn capacity_is_enforced() {
    let mut table = Table::db_open(0);
    for i in 0..TABLE_MAX_ROWS as u32 {
        let row = Row::new(i, b"u", b"e").unwrap();
        assert_eq!(append(&mut table, &[], &row), Ok(()));
    }
    assert_eq!(table.num_rows(), TABLE_MAX_ROWS);
    let row = Row::new(0, b"u", b"e").unwrap();
    assert_eq!(table.insert(&row), Err(ExecuteError::TableFull));
    assert_eq!(table.num_rows(), TABLE_MAX_ROWS);
    assert_eq!(ExecuteError::TableFull.message(), "Error: Table full.");
}

#[test]
fn insert_asks_for_missing_page() {
    let mut table = Table::db_open(0);
    let row = Row::new(1, b"u", b"e").unwrap();
    assert_eq!(
        table.insert(&row),
        Err(ExecuteError::PageMissing(PageLoad { page_num: 0, offset: 0, len: 0 }))
    );
    assert_eq!(table.num_rows(), 0);
}

#[test]
fn persistence_across_close_and_reopen() {
    let mut disk = Vec::new();
    let mut table = Table::db_open(0);
    let row = Row::new(1, b"user1", b"person1@example.com").unwrap();
    append(&mut table, &disk, &row).unwrap();
    close(&mut table, &mut disk);
    assert_eq!(disk.len(), ROW_SIZE);

    let mut table = Table::db_open(disk.len() as u64);
    let rows = scan(&mut table, &disk);
    assert_eq!(rows.len(), 1);
    assert_eq!(rows[0].id, 1);
    assert_eq!(text(&rows[0].username), b"user1");
    assert_eq!(text(&rows[0].email), b"person1@example.com");
}

#[test]
fn partial_last_page_is_truncated() {
    let mut disk = Vec::new();
    let mut table = Table::db_open(0);
    for i in 0..(ROWS_PER_PAGE + 1) as u32 {
        let row = Row::new(i, b"u", b"e").unwrap();
        append(&mut table, &disk, &row).unwrap();
    }
    let writes = table.db_close().unwrap();
    assert_eq!(writes.len(), 2);
    assert_eq!(writes[0].bytes.len(), PAGE_SIZE);
    assert_eq!(writes[1].offset, PAGE_SIZE as u64);
    assert_eq!(writes[1].bytes.len(), ROW_SIZE);
    close(&mut table, &mut disk);
    assert_eq!(disk.len(), PAGE_SIZE + ROW_SIZE);
}

#[test]
fn close_asks_for_unloaded_live_pages() {
    let mut disk = Vec::new();
    let mut table = Table::db_open(0);
    append(&mut table, &disk, &Row::new(5, b"a", b"b").unwrap()).unwrap();
    close(&mut table, &mut disk);
    let table = Table::db_open(disk.len() as u64);
    let l = table.db_close().unwrap_err();
    assert_eq!(l, PageLoad { page_num: 0, offset: 0, len: ROW_SIZE });
}

#[test]
fn cursor_value_and_advance() {
    let mut table = Table::db_open(0);
    append(&mut table, &[], &Row::new(3, b"a", b"b").unwrap()).unwrap();
    append(&mut table, &[], &Row::new(4, b"c", b"d").unwrap()).unwrap();
    let mut cursor = table.table_start();
    assert_eq!(cursor.value(&table).unwrap().id, 3);
    cursor.advance(&table);
    assert!(!cursor.end_of_table);
    assert_eq!(cursor.value(&table).unwrap().id, 4);
    cursor.advance(&table);
    assert!(cursor.end_of_table);
    assert!(table.table_end().end_of_table);
    assert_eq!(table.table_end().row_num, 2);
}

#[test]
fn parse_u32_cases() {
    assert_eq!(parse_u32(b"0"), Some(0));
    assert_eq!(parse_u32(b"+5"), Some(5));
    assert_eq!(parse_u32(b"007"), Some(7));
    assert_eq!(parse_u32(b"4294967295"), Some(u32::MAX));
    assert_eq!(parse_u32(b"4294967296"), None);
    assert_eq!(parse_u32(b"99999999999999999999"), None);
    assert_eq!(parse_u32(b""), None);
    assert_eq!(parse_u32(b"+"), None);
    assert_eq!(parse_u32(b"-1"), None);
    assert_eq!(parse_u32(b"12a"), None);
}

#[test]
fn prepare_statements() {
    assert!(matches!(Statement::prepare("select"), Ok(Statement::Select)));
    assert!(matches!(Statement::prepare("selectx"), Ok(Statement::Select)));
    match Statement::prepare("insert  12\tann   ann@example.com") {
        Ok(Statement::Insert(row)) => {
            assert_eq!(row.id, 12);
            assert_eq!(text(&row.username), b"ann");
            assert_eq!(text(&row.email), b"ann@example.com");
        }
        _ => panic!("expected an insert"),
    }
    assert_eq!(Statement::prepare("insert 1 a").unwrap_err(), PrepareError::SyntaxError);
    assert_eq!(Statement::prepare("insert x a b").unwrap_err(), PrepareError::InvalidId);
    assert_eq!(Statement::prepare("update").unwrap_err(), PrepareError::UnrecognizedStatement);
    let long = format!("insert 1 {} b", "a".repeat(USERNAME_SIZE + 1));
    assert_eq!(Statement::prepare(&long).unwrap_err(), PrepareError::StringTooLong);
    assert_eq!(PrepareError::StringTooLong.message(), "String is too long.");
    assert_eq!(PrepareError::InvalidId.message(), "ID must be positive.");
    assert_eq!(PrepareError::UnrecognizedStatement.message(), "Unrecognized statement.");
}

#[test]
fn meta_commands() {
    assert_eq!(MetaCommand::parse(".exit"), Some(MetaCommand::Exit));
    assert_eq!(MetaCommand::parse(".exitx"), Some(MetaCommand::Unrecognized));
    assert_eq!(MetaCommand::parse(".tables"), Some(MetaCommand::Unrecognized));
    assert_eq!(MetaCommand::parse("select"), None);
    assert!(matches!(InputType::parse(".exit"), InputType::Meta(MetaCommand::Exit)));
    assert!(matches!(InputType::parse("select"), InputType::Statement(Ok(Statement::Select))));
}

#[test]
fn pager_flush_all_plans_live_pages() {
    let mut pager = Pager::open(0);
    assert_eq!(pager.flush_all(0).unwrap().len(), 0);
    assert_eq!(pager.flush_all(1).unwrap_err(), PageLoad { page_num: 0, offset: 0, len: 0 });
    pager.load_page(0, &[]);
    let writes = pager.flush_all(3).unwrap();
    assert_eq!(writes.len(), 1);
    assert_eq!(writes[0].bytes.len(), 3 * ROW_SIZE);
    let writes = pager.flush_all(ROWS_PER_PAGE).unwrap();
    assert_eq!(writes.len(), 1);
    assert_eq!(writes[0].bytes.len(), PAGE_SIZE);
    assert_eq!(pager.flush_all(ROWS_PER_PAGE + 1).unwrap_err().page_num, 1);
}
