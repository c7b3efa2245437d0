use vstd::bytes::lemma_auto_spec_u32_to_from_le_bytes;
use vstd::prelude::*;

use crate::layout::{
    lemma_layout_constants, lemma_row_slot_in_bounds, offset_of_row, page_of_row, PAGE_SIZE, ROWS_PER_PAGE, ROW_SIZE,
    TABLE_MAX_PAGES, TABLE_MAX_ROWS,
};
use crate::pager::{
    disk_bytes, flush_size, live_pages, load_of, loaded_page, written_end, PageLoad, PageWrite,
    Pager,
};
use crate::row::{decode_email, decode_id, decode_username, lemma_decode_encode, Row};

verus! {

/// Why a row was not appended.
#[derive(Clone, Copy, Debug, PartialEq, Eq, Structural)]
pub enum ExecuteError {
    /// The table holds as many rows as it can.
    TableFull,
    /// The page that the row goes into is not resident: load it, then retry.
    PageMissing(PageLoad),
}

impl ExecuteError {
    /// The text shown for the error.
    pub open spec fn spec_message(&self) -> Seq<char> {
        match self {
            ExecuteError::TableFull => "Error: Table full."@,
            ExecuteError::PageMissing(_) => "Error: Page not loaded."@,
        }
    }

    /// The text shown for the error.
    pub fn message(&self) -> (r: String)
        ensures
            r@ == self.spec_message(),
    {
        match self {
            ExecuteError::TableFull => "Error: Table full.".to_owned(),
            ExecuteError::PageMissing(_) => "Error: Page not loaded.".to_owned(),
        }
    }
}

/// The rows of one file, over the pager that caches its pages.
pub struct Table {
    pub num_rows: usize,
    pub pager: Pager,
}

/// A position in a table's scan.
#[derive(Clone, Copy, Debug, PartialEq, Eq, Structural)]
pub struct Cursor {
    pub row_num: usize,
    pub end_of_table: bool,
}

/// The rows that a file of `file_length` bytes holds: its whole rows, up
/// to the table's capacity.
pub open spec fn rows_in_file(file_length: int) -> int {
    if file_length / (ROW_SIZE as int) < TABLE_MAX_ROWS {
        file_length / (ROW_SIZE as int)
    } else {
        TABLE_MAX_ROWS as int
    }
}

impl Table {
    /// The row count is within the capacity, and the pager well formed.
    pub open spec fn wf(&self) -> bool {
        &&& self.pager.wf()
        &&& self.num_rows <= TABLE_MAX_ROWS
    }

    /// The bytes of row `n`, where its page is resident.
    pub open spec fn row_bytes(&self, n: int) -> Seq<u8> {
        self.pager.page(page_of_row(n)).unwrap().subrange(
            offset_of_row(n),
            offset_of_row(n) + ROW_SIZE,
        )
    }

    /// The table of a file of `file_length` bytes: as many rows as whole rows
    /// fit in it, up to the capacity; no page resident yet.
    pub fn db_open(file_length: u64) -> (r: Table)
        ensures
            r.wf(),
            r.num_rows == rows_in_file(file_length as int),
            r.pager.file_len() == file_length,
            forall|i: int| 0 <= i < TABLE_MAX_PAGES ==> #[trigger] r.pager.page(i) is None,
    {
        let pager = Pager::open(file_length);
        let whole = file_length / ROW_SIZE as u64;
        let num_rows: usize = if whole < TABLE_MAX_ROWS as u64 {
            whole as usize
        } else {
            TABLE_MAX_ROWS
        };
        Table { num_rows, pager }
    }

    /// The number of rows.
    pub fn num_rows(&self) -> (r: usize)
        ensures
            r == self.num_rows,
    {
        self.num_rows
    }

    /// The page and the in-page byte offset of row `row_num`.
    pub fn row_slot(row_num: usize) -> (r: (usize, usize))
        requires
            row_num < TABLE_MAX_ROWS,
        ensures
            r.0 == page_of_row(row_num as int),
            r.1 == offset_of_row(row_num as int),
            r.0 < TABLE_MAX_PAGES,
            r.1 + ROW_SIZE <= PAGE_SIZE,
    {
        proof { lemma_row_slot_in_bounds(row_num as int); }
        (row_num / ROWS_PER_PAGE, (row_num % ROWS_PER_PAGE) * ROW_SIZE)
    }

    /// Appends `row` after the last row. A full table refuses it; where the
    /// page it goes into is not resident, the table asks for that page and is
    /// left as it was.
    pub fn insert(&mut self, row: &Row) -> (r: Result<(), ExecuteError>)
        requires
            old(self).wf(),
            row.wf(),
        ensures
            final(self).wf(),
            old(self).num_rows >= TABLE_MAX_ROWS ==> r == Err::<(), ExecuteError>(
                ExecuteError::TableFull,
            ),
            old(self).num_rows < TABLE_MAX_ROWS && old(self).pager.page(
                page_of_row(old(self).num_rows as int),
            ) is None ==> r == Err::<(), ExecuteError>(
                ExecuteError::PageMissing(
                    load_of(
                        old(self).pager.file_len() as int,
                        page_of_row(old(self).num_rows as int),
                    ),
                ),
            ),
            r is Err ==> *final(self) == *old(self),
            r is Ok <==> old(self).num_rows < TABLE_MAX_ROWS && old(self).pager.page(
                page_of_row(old(self).num_rows as int),
            ) is Some,
            r is Ok ==> {
                let n = old(self).num_rows as int;
                let p = page_of_row(n);
                let old_page = old(self).pager.page(p).unwrap();
                &&& final(self).num_rows == n + 1
                &&& final(self).pager.file_len() == old(self).pager.file_len()
                &&& final(self).pager.page(p) == Some(
                    old_page.subrange(0, offset_of_row(n)) + row.bytes() + old_page.subrange(
                        offset_of_row(n) + ROW_SIZE,
                        PAGE_SIZE as int,
                    ),
                )
                &&& forall|i: int|
                    0 <= i < TABLE_MAX_PAGES && i != p ==> #[trigger] final(self).pager.page(i)
                        == old(self).pager.page(i)
            },
    {
        if self.num_rows >= TABLE_MAX_ROWS {
            return Err(ExecuteError::TableFull);
        }
        let cursor = self.table_end();
        let (page_num, offset) = Table::row_slot(cursor.row_num);
        if !self.pager.is_loaded(page_num) {
            return Err(ExecuteError::PageMissing(self.pager.load_request(page_num)));
        }
        self.pager.write_row(page_num, offset, row);
        self.num_rows = self.num_rows + 1;
        Ok(())
    }

    /// A cursor at the first row; at the end already where there is none.
    pub fn table_start(&self) -> (r: Cursor)
        ensures
            r.row_num == 0,
            r.end_of_table == (self.num_rows == 0),
    {
        Cursor { row_num: 0, end_of_table: self.num_rows == 0 }
    }

    /// A cursor past the last row, where the next row goes.
    pub fn table_end(&self) -> (r: Cursor)
        ensures
            r.row_num == self.num_rows,
            r.end_of_table,
    {
        Cursor { row_num: self.num_rows, end_of_table: true }
    }

    /// The writes that persist the table: each full page whole, then the rows
    /// of a partial last page; no page beyond the rows. Where one of those
    /// pages is not resident, the read that loads the first such page.
    pub fn db_close(&self) -> (r: Result<Vec<PageWrite>, PageLoad>)
        requires
            self.wf(),
        ensures
            r is Ok <==> forall|i: int|
                0 <= i < live_pages(self.num_rows as int) ==> #[trigger] self.pager.page(i) is Some,
            r matches Ok(w) ==> {
                &&& w@.len() == live_pages(self.num_rows as int)
                &&& forall|i: int|
                    0 <= i < w@.len() ==> {
                        &&& (#[trigger] w@[i]).page_num == i
                        &&& w@[i].offset == i * PAGE_SIZE
                        &&& w@[i].bytes@ == self.pager.page(i).unwrap().take(
                            flush_size(self.num_rows as int, i),
                        )
                    }
            },
            r matches Err(l) ==> exists|i: int|
                0 <= i < live_pages(self.num_rows as int) && #[trigger] self.pager.page(i) is None
                    && l == load_of(self.pager.file_len() as int, i) && forall|j: int|
                    0 <= j < i ==> #[trigger] self.pager.page(j) is Some,
    {
        self.pager.flush_all(self.num_rows)
    }
}

impl Cursor {
    /// The cursor stands on a row of `table`, or at its end.
    pub open spec fn valid_for(&self, table: &Table) -> bool {
        self.end_of_table || self.row_num < table.num_rows
    }

    /// The row under the cursor, where its page is resident; else the read
    /// that loads that page.
    pub fn value(&self, table: &Table) -> (r: Result<Row, PageLoad>)
        requires
            table.wf(),
            self.row_num < table.num_rows,
        ensures
            r is Ok <==> table.pager.page(page_of_row(self.row_num as int)) is Some,
            r matches Ok(row) ==> {
                &&& row.wf()
                &&& row.id == decode_id(table.row_bytes(self.row_num as int))
                &&& row.username@ == decode_username(table.row_bytes(self.row_num as int))
                &&& row.email@ == decode_email(table.row_bytes(self.row_num as int))
            },
            r matches Err(l) ==> l == load_of(
                table.pager.file_len() as int,
                page_of_row(self.row_num as int),
            ),
    {
        let (page_num, offset) = Table::row_slot(self.row_num);
        if !table.pager.is_loaded(page_num) {
            return Err(table.pager.load_request(page_num));
        }
        Ok(table.pager.read_row(page_num, offset))
    }

    /// Moves to the next row; at the end once past the last row.
    pub fn advance(&mut self, table: &Table)
        requires
            old(self).row_num < table.num_rows,
        ensures
            final(self).row_num == old(self).row_num + 1,
            final(self).end_of_table == (old(self).end_of_table || final(self).row_num
                >= table.num_rows),
    {
        self.row_num = self.row_num + 1;
        if self.row_num >= table.num_rows {
            self.end_of_table = true;
        }
    }

    /// The next row of the scan, and the cursor moved past it; `None` at the
    /// end. Where the row's page is not resident, the read that loads it, and
    /// the cursor stays.
    pub fn next(&mut self, table: &Table) -> (r: Result<Option<Row>, PageLoad>)
        requires
            table.wf(),
            old(self).valid_for(table),
        ensures
            final(self).valid_for(table),
            old(self).end_of_table ==> (r matches Ok(None)) && *final(self) == *old(self),
            !old(self).end_of_table ==> {
                let n = old(self).row_num as int;
                &&& (r is Err <==> table.pager.page(page_of_row(n)) is None)
                &&& (r matches Err(l) ==> l == load_of(table.pager.file_len() as int, page_of_row(n))
                    && *final(self) == *old(self))
                &&& (r matches Ok(o) ==> {
                    &&& o is Some
                    &&& o.unwrap().wf()
                    &&& o.unwrap().id == decode_id(table.row_bytes(n))
                    &&& o.unwrap().username@ == decode_username(table.row_bytes(n))
                    &&& o.unwrap().email@ == decode_email(table.row_bytes(n))
                    &&& final(self).row_num == n + 1
                    &&& final(self).end_of_table == (n + 1 >= table.num_rows)
                })
            },
    {
        if self.end_of_table {
            return Ok(None);
        }
        match self.value(table) {
            Ok(row) => {
                self.advance(table);
                Ok(Some(row))
            },
            Err(l) => Err(l),
        }
    }
}

/// A row appended to an empty table survives closing and reopening: the
/// close writes exactly the row's bytes at the start of the file, the
/// reopened table counts one row, and loading its page gives back the row's
/// id and fields.
pub proof fn lemma_one_row_persists(page: Seq<u8>, row: Row)
    requires
        row.wf(),
        page.len() == PAGE_SIZE,
    ensures
        ({
            let after_insert = page.subrange(0, offset_of_row(0)) + row.bytes() + page.subrange(
                offset_of_row(0) + ROW_SIZE,
                PAGE_SIZE as int,
            );
            let written = after_insert.take(flush_size(1, 0));
            let reloaded = loaded_page(written);
            let b = reloaded.subrange(offset_of_row(0), offset_of_row(0) + ROW_SIZE);
            &&& live_pages(1) == 1
            &&& written == row.bytes()
            &&& rows_in_file(written.len() as int) == 1
            &&& disk_bytes(written.len() as int, page_of_row(0)) == written.len()
            &&& page_of_row(0) == 0
            &&& decode_id(b) == row.id
            &&& decode_username(b) == row.username@
            &&& decode_email(b) == row.email@
        }),
{
    lemma_layout_constants();
    lemma_auto_spec_u32_to_from_le_bytes();
    lemma_decode_encode(row);
    let after_insert = page.subrange(0, offset_of_row(0)) + row.bytes() + page.subrange(
        offset_of_row(0) + ROW_SIZE,
        PAGE_SIZE as int,
    );
    assert(offset_of_row(0) == 0);
    assert(flush_size(1, 0) == ROW_SIZE);
    let written = after_insert.take(flush_size(1, 0));
    assert(written =~= row.bytes());
    let reloaded = loaded_page(written);
    assert(reloaded.subrange(0, ROW_SIZE as int) =~= written);
}

/// Closing a table of one full page and one more row writes exactly two
/// pages: the first whole, the second only up to its one row, so the file
/// ends one row past the first page.
pub proof fn lemma_partial_last_page()
    ensures
        live_pages(ROWS_PER_PAGE + 1) == 2,
        flush_size(ROWS_PER_PAGE + 1, 0) == PAGE_SIZE,
        flush_size(ROWS_PER_PAGE + 1, 1) == ROW_SIZE,
        written_end(ROWS_PER_PAGE + 1) == PAGE_SIZE + ROW_SIZE,
{
    lemma_layout_constants();
    assert(15int / 14int == 1);
    assert(15int % 14int == 1);
}

} // verus!
