use vstd::bytes::lemma_auto_spec_u32_to_from_le_bytes;
use vstd::prelude::*;

use crate::layout::{lemma_layout_constants, PAGE_SIZE, ROWS_PER_PAGE, ROW_SIZE, TABLE_MAX_PAGES, TABLE_MAX_ROWS};
use crate::row::{decode_email, decode_id, decode_username, Row};

verus! {

/// A read that the pager needs done before it can hand out a page: the
/// `len` bytes of the file that start at `offset`.
#[derive(Clone, Copy, Debug, PartialEq, Eq, Structural)]
pub struct PageLoad {
    pub page_num: usize,
    pub offset: u64,
    pub len: usize,
}

/// A write that persists a page: `bytes` go to the file at `offset`.
#[derive(Debug)]
pub struct PageWrite {
    pub page_num: usize,
    pub offset: u64,
    pub bytes: Vec<u8>,
}

/// How many bytes of page `n` a file of `file_length` bytes holds.
pub open spec fn disk_bytes(file_length: int, n: int) -> int {
    if n * PAGE_SIZE < file_length {
        if file_length - n * PAGE_SIZE < PAGE_SIZE {
            file_length - n * PAGE_SIZE
        } else {
            PAGE_SIZE as int
        }
    } else {
        0
    }
}

/// The read that loads page `n` from a file of `file_length` bytes.
pub open spec fn load_of(file_length: int, n: int) -> PageLoad {
    PageLoad { page_num: n as usize, offset: (n * PAGE_SIZE) as u64, len: disk_bytes(file_length, n) as usize }
}

/// A page as it stands after loading `disk` from the file: those bytes, then zeros.
pub open spec fn loaded_page(disk: Seq<u8>) -> Seq<u8> {
    disk + Seq::new((PAGE_SIZE - disk.len()) as nat, |i: int| 0u8)
}

/// The pages that hold `n` rows: the full ones and a partial last one.
pub open spec fn live_pages(n: int) -> int {
    n / (ROWS_PER_PAGE as int) + if n % (ROWS_PER_PAGE as int) > 0 {
        1int
    } else {
        0int
    }
}

/// The bytes of page `i` that are written back when the table holds `n`
/// rows: the whole page where it is full, else only its rows.
pub open spec fn flush_size(n: int, i: int) -> int {
    if i < n / (ROWS_PER_PAGE as int) {
        PAGE_SIZE as int
    } else {
        (n % (ROWS_PER_PAGE as int)) * (ROW_SIZE as int)
    }
}

/// Where the file ends once the pages of `n` rows (`n > 0`) are written to an
/// empty file.
pub open spec fn written_end(n: int) -> int {
    (live_pages(n) - 1) * PAGE_SIZE + flush_size(n, live_pages(n) - 1)
}

proof fn lemma_live_pages_bound(n: int)
    requires
        0 <= n <= TABLE_MAX_ROWS,
    ensures
        0 <= live_pages(n) <= TABLE_MAX_PAGES,
        forall|i: int| 0 <= i < live_pages(n) ==> 0 <= #[trigger] flush_size(n, i) <= PAGE_SIZE,
{
    assert(0 <= n % 14 < 14);
    assert((n % 14) * 291 <= 13 * 291) by (nonlinear_arith)
        requires
            0 <= n % 14 < 14,
    ;
}

/// The page cache: one slot per page a table may hold, each empty until the
/// page is loaded, and resident from then on.
pub struct Pager {
    file_length: u64,
    pages: Vec<Option<Vec<u8>>>,
}

impl Pager {
    /// The length of the file when it was opened.
    pub closed spec fn file_len(&self) -> u64 {
        self.file_length
    }

    /// Page `i`: its bytes where it is resident, `None` where it is not.
    pub closed spec fn page(&self, i: int) -> Option<Seq<u8>> {
        match self.pages@[i] {
            Some(p) => Some(p@),
            None => None,
        }
    }

    /// The number of page slots.
    pub closed spec fn slots(&self) -> nat {
        self.pages@.len()
    }

    /// One slot per page a table may hold, and each resident page a full page.
    pub open spec fn wf(&self) -> bool {
        &&& self.slots() == TABLE_MAX_PAGES
        &&& forall|i: int|
            0 <= i < TABLE_MAX_PAGES ==> (#[trigger] self.page(i) matches Some(p) ==> p.len()
                == PAGE_SIZE)
    }

    /// A pager over a file of `file_length` bytes, with no page resident.
    pub fn open(file_length: u64) -> (r: Pager)
        ensures
            r.wf(),
            r.file_len() == file_length,
            forall|i: int| 0 <= i < TABLE_MAX_PAGES ==> #[trigger] r.page(i) is None,
    {
        let mut pages: Vec<Option<Vec<u8>>> = Vec::with_capacity(TABLE_MAX_PAGES);
        let mut i: usize = 0;
        while i < TABLE_MAX_PAGES
            invariant
                i <= TABLE_MAX_PAGES,
                pages@.len() == i,
                forall|j: int| 0 <= j < i ==> pages@[j] is None,
            decreases TABLE_MAX_PAGES - i,
        {
            pages.push(None);
            i = i + 1;
        }
        Pager { file_length, pages }
    }

    /// The length of the file when it was opened.
    pub fn file_length(&self) -> (r: u64)
        ensures
            r == self.file_len(),
    {
        self.file_length
    }

    /// Whether page `page_num` is resident.
    pub fn is_loaded(&self, page_num: usize) -> (r: bool)
        requires
            self.wf(),
            page_num < TABLE_MAX_PAGES,
        ensures
            r == self.page(page_num as int) is Some,
    {
        self.pages[page_num].is_some()
    }

    /// The read that loads page `page_num`: at the page's offset, as many
    /// bytes of it as the file held when it was opened.
    pub fn load_request(&self, page_num: usize) -> (r: PageLoad)
        requires
            page_num < TABLE_MAX_PAGES,
        ensures
            r == load_of(self.file_len() as int, page_num as int),
    {
        let offset: u64 = page_num as u64 * PAGE_SIZE as u64;
        let len: usize = if offset < self.file_length {
            if self.file_length - offset < PAGE_SIZE as u64 {
                (self.file_length - offset) as usize
            } else {
                PAGE_SIZE
            }
        } else {
            0
        };
        PageLoad { page_num, offset, len }
    }

    /// Page `page_num` where it is resident; else the read that loads it.
    pub fn get_page(&self, page_num: usize) -> (r: Result<&Vec<u8>, PageLoad>)
        requires
            self.wf(),
            page_num < TABLE_MAX_PAGES,
        ensures
            r is Ok <==> self.page(page_num as int) is Some,
            r matches Ok(p) ==> Some(p@) == self.page(page_num as int),
            r matches Err(l) ==> l == load_of(self.file_len() as int, page_num as int),
    {
        match &self.pages[page_num] {
            Some(p) => Ok(p),
            None => Err(self.load_request(page_num)),
        }
    }

    /// Makes page `page_num` resident from the bytes `disk` that its load
    /// request read; the rest of the page is zero.
    pub fn load_page(&mut self, page_num: usize, disk: &[u8])
        requires
            old(self).wf(),
            page_num < TABLE_MAX_PAGES,
            old(self).page(page_num as int) is None,
            disk@.len() == disk_bytes(old(self).file_len() as int, page_num as int),
        ensures
            final(self).wf(),
            final(self).file_len() == old(self).file_len(),
            final(self).page(page_num as int) == Some(loaded_page(disk@)),
            forall|i: int|
                0 <= i < TABLE_MAX_PAGES && i != page_num ==> #[trigger] final(self).page(i)
                    == old(self).page(i),
    {
        let mut page: Vec<u8> = Vec::with_capacity(PAGE_SIZE);
        let mut i: usize = 0;
        while i < PAGE_SIZE
            invariant
                i <= PAGE_SIZE,
                disk@.len() <= PAGE_SIZE,
                page@.len() == i,
                forall|j: int| 0 <= j < i ==> page@[j] == loaded_page(disk@)[j],
            decreases PAGE_SIZE - i,
        {
            if i < disk.len() {
                page.push(disk[i]);
            } else {
                page.push(0u8);
            }
            i = i + 1;
        }
        assert(page@ =~= loaded_page(disk@));
        let ghost before = *self;
        self.pages.set(page_num, Some(page));
        assert forall|i: int| 0 <= i < TABLE_MAX_PAGES && i != page_num implies #[trigger] self.page(i) == before.page(i) by {
            assert(self.pages@[i] == before.pages@[i]);
        }
    }

    /// Writes `row` into resident page `page_num` at byte `offset`.
    pub fn write_row(&mut self, page_num: usize, offset: usize, row: &Row)
        requires
            old(self).wf(),
            row.wf(),
            page_num < TABLE_MAX_PAGES,
            old(self).page(page_num as int) is Some,
            offset + ROW_SIZE <= PAGE_SIZE,
        ensures
            final(self).wf(),
            final(self).file_len() == old(self).file_len(),
            final(self).page(page_num as int) == Some(
                old(self).page(page_num as int).unwrap().subrange(0, offset as int) + row.bytes()
                    + old(self).page(page_num as int).unwrap().subrange(
                    offset + ROW_SIZE,
                    PAGE_SIZE as int,
                ),
            ),
            forall|i: int|
                0 <= i < TABLE_MAX_PAGES && i != page_num ==> #[trigger] final(self).page(i)
                    == old(self).page(i),
    {
        let ghost before = *self;
        let mut slot: Option<Vec<u8>> = None;
        std::mem::swap(&mut self.pages[page_num], &mut slot);
        match slot {
            Some(mut page) => {
                row.serialize(&mut page, offset);
                proof { lemma_auto_spec_u32_to_from_le_bytes(); }
                assert(page@.len() == PAGE_SIZE);
                self.pages.set(page_num, Some(page));
                assert(self.page(page_num as int) == Some(page@));
                assert forall|i: int| 0 <= i < TABLE_MAX_PAGES && i != page_num implies #[trigger] self.page(i) == before.page(i) by {
                    assert(self.pages@[i] == before.pages@[i]);
                }
            },
            None => {},
        }
    }

    /// The row stored in resident page `page_num` at byte `offset`.
    pub fn read_row(&self, page_num: usize, offset: usize) -> (r: Row)
        requires
            self.wf(),
            page_num < TABLE_MAX_PAGES,
            self.page(page_num as int) is Some,
            offset + ROW_SIZE <= PAGE_SIZE,
        ensures
            r.wf(),
            ({
                let b = self.page(page_num as int).unwrap().subrange(offset as int, offset + ROW_SIZE);
                &&& r.id == decode_id(b)
                &&& r.username@ == decode_username(b)
                &&& r.email@ == decode_email(b)
            }),
    {
        match &self.pages[page_num] {
            Some(page) => Row::deserialize(page.as_slice(), offset),
            None => Row { id: 0, username: Vec::new(), email: Vec::new() },
        }
    }

    /// The write that persists the first `size` bytes of resident page
    /// `page_num` at the page's offset in the file.
    pub fn flush_page(&self, page_num: usize, size: usize) -> (r: PageWrite)
        requires
            self.wf(),
            page_num < TABLE_MAX_PAGES,
            self.page(page_num as int) is Some,
            size <= PAGE_SIZE,
        ensures
            r.page_num == page_num,
            r.offset == page_num * PAGE_SIZE,
            r.bytes@ == self.page(page_num as int).unwrap().take(size as int),
    {
        let mut bytes: Vec<u8> = Vec::with_capacity(size);
        match &self.pages[page_num] {
            Some(page) => {
                let mut i: usize = 0;
                while i < size
                    invariant
                        i <= size,
                        size <= page@.len(),
                        bytes@ == page@.take(i as int),
                    decreases size - i,
                {
                    bytes.push(page[i]);
                    i = i + 1;
                    assert(bytes@ =~= page@.take(i as int));
                }
            },
            None => {},
        }
        PageWrite { page_num, offset: page_num as u64 * PAGE_SIZE as u64, bytes }
    }

    /// The writes that persist `num_rows` rows: each full page whole, then
    /// the rows of a partial last page; no page beyond the rows. Where one of
    /// those pages is not resident, the read that loads the first such page.
    pub fn flush_all(&self, num_rows: usize) -> (r: Result<Vec<PageWrite>, PageLoad>)
        requires
            self.wf(),
            num_rows <= TABLE_MAX_ROWS,
        ensures
            r is Ok <==> forall|i: int|
                0 <= i < live_pages(num_rows as int) ==> #[trigger] self.page(i) is Some,
            r matches Ok(w) ==> {
                &&& w@.len() == live_pages(num_rows as int)
                &&& forall|i: int|
                    0 <= i < w@.len() ==> {
                        &&& (#[trigger] w@[i]).page_num == i
                        &&& w@[i].offset == i * PAGE_SIZE
                        &&& w@[i].bytes@ == self.page(i).unwrap().take(
                            flush_size(num_rows as int, i),
                        )
                    }
            },
            r matches Err(l) ==> exists|i: int|
                0 <= i < live_pages(num_rows as int) && #[trigger] self.page(i) is None
                    && l == load_of(self.file_len() as int, i) && forall|j: int|
                    0 <= j < i ==> #[trigger] self.page(j) is Some,
    {
        proof { lemma_layout_constants(); }
        let n = num_rows;
        let full = n / ROWS_PER_PAGE;
        let rem = n % ROWS_PER_PAGE;
        let live: usize = if rem > 0 {
            full + 1
        } else {
            full
        };
        proof { lemma_live_pages_bound(n as int); }
        let mut writes: Vec<PageWrite> = Vec::new();
        let mut i: usize = 0;
        while i < live
            invariant
                self.wf(),
                n == num_rows,
                full == (n as int) / (ROWS_PER_PAGE as int),
                rem == (n as int) % (ROWS_PER_PAGE as int),
                live == live_pages(n as int),
                live <= TABLE_MAX_PAGES,
                forall|k: int| 0 <= k < live ==> 0 <= #[trigger] flush_size(n as int, k) <= PAGE_SIZE,
                i <= live,
                writes@.len() == i,
                forall|j: int| 0 <= j < i ==> #[trigger] self.page(j) is Some,
                forall|j: int|
                    0 <= j < i ==> {
                        &&& (#[trigger] writes@[j]).page_num == j
                        &&& writes@[j].offset == j * PAGE_SIZE
                        &&& writes@[j].bytes@ == self.page(j).unwrap().take(
                            flush_size(n as int, j),
                        )
                    },
            decreases live - i,
        {
            if !self.is_loaded(i) {
                return Err(self.load_request(i));
            }
            let size: usize = if i < full {
                PAGE_SIZE
            } else {
                rem * ROW_SIZE
            };
            assert(size == flush_size(n as int, i as int));
            let w = self.flush_page(i, size);
            writes.push(w);
            i = i + 1;
        }
        Ok(writes)
    }
}

} // verus!
