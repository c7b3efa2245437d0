use vstd::prelude::*;

verus! {

/// Bytes of the username field.
pub const COLUMN_USERNAME_SIZE: usize = 32;

/// Bytes of the email field.
pub const COLUMN_EMAIL_SIZE: usize = 255;

/// Bytes of the little-endian id.
pub const ID_SIZE: usize = 4;

pub const USERNAME_SIZE: usize = COLUMN_USERNAME_SIZE;

pub const EMAIL_SIZE: usize = COLUMN_EMAIL_SIZE;

pub const ID_OFFSET: usize = 0;

pub const USERNAME_OFFSET: usize = ID_OFFSET + ID_SIZE;

pub const EMAIL_OFFSET: usize = USERNAME_OFFSET + USERNAME_SIZE;

/// Bytes of one serialized row.
pub const ROW_SIZE: usize = ID_SIZE + USERNAME_SIZE + EMAIL_SIZE;

/// Bytes of one page.
pub const PAGE_SIZE: usize = 4096;

/// Pages a table may hold.
pub const TABLE_MAX_PAGES: usize = 100;

/// Whole rows that fit in one page.
pub const ROWS_PER_PAGE: usize = PAGE_SIZE / ROW_SIZE;

/// Rows a table may hold.
pub const TABLE_MAX_ROWS: usize = ROWS_PER_PAGE * TABLE_MAX_PAGES;

/// The page that holds row `n`.
pub open spec fn page_of_row(n: int) -> int {
    n / (ROWS_PER_PAGE as int)
}

/// The byte offset of row `n` inside its page.
pub open spec fn offset_of_row(n: int) -> int {
    (n % (ROWS_PER_PAGE as int)) * (ROW_SIZE as int)
}

/// The layout's derived constants, spelled out.
pub proof fn lemma_layout_constants()
    ensures
        ROW_SIZE == 291,
        ROWS_PER_PAGE == 14,
        TABLE_MAX_ROWS == 1400,
        USERNAME_OFFSET == 4,
        EMAIL_OFFSET == 36,
{
}

/// Every row index below the capacity lands inside a page that a table may
/// hold, and its whole row fits inside that page.
pub proof fn lemma_row_slot_in_bounds(n: int)
    requires
        0 <= n < TABLE_MAX_ROWS,
    ensures
        0 <= page_of_row(n) < TABLE_MAX_PAGES,
        0 <= offset_of_row(n),
        offset_of_row(n) + ROW_SIZE <= PAGE_SIZE,
{
    lemma_layout_constants();
    assert(0 <= n % 14 < 14);
    assert((n % 14) * 291 <= 13 * 291) by (nonlinear_arith)
        requires
            0 <= n % 14 < 14,
    ;
}

} // verus!
