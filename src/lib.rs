//! A single-table record store: fixed-width rows packed into fixed-size
//! pages, cached in memory and loaded from / written back to a backing file.
//!
//! The library holds every decision of the storage engine. The file itself is
//! read and written by the caller, who performs the page loads and page
//! writes that the pager and the table ask for.
pub mod layout;
pub mod pager;
pub mod row;
pub mod statement;
pub mod table;
