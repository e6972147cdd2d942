//! Figures of the process table that are computed from `/proc` readings.
use vstd::prelude::*;
use crate::text::{join_texts, joined, texts};

verus! {

/// Resident memory in KiB from a page count and the page size in bytes.
pub fn rss_kilobytes(rss_pages: u64, page_size: u64) -> (res: u64)
    requires
        rss_pages * page_size <= u64::MAX,
    ensures
        res == rss_pages * page_size / 1024,
{
    rss_pages * page_size / 1024
}

/// A process's command line: its arguments joined by single spaces.
pub fn command_line(args: &Vec<String>) -> (res: String)
    ensures
        res@ == joined(texts(args@), seq![' ']),
{
    let res = join_texts(args, " ");
    proof {
        reveal_strlit(" ");
        assert(" "@ =~= seq![' ']);
    }
    res
}

} // verus!
