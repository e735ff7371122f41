//! Cursors and pages over a list that is kept newest first.

use vstd::prelude::*;
use vstd::string::StringExecFns;
use crate::decimal::{decimal_chars, digit_char};

verus! {

/// The page size of a request that names none.
pub const DEFAULT_PAGE_SIZE: usize = 20;

/// The paging part of a query: an absolute offset into the list and the
/// wanted number of items, both optional.
#[derive(Clone, Copy, Debug, PartialEq, Eq, Structural)]
pub struct PaginationParams {
    cursor: Option<usize>,
    page_size: Option<usize>,
}

impl PaginationParams {
    pub closed spec fn spec_cursor(&self) -> Option<usize> {
        self.cursor
    }

    pub closed spec fn spec_page_size(&self) -> usize {
        match self.page_size {
            Some(n) => n,
            None => DEFAULT_PAGE_SIZE,
        }
    }

    pub fn new(cursor: Option<usize>, page_size: Option<usize>) -> (params: Self)
        ensures
            params.spec_cursor() == cursor,
            params.spec_page_size() == match page_size {
                Some(n) => n,
                None => DEFAULT_PAGE_SIZE,
            },
    {
        PaginationParams { cursor, page_size }
    }

    /// The offset at which the page starts, if the request names one.
    #[verifier::when_used_as_spec(spec_cursor)]
    pub fn cursor(&self) -> (cursor: Option<usize>)
        ensures
            cursor == self.spec_cursor(),
    {
        self.cursor
    }

    /// The wanted number of items, `DEFAULT_PAGE_SIZE` if the request
    /// names none.
    #[verifier::when_used_as_spec(spec_page_size)]
    pub fn page_size(&self) -> (size: usize)
        ensures
            size == self.spec_page_size(),
    {
        match self.page_size {
            Some(n) => n,
            None => DEFAULT_PAGE_SIZE,
        }
    }
}

/// Where a page starts: at the cursor, or at the head of the list.
pub open spec fn page_start(cursor: Option<usize>) -> int {
    match cursor {
        Some(c) => c as int,
        None => 0,
    }
}

/// Where a page ends in a list of `len` items: `page_size` items after
/// its start, or at the end of the list if that comes first. A page that
/// starts at or behind the end is empty.
pub open spec fn page_end(len: int, cursor: Option<usize>, page_size: int) -> int {
    let start = page_start(cursor);
    if start >= len {
        start
    } else if start + page_size < len {
        start + page_size
    } else {
        len
    }
}

/// Whether items are left behind the page.
pub open spec fn page_has_more(len: int, cursor: Option<usize>, page_size: int) -> bool {
    page_start(cursor) < len && page_end(len, cursor, page_size) < len
}

/// The two ends of the page, computed without overflow. A page that
/// starts at or behind the end of the list comes back as an empty range
/// at the end of the list.
pub fn page_bounds(len: usize, cursor: Option<usize>, page_size: usize) -> (bounds: (usize, usize))
    ensures
        page_start(cursor) < len ==> bounds.0 == page_start(cursor) && bounds.1 == page_end(
            len as int,
            cursor,
            page_size as int,
        ),
        page_start(cursor) >= len ==> bounds.0 == len && bounds.1 == len,
        bounds.0 <= bounds.1 <= len,
{
    let start = match cursor {
        Some(c) => c,
        None => 0,
    };
    if start >= len {
        (len, len)
    } else if page_size < len - start {
        (start, start + page_size)
    } else {
        (start, len)
    }
}

fn digit_text(d: usize) -> (text: &'static str)
    requires
        d < 10,
    ensures
        text@ == seq![digit_char(d as nat)],
{
    proof {
        reveal_strlit("0");
        reveal_strlit("1");
        reveal_strlit("2");
        reveal_strlit("3");
        reveal_strlit("4");
        reveal_strlit("5");
        reveal_strlit("6");
        reveal_strlit("7");
        reveal_strlit("8");
        reveal_strlit("9");
    }
    let text = if d == 0 {
        "0"
    } else if d == 1 {
        "1"
    } else if d == 2 {
        "2"
    } else if d == 3 {
        "3"
    } else if d == 4 {
        "4"
    } else if d == 5 {
        "5"
    } else if d == 6 {
        "6"
    } else if d == 7 {
        "7"
    } else if d == 8 {
        "8"
    } else {
        "9"
    };
    assert(text@ =~= seq![digit_char(d as nat)]);
    text
}

/// Writes a cursor as text, in decimal.
pub fn cursor_text(n: usize) -> (text: String)
    ensures
        text@ == decimal_chars(n as nat),
    decreases n,
{
    if n < 10 {
        String::from_str(digit_text(n))
    } else {
        let mut text = cursor_text(n / 10);
        text.append(digit_text(n % 10));
        assert(text@ =~= decimal_chars(n as nat));
        text
    }
}

} // verus!
