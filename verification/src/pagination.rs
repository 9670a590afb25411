//! Pagination parameters for listing queries.

use vstd::prelude::*;

verus! {

/// Pagination parameters.
///
/// `page` is the page number, starting from 1. `page_size` is the number of
/// items displayed on each page.
#[derive(Clone, Copy, Debug)]
pub struct Pagination {
    page: usize,
    page_size: usize,
}

impl Pagination {
    /// The page number, starting from 1.
    pub closed spec fn spec_page(self) -> usize {
        self.page
    }

    /// The number of items on each page.
    pub closed spec fn spec_page_size(self) -> usize {
        self.page_size
    }

    /// A valid pagination has a positive page number and page size, and the
    /// offset of its first item fits in a `usize`.
    pub open spec fn wf(self) -> bool {
        &&& self.spec_page() >= 1
        &&& self.spec_page_size() >= 1
        &&& (self.spec_page() - 1) * self.spec_page_size() <= usize::MAX
    }

    /// The number of items that precede the first item of the requested page.
    pub open spec fn spec_skip_count(self) -> int {
        (self.spec_page() - 1) * self.spec_page_size()
    }

    /// Create a new [`Pagination`] object.
    ///
    /// `page` gives the page number starting from 1. `page_size` gives the
    /// number of items displayed on each page.
    pub fn from_page_and_size(page: usize, page_size: usize) -> (r: Self)
        requires
            page >= 1,
            page_size >= 1,
            (page - 1) * page_size <= usize::MAX,
        ensures
            r.spec_page() == page,
            r.spec_page_size() == page_size,
            r.wf(),
    {
        Self { page, page_size }
    }

    /// Get the page number. Page numbers start from 1.
    pub fn page(&self) -> (r: usize)
        ensures
            r == self.spec_page(),
    {
        self.page
    }

    /// Get the number of items on each page.
    pub fn page_size(&self) -> (r: usize)
        ensures
            r == self.spec_page_size(),
    {
        self.page_size
    }

    /// Get the number of items before the first element of the specified page.
    pub fn skip_count(&self) -> (r: usize)
        requires
            self.wf(),
        ensures
            r == self.spec_skip_count(),
    {
        (self.page - 1) * self.page_size
    }
}

/// A paginated list: one page of objects, plus the total count of objects
/// regardless of the pagination.
#[derive(Clone, Debug)]
pub struct PaginatedList<T> {
    /// Objects that are listed in the requested page.
    pub objects: Vec<T>,

    /// The total number of objects regardless of the pagination.
    pub total_count: usize,
}

} // verus!
