//! Grouped views over the document collection — archives by year and month,
//! categories by tag or keyword — and the pagination records index pages
//! carry. Posts are referred to by their index into the collection they were
//! grouped from.

use vstd::prelude::*;

verus! {

/// One year of the archive: its months, newest first, and how many posts it
/// holds in all.
#[derive(Debug)]
pub struct Year {
    pub name: i32,
    pub months: Vec<Month>,
    pub count: i32,
}

/// One month of a year: the posts written in it, in collection order.
#[derive(Debug)]
pub struct Month {
    pub name: u32,
    pub posts: Vec<usize>,
}

/// The posts grouped under one tag, keyword or category name.
#[derive(Debug)]
pub struct Category {
    pub name: String,
    pub count: u32,
    pub posts: Vec<usize>,
}

/// What kind of listing a template renders.
#[derive(Debug, Clone, PartialEq, Eq, Structural)]
pub enum ListType {
    Index,
    Category,
    Year,
}

/// One page of a paged index.
#[derive(Debug)]
pub struct Page {
    pub index: usize,
    pub title: String,
    pub items: usize,
    pub path: String,
}

/// Where a page stands among its neighbors.
#[derive(Debug)]
pub struct Pagination {
    pub current: usize,
    pub next: Option<Page>,
    pub previous: Option<Page>,
}

} // verus!
