use vstd::prelude::*;

use crate::text::{decimal, decimal_string};

verus! {

/// Page sizes offered by the page-size picker.
pub const PAGE_SIZE_OPTIONS: [usize; 4] = [50, 100, 200, 500];

/// Number of pages `total` rows take at `page_size` rows a page; one page
/// even when there are no rows.
pub open spec fn total_pages(total: int, page_size: int) -> int {
    let pages = (total + page_size - 1) / page_size;
    if pages < 1 { 1 } else { pages }
}

/// The stored page, clamped to the last page.
pub open spec fn clamped_page(total: int, page_size: int, page: int) -> int {
    if page < total_pages(total, page_size) - 1 { page } else { total_pages(total, page_size) - 1 }
}

proof fn lemma_pages(total: int, page_size: int)
    requires
        total >= 0,
        page_size > 0,
    ensures
        total_pages(total, page_size) >= 1,
        (total_pages(total, page_size) - 1) * page_size < total || total == 0,
        total <= total_pages(total, page_size) * page_size,
        total > 0 ==> (total + page_size - 1) / page_size >= 1,
        total == 0 ==> (total + page_size - 1) / page_size == 0,
{
    let q = (total + page_size - 1) / page_size;
    vstd::arithmetic::div_mod::lemma_fundamental_div_mod(total + page_size - 1, page_size);
    vstd::arithmetic::div_mod::lemma_mod_bound(total + page_size - 1, page_size);
    assert(page_size * q + (total + page_size - 1) % page_size == total + page_size - 1);
    if q >= 1 {
        assert((q - 1) * page_size == page_size * q - page_size) by (nonlinear_arith);
    }
    if total > 0 {
        assert(q >= 1) by (nonlinear_arith)
            requires
                page_size * q + (total + page_size - 1) % page_size == total + page_size - 1,
                (total + page_size - 1) % page_size < page_size,
                total > 0,
                page_size > 0,
        ;
    }
    assert(q * page_size == page_size * q) by (nonlinear_arith);
    if total == 0 {
        vstd::arithmetic::div_mod::lemma_basic_div(page_size - 1, page_size);
    }
}

/// `ceil(total / page_size)`, the number of pages of a non-empty list.
fn pages_for(total: usize, page_size: usize) -> (pages: usize)
    requires
        page_size > 0,
    ensures
        pages == (total + page_size - 1) / (page_size as int),
{
    let q = total / page_size;
    let r = total % page_size;
    proof {
        vstd::arithmetic::div_mod::lemma_fundamental_div_mod(total as int, page_size as int);
        vstd::arithmetic::div_mod::lemma_mod_bound(total as int, page_size as int);
        let qi = q as int;
        if r == 0 {
            vstd::arithmetic::div_mod::lemma_div_multiples_vanish_fancy(qi, page_size - 1, page_size as int);
            assert(total + page_size - 1 == page_size * qi + (page_size - 1));
        } else {
            assert(page_size >= 2);
            assert(qi * 2 <= page_size * qi) by (nonlinear_arith)
                requires
                    page_size >= 2,
                    qi >= 0,
            ;
            vstd::arithmetic::div_mod::lemma_div_multiples_vanish_fancy(qi + 1, r - 1, page_size as int);
            assert(page_size * (qi + 1) == page_size * qi + page_size) by (nonlinear_arith);
            assert(total + page_size - 1 == page_size * (qi + 1) + (r - 1));
        }
    }
    if r == 0 {
        q
    } else {
        q + 1
    }
}

/// The visible page of a list: which page, and the rows `start .. end` it holds.
pub struct PageWindow {
    pub current_page: usize,
    pub start: usize,
    pub end: usize,
}

/// The page of the filtered rows to show: the stored page clamped to the
/// last one, and its rows.
pub fn page_window(total: usize, page_size: usize, stored_page: usize) -> (w: PageWindow)
    requires
        page_size > 0,
    ensures
        w.current_page == clamped_page(total as int, page_size as int, stored_page as int),
        w.start == w.current_page * page_size,
        w.end == (if w.start + page_size < total { w.start + page_size } else { total as int }),
        w.start <= w.end <= total,
{
    proof {
        lemma_pages(total as int, page_size as int);
    }
    let pages_raw = pages_for(total, page_size);
    let pages = if pages_raw < 1 { 1 } else { pages_raw };
    let current_page = if stored_page < pages - 1 { stored_page } else { pages - 1 };
    proof {
        assert(pages == total_pages(total as int, page_size as int));
        assert(current_page * page_size <= (pages - 1) * page_size) by (nonlinear_arith)
            requires
                current_page <= pages - 1,
                page_size > 0,
        ;
        if total == 0 {
            assert(pages == 1);
            assert(current_page == 0);
            assert(current_page * page_size == 0) by (nonlinear_arith)
                requires
                    current_page == 0,
            ;
        } else {
            assert((total_pages(total as int, page_size as int) - 1) * page_size < total);
            assert((pages - 1) * page_size < total);
        }
        assert(current_page * page_size <= total);
    }
    let start = current_page * page_size;
    let end = if page_size < total - start { start + page_size } else { total };
    PageWindow { current_page, start, end }
}

/// What the pagination bar under a table shows.
pub struct PaginationView {
    pub total_pages: usize,
    /// The page shown, counted from 0.
    pub page: usize,
    /// First and last row shown, counted from 1.
    pub start: usize,
    pub end: usize,
    pub is_first: bool,
    pub is_last: bool,
    pub prev_page: usize,
    pub next_page: usize,
    pub last_page: usize,
    /// `"Page <n> of <pages>"`.
    pub page_label: String,
}

/// The pagination bar; nothing at all for an empty list.
pub fn table_pagination(total: usize, page_size: usize, current_page: usize) -> (r: Option<
    PaginationView,
>)
    requires
        page_size > 0,
    ensures
        total == 0 <==> r is None,
        r matches Some(v) ==> {
            &&& v.total_pages == total_pages(total as int, page_size as int)
            &&& v.page == clamped_page(total as int, page_size as int, current_page as int)
            &&& v.start == v.page * page_size + 1
            &&& v.end == (if (v.page + 1) * page_size < total { (v.page + 1) * page_size } else {
                total as int
            })
            &&& v.is_first == (v.page == 0)
            &&& v.is_last == (v.page + 1 >= v.total_pages)
            &&& v.prev_page == (if v.is_first { 0 } else { v.page - 1 })
            &&& v.next_page == (if v.is_last { v.page as int } else { v.page + 1 })
            &&& v.last_page == v.total_pages - 1
            &&& v.page_label@ == "Page "@ + decimal((v.page + 1) as nat) + " of "@ + decimal(
                v.total_pages as nat,
            )
            &&& 1 <= v.start <= v.end <= total
        },
{
    if total == 0 {
        return None;
    }
    let w = page_window(total, page_size, current_page);
    proof {
        lemma_pages(total as int, page_size as int);
    }
    let pages = pages_for(total, page_size);
    let page = w.current_page;
    proof {
        assert(w.start < total) by {
            assert(pages == total_pages(total as int, page_size as int));
            assert(page * page_size <= (pages - 1) * page_size) by (nonlinear_arith)
                requires
                    page <= pages - 1,
                    page_size > 0,
            ;
        }
        assert((page + 1) * page_size == page * page_size + page_size) by (nonlinear_arith);
    }
    let is_first = page == 0;
    let is_last = page + 1 >= pages;
    let prev_page = if is_first { 0 } else { page - 1 };
    let next_page = if is_last { page } else { page + 1 };
    let mut page_label = String::from_str("Page ");
    page_label.append(decimal_string((page + 1) as u64).as_str());
    page_label.append(" of ");
    page_label.append(decimal_string(pages as u64).as_str());
    Some(PaginationView {
        total_pages: pages,
        page,
        start: w.start + 1,
        end: w.end,
        is_first,
        is_last,
        prev_page,
        next_page,
        last_page: pages - 1,
        page_label,
    })
}

/// The page size after the user picks one; never zero, and the list goes back
/// to its first page.
pub fn picked_page_size(size: usize) -> (r: usize)
    ensures
        r == (if size < 1 { 1 } else { size as int }),
{
    if size < 1 { 1 } else { size }
}

} // verus!
