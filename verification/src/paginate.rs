//! Page arithmetic: which slice of a collection one page shows.

use vstd::prelude::*;
use vstd::slice::slice_subrange;
use crate::text::{chars_of, decimal, push_chars, push_decimal, push_str, string_of};

verus! {

/// Page size used when a request names none, or names zero.
pub const DEFAULT_PAGE_SIZE: usize = 100;

/// Bounds of one page: the half-open range `[start, end)` and the page count.
#[derive(Clone, Copy, Debug, PartialEq, Eq)]
pub struct PageBounds {
    pub start: usize,
    pub end: usize,
    pub total_pages: usize,
}

/// The page size in effect: the one asked for, or the default where zero was asked for.
pub open spec fn effective_page_size(page_size: int) -> int {
    if page_size >= 1 {
        page_size
    } else {
        DEFAULT_PAGE_SIZE as int
    }
}

/// The page in effect: the one asked for, raised to one.
pub open spec fn effective_page(page: int) -> int {
    if page >= 1 {
        page
    } else {
        1
    }
}

/// Number of pages of `size` items that hold `total` items: the quotient rounded up.
pub open spec fn page_count(total: int, size: int) -> int
    recommends
        total >= 0,
        size >= 1,
{
    (total + size - 1) / size
}

/// First index of the page, capped at `total`.
pub open spec fn page_start(total: int, page: int, page_size: int) -> int {
    let offset = (effective_page(page) - 1) * effective_page_size(page_size);
    if offset >= total {
        total
    } else {
        offset
    }
}

/// One past the last index of the page.
pub open spec fn page_end(total: int, page: int, page_size: int) -> int {
    let start = page_start(total, page, page_size);
    let size = effective_page_size(page_size);
    if start + size <= total {
        start + size
    } else {
        total
    }
}

/// Computes the slice of `total` items that page `page` shows, and the page count.
///
/// A page below one counts as the first page, a page size of zero as the
/// default. A page past the end gives the empty slice at `total`.
pub fn paginate(total: usize, page: usize, page_size: usize) -> (bounds: PageBounds)
    ensures
        bounds.start == page_start(total as int, page as int, page_size as int),
        bounds.end == page_end(total as int, page as int, page_size as int),
        bounds.total_pages == page_count(total as int, effective_page_size(page_size as int)),
        bounds.start <= bounds.end <= total,
        bounds.end - bounds.start <= effective_page_size(page_size as int),
{
    let size: usize = if page_size >= 1 { page_size } else { DEFAULT_PAGE_SIZE };
    let index: usize = if page >= 1 { page - 1 } else { 0 };
    let start: usize = match index.checked_mul(size) {
        Some(offset) => if offset >= total { total } else { offset },
        None => total,
    };
    assert(start == page_start(total as int, page as int, page_size as int)) by {
        let p = effective_page(page as int) - 1;
        let s = effective_page_size(page_size as int);
        assert(p == index && s == size);
        if index * size > usize::MAX {
            assert(p * s >= total);
        }
    }
    let end: usize = if total - start >= size { start + size } else { total };
    let quotient: usize = total / size;
    assert(total % size != 0 ==> quotient < total) by (nonlinear_arith)
        requires
            quotient == total / size,
            size >= 1,
    ;
    let total_pages: usize = if total % size == 0 { quotient } else { quotient + 1 };
    assert(total_pages == page_count(total as int, size as int)) by {
        lemma_page_count(total as int, size as int);
    }
    PageBounds { start, end, total_pages }
}

/// What a request says of the page it wants; either part may be left out.
#[derive(Clone, Copy, Debug, PartialEq, Eq)]
pub struct PaginationQuery {
    pub page_size: Option<usize>,
    pub page: Option<usize>,
}

impl PaginationQuery {
    /// The page size in effect: the one asked for, the default where none or zero is.
    pub open spec fn size_in_effect(&self) -> int {
        match self.page_size {
            Some(n) => effective_page_size(n as int),
            None => DEFAULT_PAGE_SIZE as int,
        }
    }

    /// The page in effect: the one asked for, the first where none or page zero is.
    pub open spec fn page_in_effect(&self) -> int {
        match self.page {
            Some(n) => effective_page(n as int),
            None => 1,
        }
    }

    /// The page size asked for, `DEFAULT_PAGE_SIZE` where none or zero is.
    pub fn page_size(&self) -> (size: usize)
        ensures
            size == self.size_in_effect(),
            size >= 1,
    {
        match self.page_size {
            Some(n) => if n >= 1 {
                n
            } else {
                DEFAULT_PAGE_SIZE
            },
            None => DEFAULT_PAGE_SIZE,
        }
    }

    /// The page asked for, the first where none or page zero is.
    pub fn page(&self) -> (page: usize)
        ensures
            page == self.page_in_effect(),
            page >= 1,
    {
        match self.page {
            Some(n) => if n >= 1 {
                n
            } else {
                1
            },
            None => 1,
        }
    }

    /// The bounds of the page asked for, of `total` items.
    pub fn bounds(&self, total: usize) -> (bounds: PageBounds)
        ensures
            bounds.start == page_start(total as int, self.page_in_effect(), self.size_in_effect()),
            bounds.end == page_end(total as int, self.page_in_effect(), self.size_in_effect()),
            bounds.total_pages == page_count(total as int, self.size_in_effect()),
            bounds.start <= bounds.end <= total,
    {
        paginate(total, self.page(), self.page_size())
    }
}

/// The items that page `page` shows, of pages of `page_size` items.
pub fn page_items<'a, T>(items: &'a [T], page: usize, page_size: usize) -> (shown: &'a [T])
    ensures
        shown@ == items@.subrange(
            page_start(items@.len() as int, page as int, page_size as int),
            page_end(items@.len() as int, page as int, page_size as int),
        ),
{
    let bounds = paginate(items.len(), page, page_size);
    proof {
        lemma_page_bounds(items@.len() as int, page as int, page_size as int);
    }
    slice_subrange(items, bounds.start, bounds.end)
}

/// A page never reaches outside the collection and never holds more than
/// a page's worth; the page count is the quotient of total and page size,
/// rounded up, and zero for an empty collection.
pub proof fn lemma_page_bounds(total: int, page: int, page_size: int)
    requires
        total >= 0,
    ensures
        0 <= page_start(total, page, page_size) <= page_end(total, page, page_size) <= total,
        page_end(total, page, page_size) - page_start(total, page, page_size)
            <= effective_page_size(page_size),
        (effective_page(page) - 1) * effective_page_size(page_size) >= total ==> page_start(
            total,
            page,
            page_size,
        ) == total && page_end(total, page, page_size) == total,
        total == 0 ==> page_count(total, effective_page_size(page_size)) == 0,
        total > 0 ==> (page_count(total, effective_page_size(page_size)) - 1) * effective_page_size(
            page_size,
        ) < total <= page_count(total, effective_page_size(page_size)) * effective_page_size(
            page_size,
        ),
{
    let p = effective_page(page) - 1;
    let s = effective_page_size(page_size);
    assert(p * s >= 0) by (nonlinear_arith)
        requires
            p >= 0,
            s >= 1,
    ;
    lemma_page_count(total, s);
}

/// The first page that the page bar names: two before the current one, but at least the first.
pub open spec fn first_shown(current: int) -> int {
    if current >= 3 {
        current - 2
    } else {
        1
    }
}

/// The last page that the page bar names: four after the first it names, but at most the last.
pub open spec fn last_shown(current: int, total_pages: int) -> int {
    if first_shown(current) + 4 <= total_pages {
        first_shown(current) + 4
    } else {
        total_pages
    }
}

/// The link to page `page`, shown as `label`.
pub open spec fn page_link(base: Seq<char>, page_size: int, page: int, label: Seq<char>) -> Seq<
    char,
> {
    "<a href='"@ + base + "?page_size="@ + decimal(page_size as nat) + "&page="@ + decimal(
        page as nat,
    ) + "'>"@ + label + "</a>"@
}

/// The entry of the page bar for page `page`: plain for the current page, a link for another.
pub open spec fn page_entry(base: Seq<char>, page_size: int, current: int, page: int) -> Seq<char> {
    if page == current {
        "<span>"@ + decimal(page as nat) + "</span> "@
    } else {
        page_link(base, page_size, page, decimal(page as nat)) + " "@
    }
}

/// The entries for `count` pages from page `from` on.
pub open spec fn page_entries(
    base: Seq<char>,
    page_size: int,
    current: int,
    from: int,
    count: nat,
) -> Seq<char>
    decreases count,
{
    if count == 0 {
        Seq::empty()
    } else {
        page_entries(base, page_size, current, from, (count - 1) as nat) + page_entry(
            base,
            page_size,
            current,
            from + count - 1,
        )
    }
}

/// The page bar: empty where there is at most one page; else a link to the
/// previous page where there is one, entries for up to five pages round the
/// current one, and a link to the next page where there is one.
pub open spec fn pagination_markup(
    current: int,
    total_pages: int,
    page_size: int,
    base: Seq<char>,
) -> Seq<char> {
    if total_pages <= 1 {
        Seq::empty()
    } else {
        let first = first_shown(current);
        let last = last_shown(current, total_pages);
        let count = if last >= first {
            (last - first + 1) as nat
        } else {
            0
        };
        "<div class='pagination'>"@ + (if current > 1 {
            page_link(base, page_size, current - 1, "Previous"@) + " "@
        } else {
            Seq::empty()
        }) + page_entries(base, page_size, current, first, count) + (if current < total_pages {
            page_link(base, page_size, current + 1, "Next"@)
        } else {
            Seq::empty()
        }) + "</div>"@
    }
}

fn push_link(out: &mut Vec<char>, base: &[char], page_size: usize, page: usize, Ghost(label): Ghost<Seq<char>>)
    ensures
        final(out)@ + label + "</a>"@ == old(out)@ + page_link(
            base@,
            page_size as int,
            page as int,
            label,
        ),
{
    push_str(out, "<a href='");
    push_chars(out, base);
    push_str(out, "?page_size=");
    push_decimal(out, page_size);
    push_str(out, "&page=");
    push_decimal(out, page);
    push_str(out, "'>");
    assert(out@ + label + "</a>"@ =~= old(out)@ + page_link(
        base@,
        page_size as int,
        page as int,
        label,
    ));
}

/// Writes the page bar for the page `current_page` of `total_pages`, with
/// links that lead to `base_url` with the page size and the page as query.
pub fn generate_pagination_html(
    current_page: usize,
    total_pages: usize,
    page_size: usize,
    base_url: &str,
) -> (html: String)
    ensures
        html@ == pagination_markup(
            current_page as int,
            total_pages as int,
            page_size as int,
            base_url@,
        ),
{
    let mut out: Vec<char> = Vec::new();
    if total_pages > 1 {
        let base = chars_of(base_url);
        let ghost size = page_size as int;
        let ghost current = current_page as int;
        push_str(&mut out, "<div class='pagination'>");
        if current_page > 1 {
            push_link(&mut out, &base, page_size, current_page - 1, Ghost("Previous"@));
            push_str(&mut out, "Previous");
            push_str(&mut out, "</a>");
            push_str(&mut out, " ");
        }
        let ghost lead = out@;
        assert(lead =~= "<div class='pagination'>"@ + (if current > 1 {
            page_link(base@, size, current - 1, "Previous"@) + " "@
        } else {
            Seq::empty()
        }));
        let first: usize = if current_page >= 3 {
            current_page - 2
        } else {
            1
        };
        let count: usize = if first > total_pages {
            0
        } else if total_pages - first >= 4 {
            5
        } else {
            total_pages - first + 1
        };
        let mut done: usize = 0;
        while done < count
            invariant
                done <= count,
                first + count <= usize::MAX + 1,
                size == page_size as int,
                current == current_page as int,
                out@ == lead + page_entries(base@, size, current, first as int, done as nat),
            decreases count - done,
        {
            let page: usize = first + done;
            let ghost before = out@;
            if page == current_page {
                push_str(&mut out, "<span>");
                push_decimal(&mut out, page);
                push_str(&mut out, "</span> ");
                assert(out@ =~= before + page_entry(base@, size, current, page as int));
            } else {
                push_link(&mut out, &base, page_size, page, Ghost(decimal(page as nat)));
                push_decimal(&mut out, page);
                push_str(&mut out, "</a>");
                push_str(&mut out, " ");
                assert(out@ =~= before + page_entry(base@, size, current, page as int));
            }
            done += 1;
            assert(out@ =~= lead + page_entries(base@, size, current, first as int, done as nat));
        }
        let ghost middle = out@;
        if current_page < total_pages {
            push_link(&mut out, &base, page_size, current_page + 1, Ghost("Next"@));
            push_str(&mut out, "Next");
            push_str(&mut out, "</a>");
        }
        assert(out@ =~= middle + (if current < total_pages as int {
            page_link(base@, size, current + 1, "Next"@)
        } else {
            Seq::empty()
        }));
        push_str(&mut out, "</div>");
    }
    string_of(&out)
}

/// The rounded-up quotient is the quotient, plus one where a remainder is left.
pub proof fn lemma_page_count(total: int, size: int)
    requires
        total >= 0,
        size >= 1,
    ensures
        page_count(total, size) == total / size + if total % size == 0 { 0int } else { 1int },
        total == 0 ==> page_count(total, size) == 0,
        (page_count(total, size) - 1) * size < total || total == 0,
        total <= page_count(total, size) * size,
{
    let q = total / size;
    let r = total % size;
    assert(total == q * size + r && 0 <= r < size) by (nonlinear_arith)
        requires q == total / size, r == total % size, size >= 1;
    if r == 0 {
        assert((q * size + size - 1) / size == q) by (nonlinear_arith)
            requires size >= 1;
    } else {
        assert((q * size + r + size - 1) / size == q + 1) by (nonlinear_arith)
            requires size >= 1, 0 < r < size;
    }
    assert((q - 1) * size == q * size - size) by (nonlinear_arith);
    assert((q + 1) * size == q * size + size) by (nonlinear_arith);
}

} // verus!
