//! Pagination planning for `[page]` routes.
//!
//! A rule selects `offset`/`limit` items (after an optional sort), chunks them
//! by `page_size`, optionally caps the page count, and gives each page its nav
//! metadata (`page`, `prev_href`, `next_href`, …). The plan says which item
//! range each page holds; each page object carries those items and the nav
//! metadata that page templates read at `page.pagination`.

use vstd::prelude::*;

use crate::funnel::json::{field_as_str, field_as_str_spec};
use crate::funnel::value::{elems_view, members_view, JsonView, Value};
use crate::text::{
    lex_le, str_le, chars_of, decimal, find_from, has_prefix, join, join_strings, replace_all, replace_str, split_on,
    split_ranges, str_eq, string_range, usize_to_string, views,
};

verus! {

/// One paginated listing: chunk a data array into `[page]` folder routes.
#[derive(Debug, Clone)]
pub struct PaginationRule {
    /// Discovered page route, e.g. `blog/[page]`.
    pub route: String,
    /// Items per generated page (0 is read as 1).
    pub page_size: usize,
    /// Max items from the source after `offset` (0 = unlimited).
    pub limit: usize,
    /// Skip this many items before `limit` / chunking.
    pub offset: usize,
    /// Sort by this field before slicing (empty = keep source order).
    pub sort_by: String,
    /// When `sort_by` is set, sort descending.
    pub sort_desc: bool,
    /// Cap how many page folders to emit (0 = unlimited).
    pub max_pages: usize,
    /// Also write page 1 at the parent path.
    pub index: bool,
}

impl Default for PaginationRule {
    /// Ten items per page, everything else off.
    fn default() -> (r: Self)
        ensures
            r.route@.len() == 0,
            r.page_size == 10,
            r.limit == 0,
            r.offset == 0,
            r.sort_by@.len() == 0,
            !r.sort_desc,
            r.max_pages == 0,
            !r.index,
    {
        PaginationRule {
            route: String::new(),
            page_size: 10,
            limit: 0,
            offset: 0,
            sort_by: String::new(),
            sort_desc: false,
            max_pages: 0,
            index: false,
        }
    }
}

/// Fields exposed in `page.pagination` for paginated routes.
#[derive(Debug, Clone, Copy, PartialEq, Eq, Hash)]
pub enum PaginationField {
    Page,
    PageNumber,
    TotalPages,
    TotalItems,
    SourceTotal,
    PerPage,
    PageSize,
    Limit,
    Offset,
    SortBy,
    SortDesc,
    MaxPages,
    HasPrev,
    HasNext,
    Prev,
    Next,
    Path,
    Href,
    PrevHref,
    NextHref,
    FirstHref,
    LastHref,
    Pages,
    Current,
    Items,
}

pub open spec fn field_name(f: PaginationField) -> Seq<char> {
    match f {
        PaginationField::Page => "page"@,
        PaginationField::PageNumber => "page_number"@,
        PaginationField::TotalPages => "total_pages"@,
        PaginationField::TotalItems => "total_items"@,
        PaginationField::SourceTotal => "source_total"@,
        PaginationField::PerPage => "per_page"@,
        PaginationField::PageSize => "page_size"@,
        PaginationField::Limit => "limit"@,
        PaginationField::Offset => "offset"@,
        PaginationField::SortBy => "sort_by"@,
        PaginationField::SortDesc => "sort_desc"@,
        PaginationField::MaxPages => "max_pages"@,
        PaginationField::HasPrev => "has_prev"@,
        PaginationField::HasNext => "has_next"@,
        PaginationField::Prev => "prev"@,
        PaginationField::Next => "next"@,
        PaginationField::Path => "path"@,
        PaginationField::Href => "href"@,
        PaginationField::PrevHref => "prev_href"@,
        PaginationField::NextHref => "next_href"@,
        PaginationField::FirstHref => "first_href"@,
        PaginationField::LastHref => "last_href"@,
        PaginationField::Pages => "pages"@,
        PaginationField::Current => "current"@,
        PaginationField::Items => "items"@,
    }
}

/// The field a `page.pagination` key names.
pub open spec fn field_of_name(s: Seq<char>) -> Option<PaginationField> {
    if s == "page"@ {
        Some(PaginationField::Page)
    } else if s == "page_number"@ {
        Some(PaginationField::PageNumber)
    } else if s == "total_pages"@ {
        Some(PaginationField::TotalPages)
    } else if s == "total_items"@ {
        Some(PaginationField::TotalItems)
    } else if s == "source_total"@ {
        Some(PaginationField::SourceTotal)
    } else if s == "per_page"@ {
        Some(PaginationField::PerPage)
    } else if s == "page_size"@ {
        Some(PaginationField::PageSize)
    } else if s == "limit"@ {
        Some(PaginationField::Limit)
    } else if s == "offset"@ {
        Some(PaginationField::Offset)
    } else if s == "sort_by"@ {
        Some(PaginationField::SortBy)
    } else if s == "sort_desc"@ {
        Some(PaginationField::SortDesc)
    } else if s == "max_pages"@ {
        Some(PaginationField::MaxPages)
    } else if s == "has_prev"@ {
        Some(PaginationField::HasPrev)
    } else if s == "has_next"@ {
        Some(PaginationField::HasNext)
    } else if s == "prev"@ {
        Some(PaginationField::Prev)
    } else if s == "next"@ {
        Some(PaginationField::Next)
    } else if s == "path"@ {
        Some(PaginationField::Path)
    } else if s == "href"@ {
        Some(PaginationField::Href)
    } else if s == "prev_href"@ {
        Some(PaginationField::PrevHref)
    } else if s == "next_href"@ {
        Some(PaginationField::NextHref)
    } else if s == "first_href"@ {
        Some(PaginationField::FirstHref)
    } else if s == "last_href"@ {
        Some(PaginationField::LastHref)
    } else if s == "pages"@ {
        Some(PaginationField::Pages)
    } else if s == "current"@ {
        Some(PaginationField::Current)
    } else if s == "items"@ {
        Some(PaginationField::Items)
    } else {
        None
    }
}

/// Each field's key names that field back.
proof fn lemma_field_name_inverse(f: PaginationField)
    ensures
        field_of_name(field_name(f)) == Some(f),
{
    reveal_strlit("page");
    reveal_strlit("page_number");
    reveal_strlit("total_pages");
    reveal_strlit("total_items");
    reveal_strlit("source_total");
    reveal_strlit("per_page");
    reveal_strlit("page_size");
    reveal_strlit("limit");
    reveal_strlit("offset");
    reveal_strlit("sort_by");
    reveal_strlit("sort_desc");
    reveal_strlit("max_pages");
    reveal_strlit("has_prev");
    reveal_strlit("has_next");
    reveal_strlit("prev");
    reveal_strlit("next");
    reveal_strlit("path");
    reveal_strlit("href");
    reveal_strlit("prev_href");
    reveal_strlit("next_href");
    reveal_strlit("first_href");
    reveal_strlit("last_href");
    reveal_strlit("pages");
    reveal_strlit("current");
    reveal_strlit("items");
    match f {
        PaginationField::Page => {
        },
        PaginationField::PageNumber => {
            assert("page_number"@.len() != "page"@.len());
        },
        PaginationField::TotalPages => {
            assert("total_pages"@.len() != "page"@.len());
            assert("total_pages"@[0] != "page_number"@[0]);
        },
        PaginationField::TotalItems => {
            assert("total_items"@.len() != "page"@.len());
            assert("total_items"@[0] != "page_number"@[0]);
            assert("total_items"@[6] != "total_pages"@[6]);
        },
        PaginationField::SourceTotal => {
            assert("source_total"@.len() != "page"@.len());
            assert("source_total"@.len() != "page_number"@.len());
            assert("source_total"@.len() != "total_pages"@.len());
            assert("source_total"@.len() != "total_items"@.len());
        },
        PaginationField::PerPage => {
            assert("per_page"@.len() != "page"@.len());
            assert("per_page"@.len() != "page_number"@.len());
            assert("per_page"@.len() != "total_pages"@.len());
            assert("per_page"@.len() != "total_items"@.len());
            assert("per_page"@.len() != "source_total"@.len());
        },
        PaginationField::PageSize => {
            assert("page_size"@.len() != "page"@.len());
            assert("page_size"@.len() != "page_number"@.len());
            assert("page_size"@.len() != "total_pages"@.len());
            assert("page_size"@.len() != "total_items"@.len());
            assert("page_size"@.len() != "source_total"@.len());
            assert("page_size"@.len() != "per_page"@.len());
        },
        PaginationField::Limit => {
            assert("limit"@.len() != "page"@.len());
            assert("limit"@.len() != "page_number"@.len());
            assert("limit"@.len() != "total_pages"@.len());
            assert("limit"@.len() != "total_items"@.len());
            assert("limit"@.len() != "source_total"@.len());
            assert("limit"@.len() != "per_page"@.len());
            assert("limit"@.len() != "page_size"@.len());
        },
        PaginationField::Offset => {
            assert("offset"@.len() != "page"@.len());
            assert("offset"@.len() != "page_number"@.len());
            assert("offset"@.len() != "total_pages"@.len());
            assert("offset"@.len() != "total_items"@.len());
            assert("offset"@.len() != "source_total"@.len());
            assert("offset"@.len() != "per_page"@.len());
            assert("offset"@.len() != "page_size"@.len());
            assert("offset"@.len() != "limit"@.len());
        },
        PaginationField::SortBy => {
            assert("sort_by"@.len() != "page"@.len());
            assert("sort_by"@.len() != "page_number"@.len());
            assert("sort_by"@.len() != "total_pages"@.len());
            assert("sort_by"@.len() != "total_items"@.len());
            assert("sort_by"@.len() != "source_total"@.len());
            assert("sort_by"@.len() != "per_page"@.len());
            assert("sort_by"@.len() != "page_size"@.len());
            assert("sort_by"@.len() != "limit"@.len());
            assert("sort_by"@.len() != "offset"@.len());
        },
        PaginationField::SortDesc => {
            assert("sort_desc"@.len() != "page"@.len());
            assert("sort_desc"@.len() != "page_number"@.len());
            assert("sort_desc"@.len() != "total_pages"@.len());
            assert("sort_desc"@.len() != "total_items"@.len());
            assert("sort_desc"@.len() != "source_total"@.len());
            assert("sort_desc"@.len() != "per_page"@.len());
            assert("sort_desc"@[0] != "page_size"@[0]);
            assert("sort_desc"@.len() != "limit"@.len());
            assert("sort_desc"@.len() != "offset"@.len());
            assert("sort_desc"@.len() != "sort_by"@.len());
        },
        PaginationField::MaxPages => {
            assert("max_pages"@.len() != "page"@.len());
            assert("max_pages"@.len() != "page_number"@.len());
            assert("max_pages"@.len() != "total_pages"@.len());
            assert("max_pages"@.len() != "total_items"@.len());
            assert("max_pages"@.len() != "source_total"@.len());
            assert("max_pages"@.len() != "per_page"@.len());
            assert("max_pages"@[0] != "page_size"@[0]);
            assert("max_pages"@.len() != "limit"@.len());
            assert("max_pages"@.len() != "offset"@.len());
            assert("max_pages"@.len() != "sort_by"@.len());
            assert("max_pages"@[0] != "sort_desc"@[0]);
        },
        PaginationField::HasPrev => {
            assert("has_prev"@.len() != "page"@.len());
            assert("has_prev"@.len() != "page_number"@.len());
            assert("has_prev"@.len() != "total_pages"@.len());
            assert("has_prev"@.len() != "total_items"@.len());
            assert("has_prev"@.len() != "source_total"@.len());
            assert("has_prev"@[0] != "per_page"@[0]);
            assert("has_prev"@.len() != "page_size"@.len());
            assert("has_prev"@.len() != "limit"@.len());
            assert("has_prev"@.len() != "offset"@.len());
            assert("has_prev"@.len() != "sort_by"@.len());
            assert("has_prev"@.len() != "sort_desc"@.len());
            assert("has_prev"@.len() != "max_pages"@.len());
        },
        PaginationField::HasNext => {
            assert("has_next"@.len() != "page"@.len());
            assert("has_next"@.len() != "page_number"@.len());
            assert("has_next"@.len() != "total_pages"@.len());
            assert("has_next"@.len() != "total_items"@.len());
            assert("has_next"@.len() != "source_total"@.len());
            assert("has_next"@[0] != "per_page"@[0]);
            assert("has_next"@.len() != "page_size"@.len());
            assert("has_next"@.len() != "limit"@.len());
            assert("has_next"@.len() != "offset"@.len());
            assert("has_next"@.len() != "sort_by"@.len());
            assert("has_next"@.len() != "sort_desc"@.len());
            assert("has_next"@.len() != "max_pages"@.len());
            assert("has_next"@[4] != "has_prev"@[4]);
        },
        PaginationField::Prev => {
            assert("prev"@[1] != "page"@[1]);
            assert("prev"@.len() != "page_number"@.len());
            assert("prev"@.len() != "total_pages"@.len());
            assert("prev"@.len() != "total_items"@.len());
            assert("prev"@.len() != "source_total"@.len());
            assert("prev"@.len() != "per_page"@.len());
            assert("prev"@.len() != "page_size"@.len());
            assert("prev"@.len() != "limit"@.len());
            assert("prev"@.len() != "offset"@.len());
            assert("prev"@.len() != "sort_by"@.len());
            assert("prev"@.len() != "sort_desc"@.len());
            assert("prev"@.len() != "max_pages"@.len());
            assert("prev"@.len() != "has_prev"@.len());
            assert("prev"@.len() != "has_next"@.len());
        },
        PaginationField::Next => {
            assert("next"@[0] != "page"@[0]);
            assert("next"@.len() != "page_number"@.len());
            assert("next"@.len() != "total_pages"@.len());
            assert("next"@.len() != "total_items"@.len());
            assert("next"@.len() != "source_total"@.len());
            assert("next"@.len() != "per_page"@.len());
            assert("next"@.len() != "page_size"@.len());
            assert("next"@.len() != "limit"@.len());
            assert("next"@.len() != "offset"@.len());
            assert("next"@.len() != "sort_by"@.len());
            assert("next"@.len() != "sort_desc"@.len());
            assert("next"@.len() != "max_pages"@.len());
            assert("next"@.len() != "has_prev"@.len());
            assert("next"@.len() != "has_next"@.len());
            assert("next"@[0] != "prev"@[0]);
        },
        PaginationField::Path => {
            assert("path"@[2] != "page"@[2]);
            assert("path"@.len() != "page_number"@.len());
            assert("path"@.len() != "total_pages"@.len());
            assert("path"@.len() != "total_items"@.len());
            assert("path"@.len() != "source_total"@.len());
            assert("path"@.len() != "per_page"@.len());
            assert("path"@.len() != "page_size"@.len());
            assert("path"@.len() != "limit"@.len());
            assert("path"@.len() != "offset"@.len());
            assert("path"@.len() != "sort_by"@.len());
            assert("path"@.len() != "sort_desc"@.len());
            assert("path"@.len() != "max_pages"@.len());
            assert("path"@.len() != "has_prev"@.len());
            assert("path"@.len() != "has_next"@.len());
            assert("path"@[1] != "prev"@[1]);
            assert("path"@[0] != "next"@[0]);
        },
        PaginationField::Href => {
            assert("href"@[0] != "page"@[0]);
            assert("href"@.len() != "page_number"@.len());
            assert("href"@.len() != "total_pages"@.len());
            assert("href"@.len() != "total_items"@.len());
            assert("href"@.len() != "source_total"@.len());
            assert("href"@.len() != "per_page"@.len());
            assert("href"@.len() != "page_size"@.len());
            assert("href"@.len() != "limit"@.len());
            assert("href"@.len() != "offset"@.len());
            assert("href"@.len() != "sort_by"@.len());
            assert("href"@.len() != "sort_desc"@.len());
            assert("href"@.len() != "max_pages"@.len());
            assert("href"@.len() != "has_prev"@.len());
            assert("href"@.len() != "has_next"@.len());
            assert("href"@[0] != "prev"@[0]);
            assert("href"@[0] != "next"@[0]);
            assert("href"@[0] != "path"@[0]);
        },
        PaginationField::PrevHref => {
            assert("prev_href"@.len() != "page"@.len());
            assert("prev_href"@.len() != "page_number"@.len());
            assert("prev_href"@.len() != "total_pages"@.len());
            assert("prev_href"@.len() != "total_items"@.len());
            assert("prev_href"@.len() != "source_total"@.len());
            assert("prev_href"@.len() != "per_page"@.len());
            assert("prev_href"@[1] != "page_size"@[1]);
            assert("prev_href"@.len() != "limit"@.len());
            assert("prev_href"@.len() != "offset"@.len());
            assert("prev_href"@.len() != "sort_by"@.len());
            assert("prev_href"@[0] != "sort_desc"@[0]);
            assert("prev_href"@[0] != "max_pages"@[0]);
            assert("prev_href"@.len() != "has_prev"@.len());
            assert("prev_href"@.len() != "has_next"@.len());
            assert("prev_href"@.len() != "prev"@.len());
            assert("prev_href"@.len() != "next"@.len());
            assert("prev_href"@.len() != "path"@.len());
            assert("prev_href"@.len() != "href"@.len());
        },
        PaginationField::NextHref => {
            assert("next_href"@.len() != "page"@.len());
            assert("next_href"@.len() != "page_number"@.len());
            assert("next_href"@.len() != "total_pages"@.len());
            assert("next_href"@.len() != "total_items"@.len());
            assert("next_href"@.len() != "source_total"@.len());
            assert("next_href"@.len() != "per_page"@.len());
            assert("next_href"@[0] != "page_size"@[0]);
            assert("next_href"@.len() != "limit"@.len());
            assert("next_href"@.len() != "offset"@.len());
            assert("next_href"@.len() != "sort_by"@.len());
            assert("next_href"@[0] != "sort_desc"@[0]);
            assert("next_href"@[0] != "max_pages"@[0]);
            assert("next_href"@.len() != "has_prev"@.len());
            assert("next_href"@.len() != "has_next"@.len());
            assert("next_href"@.len() != "prev"@.len());
            assert("next_href"@.len() != "next"@.len());
            assert("next_href"@.len() != "path"@.len());
            assert("next_href"@.len() != "href"@.len());
            assert("next_href"@[0] != "prev_href"@[0]);
        },
        PaginationField::FirstHref => {
            assert("first_href"@.len() != "page"@.len());
            assert("first_href"@.len() != "page_number"@.len());
            assert("first_href"@.len() != "total_pages"@.len());
            assert("first_href"@.len() != "total_items"@.len());
            assert("first_href"@.len() != "source_total"@.len());
            assert("first_href"@.len() != "per_page"@.len());
            assert("first_href"@.len() != "page_size"@.len());
            assert("first_href"@.len() != "limit"@.len());
            assert("first_href"@.len() != "offset"@.len());
            assert("first_href"@.len() != "sort_by"@.len());
            assert("first_href"@.len() != "sort_desc"@.len());
            assert("first_href"@.len() != "max_pages"@.len());
            assert("first_href"@.len() != "has_prev"@.len());
            assert("first_href"@.len() != "has_next"@.len());
            assert("first_href"@.len() != "prev"@.len());
            assert("first_href"@.len() != "next"@.len());
            assert("first_href"@.len() != "path"@.len());
            assert("first_href"@.len() != "href"@.len());
            assert("first_href"@.len() != "prev_href"@.len());
            assert("first_href"@.len() != "next_href"@.len());
        },
        PaginationField::LastHref => {
            assert("last_href"@.len() != "page"@.len());
            assert("last_href"@.len() != "page_number"@.len());
            assert("last_href"@.len() != "total_pages"@.len());
            assert("last_href"@.len() != "total_items"@.len());
            assert("last_href"@.len() != "source_total"@.len());
            assert("last_href"@.len() != "per_page"@.len());
            assert("last_href"@[0] != "page_size"@[0]);
            assert("last_href"@.len() != "limit"@.len());
            assert("last_href"@.len() != "offset"@.len());
            assert("last_href"@.len() != "sort_by"@.len());
            assert("last_href"@[0] != "sort_desc"@[0]);
            assert("last_href"@[0] != "max_pages"@[0]);
            assert("last_href"@.len() != "has_prev"@.len());
            assert("last_href"@.len() != "has_next"@.len());
            assert("last_href"@.len() != "prev"@.len());
            assert("last_href"@.len() != "next"@.len());
            assert("last_href"@.len() != "path"@.len());
            assert("last_href"@.len() != "href"@.len());
            assert("last_href"@[0] != "prev_href"@[0]);
            assert("last_href"@[0] != "next_href"@[0]);
            assert("last_href"@.len() != "first_href"@.len());
        },
        PaginationField::Pages => {
            assert("pages"@.len() != "page"@.len());
            assert("pages"@.len() != "page_number"@.len());
            assert("pages"@.len() != "total_pages"@.len());
            assert("pages"@.len() != "total_items"@.len());
            assert("pages"@.len() != "source_total"@.len());
            assert("pages"@.len() != "per_page"@.len());
            assert("pages"@.len() != "page_size"@.len());
            assert("pages"@[0] != "limit"@[0]);
            assert("pages"@.len() != "offset"@.len());
            assert("pages"@.len() != "sort_by"@.len());
            assert("pages"@.len() != "sort_desc"@.len());
            assert("pages"@.len() != "max_pages"@.len());
            assert("pages"@.len() != "has_prev"@.len());
            assert("pages"@.len() != "has_next"@.len());
            assert("pages"@.len() != "prev"@.len());
            assert("pages"@.len() != "next"@.len());
            assert("pages"@.len() != "path"@.len());
            assert("pages"@.len() != "href"@.len());
            assert("pages"@.len() != "prev_href"@.len());
            assert("pages"@.len() != "next_href"@.len());
            assert("pages"@.len() != "first_href"@.len());
            assert("pages"@.len() != "last_href"@.len());
        },
        PaginationField::Current => {
            assert("current"@.len() != "page"@.len());
            assert("current"@.len() != "page_number"@.len());
            assert("current"@.len() != "total_pages"@.len());
            assert("current"@.len() != "total_items"@.len());
            assert("current"@.len() != "source_total"@.len());
            assert("current"@.len() != "per_page"@.len());
            assert("current"@.len() != "page_size"@.len());
            assert("current"@.len() != "limit"@.len());
            assert("current"@.len() != "offset"@.len());
            assert("current"@[0] != "sort_by"@[0]);
            assert("current"@.len() != "sort_desc"@.len());
            assert("current"@.len() != "max_pages"@.len());
            assert("current"@.len() != "has_prev"@.len());
            assert("current"@.len() != "has_next"@.len());
            assert("current"@.len() != "prev"@.len());
            assert("current"@.len() != "next"@.len());
            assert("current"@.len() != "path"@.len());
            assert("current"@.len() != "href"@.len());
            assert("current"@.len() != "prev_href"@.len());
            assert("current"@.len() != "next_href"@.len());
            assert("current"@.len() != "first_href"@.len());
            assert("current"@.len() != "last_href"@.len());
            assert("current"@.len() != "pages"@.len());
        },
        PaginationField::Items => {
            assert("items"@.len() != "page"@.len());
            assert("items"@.len() != "page_number"@.len());
            assert("items"@.len() != "total_pages"@.len());
            assert("items"@.len() != "total_items"@.len());
            assert("items"@.len() != "source_total"@.len());
            assert("items"@.len() != "per_page"@.len());
            assert("items"@.len() != "page_size"@.len());
            assert("items"@[0] != "limit"@[0]);
            assert("items"@.len() != "offset"@.len());
            assert("items"@.len() != "sort_by"@.len());
            assert("items"@.len() != "sort_desc"@.len());
            assert("items"@.len() != "max_pages"@.len());
            assert("items"@.len() != "has_prev"@.len());
            assert("items"@.len() != "has_next"@.len());
            assert("items"@.len() != "prev"@.len());
            assert("items"@.len() != "next"@.len());
            assert("items"@.len() != "path"@.len());
            assert("items"@.len() != "href"@.len());
            assert("items"@.len() != "prev_href"@.len());
            assert("items"@.len() != "next_href"@.len());
            assert("items"@.len() != "first_href"@.len());
            assert("items"@.len() != "last_href"@.len());
            assert("items"@[0] != "pages"@[0]);
            assert("items"@.len() != "current"@.len());
        },
    }
}

/// Distinct `page.pagination` fields have distinct keys.
pub proof fn law_pagination_keys_distinct(a: PaginationField, b: PaginationField)
    requires
        a != b,
    ensures
        field_name(a) != field_name(b),
{
    lemma_field_name_inverse(a);
    lemma_field_name_inverse(b);
}

impl PaginationField {
    pub fn as_str(self) -> (r: &'static str)
        ensures
            r@ == field_name(self),
    {
        match self {
            PaginationField::Page => "page",
            PaginationField::PageNumber => "page_number",
            PaginationField::TotalPages => "total_pages",
            PaginationField::TotalItems => "total_items",
            PaginationField::SourceTotal => "source_total",
            PaginationField::PerPage => "per_page",
            PaginationField::PageSize => "page_size",
            PaginationField::Limit => "limit",
            PaginationField::Offset => "offset",
            PaginationField::SortBy => "sort_by",
            PaginationField::SortDesc => "sort_desc",
            PaginationField::MaxPages => "max_pages",
            PaginationField::HasPrev => "has_prev",
            PaginationField::HasNext => "has_next",
            PaginationField::Prev => "prev",
            PaginationField::Next => "next",
            PaginationField::Path => "path",
            PaginationField::Href => "href",
            PaginationField::PrevHref => "prev_href",
            PaginationField::NextHref => "next_href",
            PaginationField::FirstHref => "first_href",
            PaginationField::LastHref => "last_href",
            PaginationField::Pages => "pages",
            PaginationField::Current => "current",
            PaginationField::Items => "items",
        }
    }
}

// ---------------------------------------------------------------------------
// Routes

/// The route key of a parameter: `[param]`.
pub open spec fn param_key(param: Seq<char>) -> Seq<char> {
    "["@ + param + "]"@
}

/// Non-empty route segments, the `key` segment replaced by `value`.
pub open spec fn with_param_parts(parts: Seq<Seq<char>>, key: Seq<char>, value: Seq<char>) -> Seq<Seq<char>>
    decreases parts.len(),
{
    if parts.len() == 0 {
        Seq::empty()
    } else {
        let rest = with_param_parts(parts.drop_first(), key, value);
        if parts[0].len() == 0 {
            rest
        } else {
            seq![if parts[0] == key { value } else { parts[0] }] + rest
        }
    }
}

/// `route` with its `[param]` segment filled with `value` (empty segments dropped).
pub open spec fn route_with_param_spec(route: Seq<char>, param: Seq<char>, value: Seq<char>) -> Seq<char> {
    join(with_param_parts(split_on(route, '/'), param_key(param), value), "/"@)
}

/// Non-empty route segments other than `key`.
pub open spec fn without_param_parts(parts: Seq<Seq<char>>, key: Seq<char>) -> Seq<Seq<char>>
    decreases parts.len(),
{
    if parts.len() == 0 {
        Seq::empty()
    } else {
        let rest = without_param_parts(parts.drop_first(), key);
        if parts[0].len() == 0 || parts[0] == key {
            rest
        } else {
            seq![parts[0]] + rest
        }
    }
}

/// Parent route with the `[param]` segment removed (`blog/[page]` → `blog`).
pub open spec fn index_route_spec(route: Seq<char>, param: Seq<char>) -> Seq<char> {
    join(without_param_parts(split_on(route, '/'), param_key(param)), "/"@)
}

fn key_of(param: &str) -> (r: Vec<char>)
    ensures
        r@ == param_key(param@),
{
    let mut k = String::from_str("[");
    k.append(param);
    k.append("]");
    chars_of(k.as_str())
}

/// The segments of `route` rewritten: with `value` given, the key segment is
/// replaced; without it, the key segment is dropped.
fn route_parts(route: &str, param: &str, value: Option<&str>) -> (r: Vec<String>)
    ensures
        views(r@) == match value {
            Some(v) => with_param_parts(split_on(route@, '/'), param_key(param@), v@),
            None => without_param_parts(split_on(route@, '/'), param_key(param@)),
        },
{
    let v = chars_of(route);
    let key = key_of(param);
    let parts = split_ranges(v.as_slice(), 0, v.len(), '/');
    let ghost ps = split_on(v@, '/');
    let ghost target = match value {
        Some(x) => with_param_parts(ps, key@, x@),
        None => without_param_parts(ps, key@),
    };
    proof {
        assert(v@.subrange(0, v@.len() as int) =~= v@);
        assert(ps.skip(0) =~= ps);
        assert(views(Seq::<String>::empty()) =~= Seq::<Seq<char>>::empty());
        assert(Seq::<Seq<char>>::empty() + target =~= target);
    }
    let mut out: Vec<String> = Vec::new();
    let mut i: usize = 0;
    while i < parts.len()
        invariant
            i <= parts@.len(),
            parts@.len() == ps.len(),
            ps == split_on(v@, '/'),
            v@ == route@,
            key@ == param_key(param@),
            target == match value {
                Some(x) => with_param_parts(ps, key@, x@),
                None => without_param_parts(ps, key@),
            },
            forall|k: int|
                0 <= k < parts@.len() ==> {
                    &&& (#[trigger] parts@[k]).0 <= parts@[k].1 <= v@.len()
                    &&& v@.subrange(parts@[k].0 as int, parts@[k].1 as int) == ps[k]
                },
            target == views(out@) + match value {
                Some(x) => with_param_parts(ps.skip(i as int), key@, x@),
                None => without_param_parts(ps.skip(i as int), key@),
            },
        decreases parts@.len() - i,
    {
        let (a, b) = parts[i];
        let ghost seg = ps[i as int];
        proof {
            assert(ps.skip(i as int).drop_first() =~= ps.skip(i + 1));
            assert(ps.skip(i as int)[0] == seg);
        }
        if a < b {
            let is_key = crate::text::range_eq(v.as_slice(), a, b, key.as_slice());
            let ghost before = views(out@);
            match value {
                Some(x) => {
                    if is_key {
                        out.push(String::from_str(x));
                    } else {
                        out.push(string_range(v.as_slice(), a, b));
                    }
                    proof {
                        assert(views(out@) =~= before + seq![if seg == key@ { x@ } else { seg }]);
                        assert(views(out@) + with_param_parts(ps.skip(i + 1), key@, x@)
                            =~= before + with_param_parts(ps.skip(i as int), key@, x@));
                    }
                },
                None => {
                    if !is_key {
                        out.push(string_range(v.as_slice(), a, b));
                        proof {
                            assert(views(out@) =~= before + seq![seg]);
                            assert(views(out@) + without_param_parts(ps.skip(i + 1), key@)
                                =~= before + without_param_parts(ps.skip(i as int), key@));
                        }
                    }
                },
            }
        }
        i += 1;
    }
    proof {
        assert(ps.skip(parts@.len() as int) =~= Seq::<Seq<char>>::empty());
        assert(views(out@) + Seq::<Seq<char>>::empty() =~= views(out@));
    }
    out
}

/// `route` with its `[param]` segment set to `value`.
pub fn route_with_param(route: &str, param: &str, value: &str) -> (r: String)
    ensures
        r@ == route_with_param_spec(route@, param@, value@),
{
    let parts = route_parts(route, param, Some(value));
    join_strings(&parts, "/")
}

/// Parent route with the `[param]` segment removed (`blog/[page]` → `blog`).
pub fn index_route(route: &str, param: &str) -> (r: String)
    ensures
        r@ == index_route_spec(route@, param@),
{
    let parts = route_parts(route, param, None);
    join_strings(&parts, "/")
}

/// Site-absolute href of a route path (`blog/2` → `/blog/2/`, `` → `/`).
pub open spec fn absolute_href_spec(path: Seq<char>) -> Seq<char> {
    if path.len() == 0 {
        "/"@
    } else {
        "/"@ + path + "/"@
    }
}

pub fn absolute_href(path: &str) -> (r: String)
    ensures
        r@ == absolute_href_spec(path@),
{
    if path.unicode_len() == 0 {
        String::from_str("/")
    } else {
        let mut s = String::from_str("/");
        s.append(path);
        s.append("/");
        s
    }
}

/// `[locale]` → the concrete locale, everywhere in `s`.
pub open spec fn localize_spec(s: Seq<char>, locale: Seq<char>) -> Seq<char> {
    replace_all(s, "[locale]"@, locale)
}

pub fn localize_route_token(s: &str, locale: &str) -> (r: String)
    ensures
        r@ == localize_spec(s@, locale@),
{
    proof {
        reveal_strlit("[locale]");
    }
    replace_str(s, "[locale]", locale)
}

// ---------------------------------------------------------------------------
// Selection and chunking

/// The selected item range `[start, end)` of `len` (already sorted) items:
/// skip `offset` (nothing left when `offset >= len`), then keep at most
/// `limit` when it is non-zero.
pub open spec fn select_range_spec(len: nat, offset: nat, limit: nat) -> (nat, nat) {
    if offset > 0 && offset >= len {
        (0, 0)
    } else {
        let rest = (len - offset) as nat;
        let keep = if limit > 0 && rest > limit { limit } else { rest };
        (offset, offset + keep)
    }
}

pub fn select_range(len: usize, rule: &PaginationRule) -> (r: (usize, usize))
    ensures
        r.0 as nat == select_range_spec(len as nat, rule.offset as nat, rule.limit as nat).0,
        r.1 as nat == select_range_spec(len as nat, rule.offset as nat, rule.limit as nat).1,
        r.0 <= r.1 <= len,
{
    if rule.offset > 0 && rule.offset >= len {
        return (0, 0);
    }
    let rest = len - rule.offset;
    let keep = if rule.limit > 0 && rest > rule.limit { rule.limit } else { rest };
    (rule.offset, rule.offset + keep)
}

/// Pages needed for `n` items at `per` per page (`usize::div_ceil`).
pub open spec fn div_ceil(n: nat, per: nat) -> nat {
    if n % per == 0 {
        n / per
    } else {
        n / per + 1
    }
}

/// Page count: all pages, capped by `max_pages` when non-zero.
pub open spec fn total_pages_spec(n: nat, per: nat, max_pages: nat) -> nat {
    let t = div_ceil(n, per);
    if max_pages > 0 && max_pages < t {
        max_pages
    } else {
        t
    }
}

proof fn lemma_page_start(n: nat, per: nat, p: nat)
    requires
        per > 0,
        1 <= p <= div_ceil(n, per),
    ensures
        (p - 1) * per < n,
        (p - 1) * per + per <= n + per,
{
    let q = n / per;
    let r = n % per;
    assert(n == q * per + r) by (nonlinear_arith)
        requires
            per > 0,
            q == n / per,
            r == n % per,
    ;
    assert(0 <= r < per) by (nonlinear_arith)
        requires
            per > 0,
            r == n % per,
    ;
    if r == 0 {
        assert((p - 1) * per <= (q - 1) * per) by (nonlinear_arith)
            requires
                p - 1 <= q - 1,
                per > 0,
        ;
        assert((q - 1) * per == q * per - per) by (nonlinear_arith);
    } else {
        assert((p - 1) * per <= q * per) by (nonlinear_arith)
            requires
                p - 1 <= q,
                per > 0,
        ;
    }
}

/// One entry of the page-number navigation list.
#[derive(Debug, Clone)]
pub struct PageLink {
    pub page: String,
    pub page_number: usize,
    pub path: String,
    pub href: String,
    pub current: bool,
}

pub struct PageLinkView {
    pub page: Seq<char>,
    pub page_number: nat,
    pub path: Seq<char>,
    pub href: Seq<char>,
    pub current: bool,
}

impl View for PageLink {
    type V = PageLinkView;

    open spec fn view(&self) -> PageLinkView {
        PageLinkView {
            page: self.page@,
            page_number: self.page_number as nat,
            path: self.path@,
            href: self.href@,
            current: self.current,
        }
    }
}

/// The link to page `k`, marked current when its page text is `cur`.
pub open spec fn link_spec(route: Seq<char>, param: Seq<char>, k: nat, cur: Seq<char>) -> PageLinkView {
    let path = route_with_param_spec(route, param, decimal(k));
    PageLinkView { page: decimal(k), page_number: k, path, href: absolute_href_spec(path), current: decimal(k) == cur }
}

/// Links to pages `1..=total`, current where the page text is `cur`.
pub fn page_links(route: &str, param: &str, total: usize, cur: &str) -> (r: Vec<PageLink>)
    ensures
        r@.len() == total,
        forall|i: int| 0 <= i < total ==> (#[trigger] r@[i])@ == link_spec(route@, param@, (i + 1) as nat, cur@),
{
    let mut out: Vec<PageLink> = Vec::new();
    let mut k: usize = 0;
    while k < total
        invariant
            k <= total,
            out@.len() == k,
            forall|i: int| 0 <= i < k ==> (#[trigger] out@[i])@ == link_spec(route@, param@, (i + 1) as nat, cur@),
        decreases total - k,
    {
        let page = usize_to_string(k + 1);
        let path = route_with_param(route, param, page.as_str());
        let href = absolute_href(path.as_str());
        let current = str_eq(page.as_str(), cur);
        out.push(PageLink { page, page_number: k + 1, path, href, current });
        k += 1;
    }
    out
}

/// Nav metadata of one page, with the item range `[start, end)` it holds.
#[derive(Debug, Clone)]
pub struct PageMeta {
    pub page: String,
    pub page_number: usize,
    pub total_pages: usize,
    pub total_items: usize,
    pub source_total: usize,
    pub per: usize,
    pub has_prev: bool,
    pub has_next: bool,
    pub prev: String,
    pub next: String,
    pub path: String,
    pub href: String,
    pub prev_href: String,
    pub next_href: String,
    pub first_href: String,
    pub last_href: String,
    pub pages: Vec<PageLink>,
    pub start: usize,
    pub end: usize,
}

pub struct PageMetaView {
    pub page: Seq<char>,
    pub page_number: nat,
    pub total_pages: nat,
    pub total_items: nat,
    pub source_total: nat,
    pub per: nat,
    pub has_prev: bool,
    pub has_next: bool,
    pub prev: Seq<char>,
    pub next: Seq<char>,
    pub path: Seq<char>,
    pub href: Seq<char>,
    pub prev_href: Seq<char>,
    pub next_href: Seq<char>,
    pub first_href: Seq<char>,
    pub last_href: Seq<char>,
    pub pages: Seq<PageLinkView>,
    pub start: nat,
    pub end: nat,
}

impl View for PageMeta {
    type V = PageMetaView;

    open spec fn view(&self) -> PageMetaView {
        PageMetaView {
            page: self.page@,
            page_number: self.page_number as nat,
            total_pages: self.total_pages as nat,
            total_items: self.total_items as nat,
            source_total: self.source_total as nat,
            per: self.per as nat,
            has_prev: self.has_prev,
            has_next: self.has_next,
            prev: self.prev@,
            next: self.next@,
            path: self.path@,
            href: self.href@,
            prev_href: self.prev_href@,
            next_href: self.next_href@,
            first_href: self.first_href@,
            last_href: self.last_href@,
            pages: self.pages@.map_values(|l: PageLink| l@),
            start: self.start as nat,
            end: self.end as nat,
        }
    }
}

/// Full page-number lists grow with the square of the page count; past this
/// many pages only first/prev/next/last hrefs are given.
pub const PAGES_NAV_LIMIT: usize = 200;

/// The nav list of a plan with `total` pages, seen from page text `cur`.
pub open spec fn nav_spec(route: Seq<char>, param: Seq<char>, total: nat, cur: Seq<char>) -> Seq<PageLinkView> {
    if total <= PAGES_NAV_LIMIT {
        Seq::new(total, |i: int| link_spec(route, param, (i + 1) as nat, cur))
    } else {
        Seq::empty()
    }
}

/// Page `p` (1-based) of a plan over `n` selected items.
pub open spec fn page_meta_spec(
    n: nat,
    source_total: nat,
    per: nat,
    total: nat,
    route: Seq<char>,
    param: Seq<char>,
    p: nat,
) -> PageMetaView {
    let page = decimal(p);
    let has_prev = p > 1;
    let has_next = p < total;
    let prev = if has_prev { decimal((p - 1) as nat) } else { Seq::empty() };
    let next = if has_next { decimal(p + 1) } else { Seq::empty() };
    let path = route_with_param_spec(route, param, page);
    let start = ((p - 1) * per) as nat;
    PageMetaView {
        page,
        page_number: p,
        total_pages: total,
        total_items: n,
        source_total,
        per,
        has_prev,
        has_next,
        prev,
        next,
        path,
        href: absolute_href_spec(path),
        prev_href: if has_prev { absolute_href_spec(route_with_param_spec(route, param, prev)) } else { Seq::empty() },
        next_href: if has_next { absolute_href_spec(route_with_param_spec(route, param, next)) } else { Seq::empty() },
        first_href: absolute_href_spec(route_with_param_spec(route, param, "1"@)),
        last_href: absolute_href_spec(route_with_param_spec(route, param, decimal(total))),
        pages: nav_spec(route, param, total, page),
        start,
        end: if start + per < n { start + per } else { n },
    }
}

/// The pages of a rule over `n` selected items (none when `n == 0`).
pub open spec fn plan_spec(n: nat, source_total: nat, page_size: nat, max_pages: nat, route: Seq<char>, param: Seq<char>) -> Seq<PageMetaView> {
    let per = if page_size == 0 { 1 } else { page_size };
    if n == 0 {
        Seq::empty()
    } else {
        let total = total_pages_spec(n, per, max_pages);
        Seq::new(total, |i: int| page_meta_spec(n, source_total, per, total, route, param, (i + 1) as nat))
    }
}

fn nav_links(route: &str, param: &str, total: usize, cur: &str) -> (r: Vec<PageLink>)
    ensures
        r@.map_values(|l: PageLink| l@) == nav_spec(route@, param@, total as nat, cur@),
{
    if total <= PAGES_NAV_LIMIT {
        let r = page_links(route, param, total, cur);
        proof {
            assert(r@.map_values(|l: PageLink| l@) =~= nav_spec(route@, param@, total as nat, cur@));
        }
        r
    } else {
        let r: Vec<PageLink> = Vec::new();
        proof {
            assert(r@.map_values(|l: PageLink| l@) =~= nav_spec(route@, param@, total as nat, cur@));
        }
        r
    }
}

fn page_meta(
    n: usize,
    source_total: usize,
    per: usize,
    total: usize,
    route: &str,
    param: &str,
    p: usize,
) -> (r: PageMeta)
    requires
        per > 0,
        1 <= p <= total,
        total <= div_ceil(n as nat, per as nat),
    ensures
        r@ == page_meta_spec(n as nat, source_total as nat, per as nat, total as nat, route@, param@, p as nat),
{
    proof {
        lemma_page_start(n as nat, per as nat, p as nat);
    }
    let start = (p - 1) * per;
    let end = if n - start > per { start + per } else { n };
    let page = usize_to_string(p);
    let has_prev = p > 1;
    let has_next = p < total;
    let prev = if has_prev { usize_to_string(p - 1) } else { String::new() };
    let next = if has_next { usize_to_string(p + 1) } else { String::new() };
    let path = route_with_param(route, param, page.as_str());
    let href = absolute_href(path.as_str());
    let prev_href = if has_prev {
        absolute_href(route_with_param(route, param, prev.as_str()).as_str())
    } else {
        String::new()
    };
    let next_href = if has_next {
        absolute_href(route_with_param(route, param, next.as_str()).as_str())
    } else {
        String::new()
    };
    let first_href = absolute_href(route_with_param(route, param, "1").as_str());
    let last_href = absolute_href(route_with_param(route, param, usize_to_string(total).as_str()).as_str());
    let pages = nav_links(route, param, total, page.as_str());
    let r = PageMeta {
        page,
        page_number: p,
        total_pages: total,
        total_items: n,
        source_total,
        per,
        has_prev,
        has_next,
        prev,
        next,
        path,
        href,
        prev_href,
        next_href,
        first_href,
        last_href,
        pages,
        start,
        end,
    };
    proof {
        assert(r@ =~= page_meta_spec(n as nat, source_total as nat, per as nat, total as nat, route@, param@, p as nat));
    }
    r
}

/// Plan the pages of `rule` over `n` selected items taken from `source_total`
/// source items, for the page template `route` with parameter `param`.
pub fn chunk_plan(n: usize, source_total: usize, rule: &PaginationRule, route: &str, param: &str) -> (r: Vec<PageMeta>)
    ensures
        r@.map_values(|m: PageMeta| m@) == plan_spec(
            n as nat,
            source_total as nat,
            rule.page_size as nat,
            rule.max_pages as nat,
            route@,
            param@,
        ),
{
    let per = if rule.page_size == 0 { 1 } else { rule.page_size };
    let mut out: Vec<PageMeta> = Vec::new();
    if n == 0 {
        proof {
            assert(out@.map_values(|m: PageMeta| m@) =~= Seq::<PageMetaView>::empty());
        }
        return out;
    }
    let q = n / per;
    proof {
        if per >= 2 {
            assert(q < n) by (nonlinear_arith)
                requires
                    per >= 2,
                    n > 0,
                    q == n / per,
            ;
        } else {
            assert(n % per == 0) by (nonlinear_arith)
                requires
                    per == 1,
            ;
        }
    }
    let full = if n % per == 0 { q } else { q + 1 };
    let total = if rule.max_pages > 0 && rule.max_pages < full { rule.max_pages } else { full };
    let ghost want = plan_spec(n as nat, source_total as nat, rule.page_size as nat, rule.max_pages as nat, route@, param@);
    let mut p: usize = 0;
    while p < total
        invariant
            p <= total,
            per > 0,
            per as nat == (if rule.page_size == 0 { 1 } else { rule.page_size as nat }),
            full as nat == div_ceil(n as nat, per as nat),
            total <= full,
            n > 0,
            total as nat == total_pages_spec(n as nat, per as nat, rule.max_pages as nat),
            want.len() == total,
            want == plan_spec(n as nat, source_total as nat, rule.page_size as nat, rule.max_pages as nat, route@, param@),
            out@.len() == p,
            forall|i: int| 0 <= i < p ==> (#[trigger] out@[i])@ == want[i],
        decreases total - p,
    {
        let m = page_meta(n, source_total, per, total, route, param, p + 1);
        out.push(m);
        p += 1;
    }
    proof {
        assert(out@.map_values(|m: PageMeta| m@) =~= want);
    }
    out
}

/// Nav paths and hrefs with `[locale]` filled in (the page list too).
pub open spec fn localize_link(l: PageLinkView, locale: Seq<char>) -> PageLinkView {
    PageLinkView { path: localize_spec(l.path, locale), href: localize_spec(l.href, locale), ..l }
}

pub open spec fn localize_meta(m: PageMetaView, locale: Seq<char>) -> PageMetaView {
    PageMetaView {
        path: localize_spec(m.path, locale),
        href: localize_spec(m.href, locale),
        prev_href: localize_spec(m.prev_href, locale),
        next_href: localize_spec(m.next_href, locale),
        first_href: localize_spec(m.first_href, locale),
        last_href: localize_spec(m.last_href, locale),
        pages: m.pages.map_values(|l: PageLinkView| localize_link(l, locale)),
        ..m
    }
}

/// Rewrite a page's nav paths/hrefs for a concrete locale.
pub fn apply_locale_to_meta(meta: &PageMeta, locale: &str) -> (r: PageMeta)
    ensures
        r@ == localize_meta(meta@, locale@),
{
    let mut pages: Vec<PageLink> = Vec::new();
    let mut i: usize = 0;
    while i < meta.pages.len()
        invariant
            i <= meta.pages@.len(),
            pages@.len() == i,
            forall|j: int| 0 <= j < i ==> (#[trigger] pages@[j])@ == localize_link(meta.pages@[j]@, locale@),
        decreases meta.pages@.len() - i,
    {
        let l = &meta.pages[i];
        pages.push(PageLink {
            page: String::from_str(l.page.as_str()),
            page_number: l.page_number,
            path: localize_route_token(l.path.as_str(), locale),
            href: localize_route_token(l.href.as_str(), locale),
            current: l.current,
        });
        i += 1;
    }
    let r = PageMeta {
        page: String::from_str(meta.page.as_str()),
        page_number: meta.page_number,
        total_pages: meta.total_pages,
        total_items: meta.total_items,
        source_total: meta.source_total,
        per: meta.per,
        has_prev: meta.has_prev,
        has_next: meta.has_next,
        prev: String::from_str(meta.prev.as_str()),
        next: String::from_str(meta.next.as_str()),
        path: localize_route_token(meta.path.as_str(), locale),
        href: localize_route_token(meta.href.as_str(), locale),
        prev_href: localize_route_token(meta.prev_href.as_str(), locale),
        next_href: localize_route_token(meta.next_href.as_str(), locale),
        first_href: localize_route_token(meta.first_href.as_str(), locale),
        last_href: localize_route_token(meta.last_href.as_str(), locale),
        pages,
        start: meta.start,
        end: meta.end,
    };
    proof {
        assert(r@.pages =~= meta@.pages.map_values(|l: PageLinkView| localize_link(l, locale@)));
        assert(r@ =~= localize_meta(meta@, locale@));
    }
    r
}

// ---------------------------------------------------------------------------
// Laws of the plan

proof fn lemma_ceil_cover(n: nat, per: nat)
    requires
        per > 0,
        n > 0,
    ensures
        div_ceil(n, per) >= 1,
        div_ceil(n, per) * per >= n,
{
    let q = n / per;
    let r = n % per;
    assert(n == q * per + r && 0 <= r < per) by (nonlinear_arith)
        requires
            per > 0,
            q == n / per,
            r == n % per,
    ;
    if r == 0 {
        assert(q >= 1) by (nonlinear_arith)
            requires
                n == q * per,
                n > 0,
                per > 0,
        ;
    } else {
        assert((q + 1) * per == q * per + per) by (nonlinear_arith);
    }
}

/// The pages split the selected items into consecutive runs: the first page
/// starts at the first item, each page starts where the previous one ended,
/// holds between one and `page_size` items, and is numbered in order; with
/// no page cap the last page ends at the last item.
pub proof fn law_pages_partition_items(
    n: nat,
    source_total: nat,
    page_size: nat,
    max_pages: nat,
    route: Seq<char>,
    param: Seq<char>,
)
    requires
        n > 0,
    ensures
        ({
            let ps = plan_spec(n, source_total, page_size, max_pages, route, param);
            let per = if page_size == 0 { 1 } else { page_size };
            &&& ps.len() >= 1
            &&& ps[0].start == 0
            &&& forall|i: int| 0 <= i < ps.len() - 1 ==> #[trigger] ps[i].end == ps[i + 1].start
            &&& forall|i: int| 0 <= i < ps.len() ==> #[trigger] ps[i].start < ps[i].end && ps[i].end <= ps[i].start + per
            &&& forall|i: int| 0 <= i < ps.len() ==> #[trigger] ps[i].page_number == i + 1 && ps[i].total_pages == ps.len()
            &&& max_pages == 0 ==> ps[ps.len() - 1].end == n
        }),
{
    let per: nat = if page_size == 0 { 1 } else { page_size };
    let ps = plan_spec(n, source_total, page_size, max_pages, route, param);
    let total = total_pages_spec(n, per, max_pages);
    lemma_ceil_cover(n, per);
    assert(total >= 1);
    assert(ps[0].start == 0) by {
        assert(((1 - 1) * per) as nat == 0) by (nonlinear_arith);
    }
    assert forall|i: int| 0 <= i < ps.len() implies #[trigger] ps[i].start < ps[i].end && ps[i].end <= ps[i].start + per by {
        lemma_page_start(n, per, (i + 1) as nat);
    }
    assert forall|i: int| 0 <= i < ps.len() - 1 implies #[trigger] ps[i].end == ps[i + 1].start by {
        lemma_page_start(n, per, (i + 2) as nat);
        assert(((i + 2 - 1) * per) == ((i + 1 - 1) * per) + per) by (nonlinear_arith);
    }
    if max_pages == 0 {
        let last = (total - 1) as int;
        lemma_page_start(n, per, total);
        assert(((total - 1) * per) + per == total * per) by (nonlinear_arith);
        assert(ps[last].end == n);
    }
}

/// The pages `chunk_items` makes: none when selection leaves no item;
/// otherwise as many as the selected items need at `page_size` per page
/// (capped by `max_pages`). Page `k` (from 0) is named `k + 1` and holds
/// the selected items `[k * per, min((k + 1) * per, len))`; its object
/// reports the page count, whether a previous and a next page exist, the
/// last page's href, and the item count before selection.
pub proof fn law_chunks_partition_selected_items(
    items: Seq<JsonView>,
    rule: PaginationRule,
    route: Seq<char>,
    param: Seq<char>,
)
    ensures
        ({
            let sel = select_items_spec(items, rule);
            let per: nat = if rule.page_size == 0 { 1 } else { rule.page_size as nat };
            let tp = total_pages_spec(sel.len(), per, rule.max_pages as nat);
            let plan = plan_spec(sel.len(), items.len(), rule.page_size as nat, rule.max_pages as nat, route, param);
            let cs = chunks_spec(items, rule, route, param);
            &&& sel.len() == 0 ==> cs.len() == 0
            &&& sel.len() > 0 ==> cs.len() == tp && tp >= 1
            &&& forall|k: int|
                0 <= k < cs.len() ==> {
                    let m = #[trigger] plan[k];
                    let hi = if (k + 1) * per < sel.len() { (k + 1) * per } else { sel.len() as int };
                    &&& cs[k].0 == decimal((k + 1) as nat)
                    &&& m.page == decimal((k + 1) as nat)
                    &&& cs[k].1 == pagination_value_spec(m, rule, sel.subrange(k * per, hi))
                    &&& m.total_pages == tp
                    &&& m.has_prev == (k > 0)
                    &&& m.has_next == (k + 1 < tp)
                    &&& m.last_href == plan[tp - 1].href
                    &&& m.source_total == items.len()
                }
        }),
{
    let sel = select_items_spec(items, rule);
    let per: nat = if rule.page_size == 0 { 1 } else { rule.page_size as nat };
    let tp = total_pages_spec(sel.len(), per, rule.max_pages as nat);
    let plan = plan_spec(sel.len(), items.len(), rule.page_size as nat, rule.max_pages as nat, route, param);
    let cs = chunks_spec(items, rule, route, param);
    if sel.len() > 0 {
        lemma_ceil_cover(sel.len(), per);
        assert forall|k: int| 0 <= k < cs.len() implies {
            let m = #[trigger] plan[k];
            let hi = if (k + 1) * per < sel.len() { (k + 1) * per } else { sel.len() as int };
            &&& cs[k].0 == decimal((k + 1) as nat)
            &&& m.page == decimal((k + 1) as nat)
            &&& cs[k].1 == pagination_value_spec(m, rule, sel.subrange(k * per, hi))
            &&& m.total_pages == tp
            &&& m.has_prev == (k > 0)
            &&& m.has_next == (k + 1 < tp)
            &&& m.last_href == plan[tp - 1].href
            &&& m.source_total == items.len()
        } by {
            let p = (k + 1) as nat;
            assert((p - 1) * per == k * per) by (nonlinear_arith)
                requires
                    p == k + 1,
                    k >= 0,
            ;
            assert(k * per + per == (k + 1) * per) by (nonlinear_arith);
            assert(plan[k].start == k * per);
        }
    }
}

/// Without a cap, the page count is the item count divided by the page size,
/// rounded up.
pub proof fn law_page_count(n: nat, source_total: nat, page_size: nat, route: Seq<char>, param: Seq<char>)
    requires
        n > 0,
    ensures
        plan_spec(n, source_total, page_size, 0, route, param).len() == div_ceil(n, if page_size == 0 { 1 } else { page_size }),
{
}

// ---------------------------------------------------------------------------
// Which rule applies to a route

/// `/`s trimmed from both ends.
pub open spec fn trim_slashes(s: Seq<char>) -> Seq<char> {
    crate::text::trim_end_char(crate::text::trim_start_char(s, '/'), '/')
}

/// The listing root of a rule route: the part before `/[page]`, or the whole
/// route, with `/`s trimmed.
pub open spec fn rule_root_spec(route: Seq<char>) -> Seq<char> {
    match find_from(route, "/[page]"@, 0) {
        Some(k) => trim_slashes(route.take(k)),
        None => trim_slashes(route),
    }
}

fn trim_slashes_range(v: &[char], lo: usize, hi: usize) -> (r: String)
    requires
        lo <= hi <= v@.len(),
    ensures
        r@ == trim_slashes(v@.subrange(lo as int, hi as int)),
{
    let a = crate::text::skip_char_run(v, lo, hi, '/');
    let b = crate::text::drop_char_run_end(v, a, hi, '/');
    string_range(v, a, b)
}

pub fn pagination_rule_root(route: &str) -> (r: String)
    ensures
        r@ == rule_root_spec(route@),
{
    let v = chars_of(route);
    let pat = chars_of("/[page]");
    proof {
        assert(v@.subrange(0, v@.len() as int) =~= v@);
        crate::text::lemma_find_from_bounds(v@, pat@, 0);
    }
    match crate::text::find_at(v.as_slice(), 0, pat.as_slice()) {
        Some(k) => {
            proof {
                assert(v@.subrange(0, k as int) =~= v@.take(k as int));
            }
            trim_slashes_range(v.as_slice(), 0, k)
        },
        None => trim_slashes_range(v.as_slice(), 0, v.len()),
    }
}

/// Whether a page route is served by a rule: the same route, or a route
/// under the rule's listing root with a `[page]` segment.
pub open spec fn rule_matches_spec(rule_route: Seq<char>, route: Seq<char>) -> bool {
    if rule_route.len() > 0 && rule_route == route {
        true
    } else {
        let root = rule_root_spec(rule_route);
        if root.len() == 0 {
            split_on(route, '/').contains("[page]"@)
        } else if has_prefix(route, root) {
            let tail = route.skip(root.len() as int);
            has_prefix(tail, "/"@) && split_on(tail, '/').contains("[page]"@)
        } else {
            false
        }
    }
}

/// A `/`-separated segment of `v[lo..hi]` equals `seg`.
fn has_segment(v: &[char], lo: usize, hi: usize, seg: &str) -> (r: bool)
    requires
        lo <= hi <= v@.len(),
    ensures
        r == split_on(v@.subrange(lo as int, hi as int), '/').contains(seg@),
{
    let sv = chars_of(seg);
    let parts = split_ranges(v, lo, hi, '/');
    let ghost ps = split_on(v@.subrange(lo as int, hi as int), '/');
    let mut i: usize = 0;
    while i < parts.len()
        invariant
            i <= parts@.len(),
            hi <= v@.len(),
            ps == split_on(v@.subrange(lo as int, hi as int), '/'),
            parts@.len() == ps.len(),
            sv@ == seg@,
            forall|k: int|
                0 <= k < parts@.len() ==> {
                    &&& lo <= (#[trigger] parts@[k]).0 <= parts@[k].1 <= hi
                    &&& v@.subrange(parts@[k].0 as int, parts@[k].1 as int) == ps[k]
                },
            forall|k: int| 0 <= k < i ==> ps[k] != seg@,
        decreases parts@.len() - i,
    {
        let (a, b) = parts[i];
        if crate::text::range_eq(v, a, b, sv.as_slice()) {
            proof {
                assert(ps[i as int] == seg@);
            }
            return true;
        }
        i += 1;
    }
    false
}

pub fn pagination_rule_matches_route(rule: &PaginationRule, route: &str) -> (r: bool)
    ensures
        r == rule_matches_spec(rule.route@, route@),
{
    if rule.route.unicode_len() > 0 && str_eq(rule.route.as_str(), route) {
        return true;
    }
    let root = pagination_rule_root(rule.route.as_str());
    let v = chars_of(route);
    proof {
        assert(v@.subrange(0, v@.len() as int) =~= v@);
    }
    if root.unicode_len() == 0 {
        return has_segment(v.as_slice(), 0, v.len(), "[page]");
    }
    let rv = chars_of(root.as_str());
    if rv.len() <= v.len() && crate::text::matches_at(v.as_slice(), 0, rv.as_slice()) {
        let n = rv.len();
        proof {
            assert(v@.subrange(0, rv@.len() as int) == rv@);
            assert(v@.skip(n as int) =~= v@.subrange(n as int, v@.len() as int));
            reveal_strlit("/");
        }
        let starts = n < v.len() && v[n] == '/';
        proof {
            let tail = v@.skip(n as int);
            if has_prefix(tail, "/"@) {
                assert(tail.subrange(0, 1)[0] == v@[n as int]);
            }
            if starts {
                assert(tail.subrange(0, 1) =~= "/"@);
            }
        }
        if !starts {
            return false;
        }
        has_segment(v.as_slice(), n, v.len(), "[page]")
    } else {
        proof {
            if has_prefix(route@, root@) {
                assert(v@.subrange(0, rv@.len() as int) == rv@);
            }
        }
        false
    }
}

/// The first rule serving `route`.
pub open spec fn rule_for_spec(rules: Seq<Seq<char>>, route: Seq<char>) -> Option<int>
    decreases rules.len(),
{
    if rules.len() == 0 {
        None
    } else if rule_matches_spec(rules[0], route) {
        Some(0)
    } else {
        match rule_for_spec(rules.drop_first(), route) {
            Some(i) => Some(i + 1),
            None => None,
        }
    }
}

pub open spec fn rule_routes(rules: Seq<PaginationRule>) -> Seq<Seq<char>> {
    rules.map_values(|r: PaginationRule| r.route@)
}

/// Index of the first rule serving `route`.
pub fn pagination_for(rules: &Vec<PaginationRule>, route: &str) -> (r: Option<usize>)
    ensures
        match r {
            Some(i) => i < rules@.len() && rule_for_spec(rule_routes(rules@), route@) == Some(i as int),
            None => rule_for_spec(rule_routes(rules@), route@) is None,
        },
{
    let ghost rr = rule_routes(rules@);
    let mut i: usize = 0;
    proof {
        assert(rr.skip(0) =~= rr);
    }
    while i < rules.len()
        invariant
            i <= rules@.len(),
            rr == rule_routes(rules@),
            rule_for_spec(rr, route@) == match rule_for_spec(rr.skip(i as int), route@) {
                Some(k) => Some(k + i),
                None => None,
            },
        decreases rules@.len() - i,
    {
        proof {
            assert(rr.skip(i as int).drop_first() =~= rr.skip(i + 1));
            assert(rr.skip(i as int)[0] == rules@[i as int].route@);
        }
        if pagination_rule_matches_route(&rules[i], route) {
            return Some(i);
        }
        i += 1;
    }
    None
}

/// The listing route of a paginated page: the rule's route when it has a
/// `[page]` segment, else the page route up to its `[param]` segment.
pub open spec fn listing_route_spec(rule_route: Seq<char>, page_route: Seq<char>, param: Seq<char>) -> Seq<char> {
    if split_on(rule_route, '/').contains("[page]"@) {
        rule_route
    } else {
        join(upto_key(split_on(page_route, '/'), param_key(param)), "/"@)
    }
}

/// Segments up to and including the first `key`.
pub open spec fn upto_key(parts: Seq<Seq<char>>, key: Seq<char>) -> Seq<Seq<char>>
    decreases parts.len(),
{
    if parts.len() == 0 {
        Seq::empty()
    } else if parts[0] == key {
        seq![parts[0]]
    } else {
        seq![parts[0]] + upto_key(parts.drop_first(), key)
    }
}

pub fn pagination_listing_route(rule_route: &str, page_route: &str, page_param: &str) -> (r: String)
    ensures
        r@ == listing_route_spec(rule_route@, page_route@, page_param@),
{
    let rv = chars_of(rule_route);
    proof {
        assert(rv@.subrange(0, rv@.len() as int) =~= rv@);
    }
    if has_segment(rv.as_slice(), 0, rv.len(), "[page]") {
        return String::from_str(rule_route);
    }
    let key = key_of(page_param);
    let v = chars_of(page_route);
    let parts = split_ranges(v.as_slice(), 0, v.len(), '/');
    let ghost ps = split_on(v@, '/');
    proof {
        assert(v@.subrange(0, v@.len() as int) =~= v@);
        assert(ps.skip(0) =~= ps);
    }
    let mut out: Vec<String> = Vec::new();
    let mut i: usize = 0;
    while i < parts.len()
        invariant
            i <= parts@.len(),
            parts@.len() == ps.len(),
            ps == split_on(v@, '/'),
            v@ == page_route@,
            !split_on(rule_route@, '/').contains("[page]"@),
            key@ == param_key(page_param@),
            forall|k: int|
                0 <= k < parts@.len() ==> {
                    &&& (#[trigger] parts@[k]).0 <= parts@[k].1 <= v@.len()
                    &&& v@.subrange(parts@[k].0 as int, parts@[k].1 as int) == ps[k]
                },
            upto_key(ps, key@) == views(out@) + upto_key(ps.skip(i as int), key@),
        decreases parts@.len() - i,
    {
        let (a, b) = parts[i];
        proof {
            assert(ps.skip(i as int).drop_first() =~= ps.skip(i + 1));
            assert(ps.skip(i as int)[0] == ps[i as int]);
        }
        let ghost before = views(out@);
        out.push(string_range(v.as_slice(), a, b));
        if crate::text::range_eq(v.as_slice(), a, b, key.as_slice()) {
            proof {
                assert(views(out@) =~= before + seq![ps[i as int]]);
                assert(upto_key(ps.skip(i as int), key@) =~= seq![ps[i as int]]);
            }
            return join_strings(&out, "/");
        }
        proof {
            assert(views(out@) + upto_key(ps.skip(i + 1), key@) =~= before + upto_key(ps.skip(i as int), key@));
        }
        i += 1;
    }
    proof {
        assert(ps.skip(parts@.len() as int) =~= Seq::<Seq<char>>::empty());
        assert(views(out@) + Seq::<Seq<char>>::empty() =~= views(out@));
    }
    join_strings(&out, "/")
}

// ---------------------------------------------------------------------------
// Sorting and selecting items

/// With `desc`, `a` may stand before `b` when `b <= a`; otherwise when `a <= b`.
pub open spec fn precedes(a: Seq<char>, b: Seq<char>, desc: bool) -> bool {
    if desc {
        lex_le(b, a)
    } else {
        lex_le(a, b)
    }
}

/// Where a stable sort places an item with key `k` after the sorted `s`:
/// behind the last entry that may precede it.
pub open spec fn insert_pos(s: Seq<(Seq<char>, JsonView)>, k: Seq<char>, desc: bool) -> nat
    decreases s.len(),
{
    if s.len() == 0 {
        0
    } else if precedes(s.last().0, k, desc) {
        s.len()
    } else {
        insert_pos(s.drop_last(), k, desc)
    }
}

pub proof fn lemma_insert_pos_bound(s: Seq<(Seq<char>, JsonView)>, k: Seq<char>, desc: bool)
    ensures
        insert_pos(s, k, desc) <= s.len(),
    decreases s.len(),
{
    if s.len() > 0 {
        lemma_insert_pos_bound(s.drop_last(), k, desc);
    }
}

/// Keyed items in stable sorted order (`slice::sort_by` on the keys).
pub open spec fn sort_keyed(s: Seq<(Seq<char>, JsonView)>, desc: bool) -> Seq<(Seq<char>, JsonView)>
    decreases s.len(),
{
    if s.len() == 0 {
        Seq::empty()
    } else {
        let t = sort_keyed(s.drop_last(), desc);
        t.insert(insert_pos(t, s.last().0, desc) as int, s.last())
    }
}

/// The sort key of an item: its field as text, empty when missing or `null`.
pub open spec fn sort_key_spec(v: JsonView, field: Seq<char>) -> Seq<char> {
    match field_as_str_spec(v, field) {
        Some(s) => s,
        None => Seq::empty(),
    }
}

/// Items paired with their sort keys.
pub open spec fn keyed(vs: Seq<JsonView>, field: Seq<char>) -> Seq<(Seq<char>, JsonView)> {
    Seq::new(vs.len(), |i: int| (sort_key_spec(vs[i], field), vs[i]))
}

/// Items sorted by `field`.
pub open spec fn sorted_items_spec(vs: Seq<JsonView>, field: Seq<char>, desc: bool) -> Seq<JsonView> {
    sort_keyed(keyed(vs, field), desc).map_values(|p: (Seq<char>, JsonView)| p.1)
}

/// Sort (when `sort_by` is set) → offset → limit.
pub open spec fn select_items_spec(vs: Seq<JsonView>, rule: PaginationRule) -> Seq<JsonView> {
    let sorted = if rule.sort_by@.len() == 0 {
        vs
    } else {
        sorted_items_spec(vs, rule.sort_by@, rule.sort_desc)
    };
    let (a, b) = select_range_spec(sorted.len(), rule.offset as nat, rule.limit as nat);
    sorted.subrange(a as int, b as int)
}

fn key_precedes(a: &str, b: &str, desc: bool) -> (r: bool)
    ensures
        r == precedes(a@, b@, desc),
{
    if desc {
        str_le(b, a)
    } else {
        str_le(a, b)
    }
}

/// Insert `x` into the sorted `out` behind every entry that may precede it.
fn insert_keyed(out: &mut Vec<(String, Value)>, x: (String, Value), desc: bool)
    ensures
        members_view(final(out)@) == members_view(old(out)@).insert(
            insert_pos(members_view(old(out)@), x.0@, desc) as int,
            (x.0@, x.1@),
        ),
{
    let ghost kv = members_view(out@);
    let mut j = out.len();
    proof {
        assert(kv.take(j as int) =~= kv);
    }
    while j > 0 && !key_precedes(out[j - 1].0.as_str(), x.0.as_str(), desc)
        invariant
            j <= out@.len(),
            kv == members_view(out@),
            insert_pos(kv, x.0@, desc) == insert_pos(kv.take(j as int), x.0@, desc),
        decreases j,
    {
        proof {
            assert(kv.take(j as int).last() == kv[j - 1]);
            assert(kv.take(j as int).drop_last() =~= kv.take(j - 1));
        }
        j -= 1;
    }
    proof {
        if j > 0 {
            assert(kv.take(j as int).last() == kv[j - 1]);
        }
        lemma_insert_pos_bound(kv, x.0@, desc);
    }
    let ghost before = out@;
    let ghost xv = (x.0@, x.1@);
    out.insert(j, x);
    proof {
        assert(members_view(out@) =~= kv.insert(j as int, xv));
    }
}

/// `items` stably sorted by `field` (descending with `desc`).
pub fn sort_items(items: &[Value], field: &str, desc: bool) -> (r: Vec<Value>)
    ensures
        elems_view(r@) == sorted_items_spec(elems_view(items@), field@, desc),
{
    let ghost vs = elems_view(items@);
    let mut out: Vec<(String, Value)> = Vec::new();
    let mut i: usize = 0;
    proof {
        assert(keyed(vs, field@).take(0) =~= Seq::<(Seq<char>, JsonView)>::empty());
    }
    while i < items.len()
        invariant
            i <= items@.len(),
            vs == elems_view(items@),
            members_view(out@) == sort_keyed(keyed(vs, field@).take(i as int), desc),
        decreases items@.len() - i,
    {
        let k = match field_as_str(&items[i], field) {
            Some(s) => s,
            None => String::new(),
        };
        let v = items[i].copy();
        proof {
            let ks = keyed(vs, field@).take(i + 1);
            assert(ks.drop_last() =~= keyed(vs, field@).take(i as int));
            assert(ks.last() == (k@, v@));
        }
        insert_keyed(&mut out, (k, v), desc);
        i += 1;
    }
    proof {
        assert(keyed(vs, field@).take(i as int) =~= keyed(vs, field@));
    }
    let mut res: Vec<Value> = Vec::new();
    let mut j: usize = 0;
    while j < out.len()
        invariant
            j <= out@.len(),
            res@.len() == j,
            forall|k: int| 0 <= k < j ==> (#[trigger] res@[k])@ == out@[k].1@,
        decreases out@.len() - j,
    {
        res.push(out[j].1.copy());
        j += 1;
    }
    proof {
        assert(elems_view(res@) =~= members_view(out@).map_values(|p: (Seq<char>, JsonView)| p.1));
    }
    res
}

/// Sort → offset → limit, then return the working item list.
pub fn select_items(items: &[Value], rule: &PaginationRule) -> (r: Vec<Value>)
    ensures
        elems_view(r@) == select_items_spec(elems_view(items@), *rule),
{
    let sorted: Vec<Value> = if rule.sort_by.unicode_len() == 0 {
        crate::funnel::value::copy_values(items)
    } else {
        sort_items(items, rule.sort_by.as_str(), rule.sort_desc)
    };
    let ghost sv = elems_view(sorted@);
    let (a, b) = select_range(sorted.len(), rule);
    let mut out: Vec<Value> = Vec::new();
    let mut k = a;
    while k < b
        invariant
            a <= k <= b <= sorted@.len(),
            out@.len() == k - a,
            forall|t: int| 0 <= t < out@.len() ==> (#[trigger] out@[t])@ == sorted@[a + t]@,
        decreases b - k,
    {
        out.push(sorted[k].copy());
        k += 1;
    }
    proof {
        assert(elems_view(out@) =~= elems_view(sorted@).subrange(a as int, b as int));
    }
    out
}

/// Every key may precede every later key.
pub open spec fn keys_ordered(t: Seq<(Seq<char>, JsonView)>, desc: bool) -> bool {
    forall|i: int, j: int| 0 <= i < j < t.len() ==> precedes(#[trigger] t[i].0, #[trigger] t[j].0, desc)
}

proof fn lemma_precedes_total(a: Seq<char>, b: Seq<char>, desc: bool)
    ensures
        precedes(a, b, desc) || precedes(b, a, desc),
{
    crate::text::lemma_lex_le_total(a, b);
}

proof fn lemma_precedes_trans(a: Seq<char>, b: Seq<char>, c: Seq<char>, desc: bool)
    requires
        precedes(a, b, desc),
        precedes(b, c, desc),
    ensures
        precedes(a, c, desc),
{
    if desc {
        crate::text::lemma_lex_le_trans(c, b, a);
    } else {
        crate::text::lemma_lex_le_trans(a, b, c);
    }
}

proof fn lemma_insert_pos_props(t: Seq<(Seq<char>, JsonView)>, k: Seq<char>, desc: bool)
    ensures
        insert_pos(t, k, desc) <= t.len(),
        insert_pos(t, k, desc) > 0 ==> precedes(t[insert_pos(t, k, desc) - 1].0, k, desc),
        forall|i: int| insert_pos(t, k, desc) <= i < t.len() ==> !precedes(#[trigger] t[i].0, k, desc),
    decreases t.len(),
{
    if t.len() > 0 && !precedes(t.last().0, k, desc) {
        lemma_insert_pos_props(t.drop_last(), k, desc);
        let p = insert_pos(t, k, desc);
        assert forall|i: int| p <= i < t.len() implies !precedes(#[trigger] t[i].0, k, desc) by {
            if i < t.len() - 1 {
                assert(t.drop_last()[i] == t[i]);
            }
        }
    }
}

proof fn lemma_sort_keyed_ordered(s: Seq<(Seq<char>, JsonView)>, desc: bool)
    ensures
        keys_ordered(sort_keyed(s, desc), desc),
        sort_keyed(s, desc).to_multiset() == s.to_multiset(),
    decreases s.len(),
{
    if s.len() > 0 {
        let t = sort_keyed(s.drop_last(), desc);
        lemma_sort_keyed_ordered(s.drop_last(), desc);
        let x = s.last();
        let p = insert_pos(t, x.0, desc) as int;
        lemma_insert_pos_props(t, x.0, desc);
        let u = t.insert(p, x);
        assert forall|i: int, j: int| 0 <= i < j < u.len() implies precedes(#[trigger] u[i].0, #[trigger] u[j].0, desc) by {
            if i < p && j < p {
                assert(u[i] == t[i] && u[j] == t[j]);
            } else if i < p && j == p {
                assert(u[i] == t[i]);
                if i < p - 1 {
                    lemma_precedes_trans(t[i].0, t[p - 1].0, x.0, desc);
                }
            } else if i < p && j > p {
                assert(u[i] == t[i] && u[j] == t[j - 1]);
            } else if i == p {
                assert(u[j] == t[j - 1]);
                lemma_precedes_total(t[j - 1].0, x.0, desc);
            } else {
                assert(u[i] == t[i - 1] && u[j] == t[j - 1]);
            }
        }
        broadcast use vstd::seq_lib::group_to_multiset_ensures;
        assert(s =~= s.drop_last() + seq![x]);
        vstd::seq_lib::lemma_multiset_commutative(s.drop_last(), seq![x]);
        assert(t.take(p) + seq![x] + t.skip(p) =~= u);
        vstd::seq_lib::lemma_multiset_commutative(t.take(p), seq![x]);
        vstd::seq_lib::lemma_multiset_commutative(t.take(p) + seq![x], t.skip(p));
        vstd::seq_lib::lemma_multiset_commutative(t.take(p), t.skip(p));
        assert(t.take(p) + t.skip(p) =~= t);
        assert(u.to_multiset() =~= s.to_multiset());
    } else {
        broadcast use vstd::seq_lib::group_to_multiset_ensures;
        assert(s =~= Seq::<(Seq<char>, JsonView)>::empty());
        assert(sort_keyed(s, desc) =~= Seq::<(Seq<char>, JsonView)>::empty());
    }
}

/// Sorting by `sort_by` keeps every item exactly once and puts them in key
/// order: ascending, or descending with `sort_desc`.
pub proof fn law_sorted_items_follow_key_order(vs: Seq<JsonView>, field: Seq<char>, desc: bool)
    ensures
        keys_ordered(sort_keyed(keyed(vs, field), desc), desc),
        sort_keyed(keyed(vs, field), desc).to_multiset() == keyed(vs, field).to_multiset(),
        sorted_items_spec(vs, field, desc).len() == vs.len(),
{
    broadcast use vstd::seq_lib::group_to_multiset_ensures;
    lemma_sort_keyed_ordered(keyed(vs, field), desc);
    assert(sort_keyed(keyed(vs, field), desc).to_multiset().len() == keyed(vs, field).to_multiset().len());
}

// ---------------------------------------------------------------------------
// Page objects

/// One emitted pagination page (folder = `page` string).
#[derive(Debug)]
pub struct PageChunk {
    pub page: String,
    pub value: Value,
}

/// A count as a JSON number.
pub open spec fn num(n: nat) -> JsonView {
    JsonView::Number(decimal(n))
}

/// A text as a JSON string.
pub open spec fn jstr(s: Seq<char>) -> JsonView {
    JsonView::String(s)
}

/// A page-number nav entry as an object.
pub open spec fn link_value_spec(l: PageLinkView) -> JsonView {
    JsonView::Object(
        seq![
            ("page"@, jstr(l.page)),
            ("page_number"@, num(l.page_number)),
            ("path"@, jstr(l.path)),
            ("href"@, jstr(l.href)),
            ("current"@, JsonView::Bool(l.current)),
        ],
    )
}

/// The nav members of a page object.
pub open spec fn nav_members(m: PageMetaView) -> Seq<(Seq<char>, JsonView)> {
    seq![
        ("has_prev"@, JsonView::Bool(m.has_prev)),
        ("has_next"@, JsonView::Bool(m.has_next)),
        ("prev"@, jstr(m.prev)),
        ("next"@, jstr(m.next)),
        ("path"@, jstr(m.path)),
        ("href"@, jstr(m.href)),
        ("prev_href"@, jstr(m.prev_href)),
        ("next_href"@, jstr(m.next_href)),
        ("first_href"@, jstr(m.first_href)),
        ("last_href"@, jstr(m.last_href)),
        ("pages"@, JsonView::Array(m.pages.map_values(|l: PageLinkView| link_value_spec(l)))),
    ]
}

/// The counting members of a page object.
pub open spec fn count_members(m: PageMetaView, rule: PaginationRule) -> Seq<(Seq<char>, JsonView)> {
    seq![
        ("page"@, jstr(m.page)),
        ("page_number"@, num(m.page_number)),
        ("total_pages"@, num(m.total_pages)),
        ("total_items"@, num(m.total_items)),
        ("source_total"@, num(m.source_total)),
        ("per_page"@, num(m.per)),
        ("page_size"@, num(m.per)),
        ("limit"@, num(rule.limit as nat)),
        ("offset"@, num(rule.offset as nat)),
        ("sort_by"@, jstr(rule.sort_by@)),
        ("sort_desc"@, JsonView::Bool(rule.sort_desc)),
        ("max_pages"@, num(rule.max_pages as nat)),
    ]
}

/// The object a page template reads at `page.pagination`: counts, the
/// rule's settings, nav links, and the page's `items`.
pub open spec fn pagination_value_spec(m: PageMetaView, rule: PaginationRule, items: Seq<JsonView>) -> JsonView {
    JsonView::Object(count_members(m, rule) + nav_members(m) + seq![("items"@, JsonView::Array(items))])
}

fn field_entry(f: PaginationField, v: Value) -> (r: (String, Value))
    ensures
        r.0@ == field_name(f),
        r.1@ == v@,
{
    (String::from_str(f.as_str()), v)
}

fn num_value(n: usize) -> (r: Value)
    ensures
        r@ == num(n as nat),
{
    Value::Number(usize_to_string(n))
}

fn str_value(s: &str) -> (r: Value)
    ensures
        r@ == jstr(s@),
{
    Value::String(String::from_str(s))
}

fn link_value(l: &PageLink) -> (r: Value)
    ensures
        r@ == link_value_spec(l@),
{
    let mut obj: Vec<(String, Value)> = Vec::new();
    obj.push(field_entry(PaginationField::Page, str_value(l.page.as_str())));
    obj.push(field_entry(PaginationField::PageNumber, num_value(l.page_number)));
    obj.push(field_entry(PaginationField::Path, str_value(l.path.as_str())));
    obj.push(field_entry(PaginationField::Href, str_value(l.href.as_str())));
    obj.push(field_entry(PaginationField::Current, Value::Bool(l.current)));
    proof {
        assert(members_view(obj@) =~= seq![
            ("page"@, jstr(l@.page)),
            ("page_number"@, num(l@.page_number)),
            ("path"@, jstr(l@.path)),
            ("href"@, jstr(l@.href)),
            ("current"@, JsonView::Bool(l@.current)),
        ]);
    }
    Value::Object(obj)
}

fn count_entries(m: &PageMeta, rule: &PaginationRule) -> (r: Vec<(String, Value)>)
    ensures
        members_view(r@) == count_members(m@, *rule),
{
    let mut obj: Vec<(String, Value)> = Vec::new();
    obj.push(field_entry(PaginationField::Page, str_value(m.page.as_str())));
    obj.push(field_entry(PaginationField::PageNumber, num_value(m.page_number)));
    obj.push(field_entry(PaginationField::TotalPages, num_value(m.total_pages)));
    obj.push(field_entry(PaginationField::TotalItems, num_value(m.total_items)));
    obj.push(field_entry(PaginationField::SourceTotal, num_value(m.source_total)));
    obj.push(field_entry(PaginationField::PerPage, num_value(m.per)));
    obj.push(field_entry(PaginationField::PageSize, num_value(m.per)));
    obj.push(field_entry(PaginationField::Limit, num_value(rule.limit)));
    obj.push(field_entry(PaginationField::Offset, num_value(rule.offset)));
    obj.push(field_entry(PaginationField::SortBy, str_value(rule.sort_by.as_str())));
    obj.push(field_entry(PaginationField::SortDesc, Value::Bool(rule.sort_desc)));
    obj.push(field_entry(PaginationField::MaxPages, num_value(rule.max_pages)));
    proof {
        assert(members_view(obj@) =~= count_members(m@, *rule));
    }
    obj
}

fn nav_entries(m: &PageMeta) -> (r: Vec<(String, Value)>)
    ensures
        members_view(r@) == nav_members(m@),
{
    let mut links: Vec<Value> = Vec::new();
    let mut i: usize = 0;
    while i < m.pages.len()
        invariant
            i <= m.pages@.len(),
            links@.len() == i,
            forall|k: int| 0 <= k < i ==> (#[trigger] links@[k])@ == link_value_spec(m.pages@[k]@),
        decreases m.pages@.len() - i,
    {
        links.push(link_value(&m.pages[i]));
        i += 1;
    }
    proof {
        assert(elems_view(links@) =~= m@.pages.map_values(|l: PageLinkView| link_value_spec(l)));
    }
    let mut obj: Vec<(String, Value)> = Vec::new();
    obj.push(field_entry(PaginationField::HasPrev, Value::Bool(m.has_prev)));
    obj.push(field_entry(PaginationField::HasNext, Value::Bool(m.has_next)));
    obj.push(field_entry(PaginationField::Prev, str_value(m.prev.as_str())));
    obj.push(field_entry(PaginationField::Next, str_value(m.next.as_str())));
    obj.push(field_entry(PaginationField::Path, str_value(m.path.as_str())));
    obj.push(field_entry(PaginationField::Href, str_value(m.href.as_str())));
    obj.push(field_entry(PaginationField::PrevHref, str_value(m.prev_href.as_str())));
    obj.push(field_entry(PaginationField::NextHref, str_value(m.next_href.as_str())));
    obj.push(field_entry(PaginationField::FirstHref, str_value(m.first_href.as_str())));
    obj.push(field_entry(PaginationField::LastHref, str_value(m.last_href.as_str())));
    obj.push(field_entry(PaginationField::Pages, Value::Array(links)));
    proof {
        assert(members_view(obj@) =~= nav_members(m@));
    }
    obj
}

/// The `page.pagination` object of one page holding `items`.
pub fn pagination_value(meta: &PageMeta, rule: &PaginationRule, items: Vec<Value>) -> (r: Value)
    ensures
        r@ == pagination_value_spec(meta@, *rule, elems_view(items@)),
{
    let mut obj = count_entries(meta, rule);
    let mut nav = nav_entries(meta);
    let ghost a = members_view(obj@);
    let ghost b = members_view(nav@);
    obj.append(&mut nav);
    let ghost iv = elems_view(items@);
    obj.push(field_entry(PaginationField::Items, Value::Array(items)));
    proof {
        assert(members_view(obj@) =~= a + b + seq![("items"@, JsonView::Array(iv))]);
    }
    Value::Object(obj)
}

/// Whether an object has the members every pagination chunk has.
pub open spec fn is_pagination_chunk_spec(m: Seq<(Seq<char>, JsonView)>) -> bool {
    &&& exists|i: int| 0 <= i < m.len() && m[i].0 == "items"@
    &&& exists|i: int| 0 <= i < m.len() && m[i].0 == "total_pages"@
}

fn has_member(obj: &Vec<(String, Value)>, key: &str) -> (r: bool)
    ensures
        r == exists|i: int| 0 <= i < obj@.len() && obj@[i].0@ == key@,
{
    let mut i: usize = 0;
    while i < obj.len()
        invariant
            i <= obj@.len(),
            forall|k: int| 0 <= k < i ==> obj@[k].0@ != key@,
        decreases obj@.len() - i,
    {
        if str_eq(obj[i].0.as_str(), key) {
            return true;
        }
        i += 1;
    }
    false
}

/// Returns true when an object has the required shape of a pagination chunk.
pub fn is_pagination_chunk(obj: &Vec<(String, Value)>) -> (r: bool)
    ensures
        r == is_pagination_chunk_spec(members_view(obj@)),
{
    let a = has_member(obj, PaginationField::Items.as_str());
    let b = has_member(obj, PaginationField::TotalPages.as_str());
    proof {
        let m = members_view(obj@);
        if a {
            let i = choose|i: int| 0 <= i < obj@.len() && obj@[i].0@ == "items"@;
            assert(m[i].0 == "items"@);
        }
        if b {
            let i = choose|i: int| 0 <= i < obj@.len() && obj@[i].0@ == "total_pages"@;
            assert(m[i].0 == "total_pages"@);
        }
        if exists|i: int| 0 <= i < m.len() && m[i].0 == "items"@ {
            let i = choose|i: int| 0 <= i < m.len() && m[i].0 == "items"@;
            assert(obj@[i].0@ == "items"@);
        }
        if exists|i: int| 0 <= i < m.len() && m[i].0 == "total_pages"@ {
            let i = choose|i: int| 0 <= i < m.len() && m[i].0 == "total_pages"@;
            assert(obj@[i].0@ == "total_pages"@);
        }
    }
    a && b
}

/// The items of one planned page.
pub open spec fn page_items(m: PageMetaView, sel: Seq<JsonView>) -> Seq<JsonView> {
    sel.subrange(m.start as int, m.end as int)
}

/// The chunks of `items` under `rule`: one per planned page of the selected
/// items, each with its page text and its `page.pagination` object.
pub open spec fn chunks_spec(items: Seq<JsonView>, rule: PaginationRule, route: Seq<char>, param: Seq<char>) -> Seq<(Seq<char>, JsonView)> {
    let sel = select_items_spec(items, rule);
    let plan = plan_spec(sel.len(), items.len(), rule.page_size as nat, rule.max_pages as nat, route, param);
    Seq::new(plan.len(), |i: int| (plan[i].page, pagination_value_spec(plan[i], rule, page_items(plan[i], sel))))
}

/// Split selected items into pages of `rule.page_size`.
///
/// Each page object includes `items` plus nav metadata (`page`, `pages`,
/// `prev_href` / `next_href`, `limit`, `offset`, …).
pub fn chunk_items(items: &[Value], rule: &PaginationRule, route: &str, param: &str) -> (r: Vec<PageChunk>)
    ensures
        r@.len() == chunks_spec(elems_view(items@), *rule, route@, param@).len(),
        forall|i: int|
            0 <= i < r@.len() ==> (#[trigger] r@[i]).page@ == chunks_spec(elems_view(items@), *rule, route@, param@)[i].0
                && r@[i].value@ == chunks_spec(elems_view(items@), *rule, route@, param@)[i].1,
{
    let ghost want = chunks_spec(elems_view(items@), *rule, route@, param@);
    let selected = select_items(items, rule);
    let ghost sel = elems_view(selected@);
    let plan = chunk_plan(selected.len(), items.len(), rule, route, param);
    let ghost pv = plan@.map_values(|m: PageMeta| m@);
    proof {
        if selected@.len() > 0 {
            law_pages_partition_items(
                selected@.len() as nat,
                items@.len() as nat,
                rule.page_size as nat,
                rule.max_pages as nat,
                route@,
                param@,
            );
        }
    }
    let mut out: Vec<PageChunk> = Vec::new();
    let mut i: usize = 0;
    while i < plan.len()
        invariant
            i <= plan@.len(),
            sel == elems_view(selected@),
            sel == select_items_spec(elems_view(items@), *rule),
            pv == plan@.map_values(|m: PageMeta| m@),
            pv == plan_spec(sel.len(), items@.len() as nat, rule.page_size as nat, rule.max_pages as nat, route@, param@),
            want == chunks_spec(elems_view(items@), *rule, route@, param@),
            want.len() == plan@.len(),
            forall|k: int| 0 <= k < plan@.len() ==> #[trigger] pv[k].start < pv[k].end,
            out@.len() == i,
            forall|k: int|
                0 <= k < i ==> (#[trigger] out@[k]).page@ == want[k].0 && out@[k].value@ == want[k].1,
        decreases plan@.len() - i,
    {
        let m = &plan[i];
        proof {
            assert(pv[i as int] == m@);
            assert(pv[i as int].start < pv[i as int].end);
            assert(m.end <= selected@.len());
        }
        let mut chunk: Vec<Value> = Vec::new();
        let mut k = m.start;
        while k < m.end
            invariant
                m.start <= k <= m.end <= selected@.len(),
                chunk@.len() == k - m.start,
                forall|t: int| 0 <= t < chunk@.len() ==> (#[trigger] chunk@[t])@ == selected@[m.start + t]@,
            decreases m.end - k,
        {
            chunk.push(selected[k].copy());
            k += 1;
        }
        proof {
            assert(elems_view(chunk@) =~= page_items(m@, sel));
        }
        let value = pagination_value(m, rule, chunk);
        out.push(PageChunk { page: m.page.clone(), value });
        i += 1;
    }
    out
}

/// The localized form of a page object: `path`, `href`, `prev_href`,
/// `next_href`, `first_href` and `last_href` strings, and `path`/`href` of
/// each entry in `pages`, with `[locale]` filled in.
pub open spec fn localize_chunk_value(v: JsonView, locale: Seq<char>) -> JsonView {
    match v {
        JsonView::Object(m) => JsonView::Object(m.map_values(|kv: (Seq<char>, JsonView)| localize_member(kv, locale))),
        _ => v,
    }
}

pub open spec fn is_nav_key(k: Seq<char>) -> bool {
    k == "path"@ || k == "href"@ || k == "prev_href"@ || k == "next_href"@ || k == "first_href"@ || k == "last_href"@
}

pub open spec fn localize_member(kv: (Seq<char>, JsonView), locale: Seq<char>) -> (Seq<char>, JsonView) {
    if is_nav_key(kv.0) && kv.1 is String {
        (kv.0, JsonView::String(localize_spec(kv.1->String_0, locale)))
    } else if kv.0 == "pages"@ && kv.1 is Array {
        (kv.0, JsonView::Array(kv.1->Array_0.map_values(|l: JsonView| localize_link_value(l, locale))))
    } else {
        kv
    }
}

pub open spec fn localize_link_value(l: JsonView, locale: Seq<char>) -> JsonView {
    match l {
        JsonView::Object(m) => JsonView::Object(m.map_values(|kv: (Seq<char>, JsonView)| localize_link_member(kv, locale))),
        _ => l,
    }
}

pub open spec fn localize_link_member(kv: (Seq<char>, JsonView), locale: Seq<char>) -> (Seq<char>, JsonView) {
    if (kv.0 == "path"@ || kv.0 == "href"@) && kv.1 is String {
        (kv.0, JsonView::String(localize_spec(kv.1->String_0, locale)))
    } else {
        kv
    }
}

fn is_nav_field(key: &str) -> (r: bool)
    ensures
        r == is_nav_key(key@),
{
    str_eq(key, PaginationField::Path.as_str()) || str_eq(key, PaginationField::Href.as_str())
        || str_eq(key, PaginationField::PrevHref.as_str()) || str_eq(key, PaginationField::NextHref.as_str())
        || str_eq(key, PaginationField::FirstHref.as_str()) || str_eq(key, PaginationField::LastHref.as_str())
}

fn localize_link_obj(l: &Value, locale: &str) -> (r: Value)
    ensures
        r@ == localize_link_value(l@, locale@),
{
    match l {
        Value::Object(m) => {
            let mut out: Vec<(String, Value)> = Vec::new();
            let mut i: usize = 0;
            while i < m.len()
                invariant
                    i <= m@.len(),
                    out@.len() == i,
                    forall|k: int| 0 <= k < i ==> ((#[trigger] out@[k]).0@, out@[k].1@) == localize_link_member(
                        (m@[k].0@, m@[k].1@),
                        locale@,
                    ),
                decreases m@.len() - i,
            {
                let key = &m[i].0;
                let v = match &m[i].1 {
                    Value::String(s) => if str_eq(key.as_str(), PaginationField::Path.as_str())
                        || str_eq(key.as_str(), PaginationField::Href.as_str()) {
                        Value::String(localize_route_token(s.as_str(), locale))
                    } else {
                        m[i].1.copy()
                    },
                    _ => m[i].1.copy(),
                };
                out.push((key.clone(), v));
                i += 1;
            }
            proof {
                assert(members_view(out@) =~= members_view(m@).map_values(
                    |kv: (Seq<char>, JsonView)| localize_link_member(kv, locale@),
                ));
            }
            Value::Object(out)
        },
        _ => l.copy(),
    }
}

fn localize_member_value(key: &String, v: &Value, locale: &str) -> (r: Value)
    ensures
        (key@, r@) == localize_member((key@, v@), locale@),
{
    match v {
        Value::String(s) => if is_nav_field(key.as_str()) {
            Value::String(localize_route_token(s.as_str(), locale))
        } else {
            v.copy()
        },
        Value::Array(links) => if str_eq(key.as_str(), PaginationField::Pages.as_str()) {
            let mut out: Vec<Value> = Vec::new();
            let mut i: usize = 0;
            while i < links.len()
                invariant
                    i <= links@.len(),
                    out@.len() == i,
                    forall|k: int| 0 <= k < i ==> (#[trigger] out@[k])@ == localize_link_value(links@[k]@, locale@),
                decreases links@.len() - i,
            {
                out.push(localize_link_obj(&links[i], locale));
                i += 1;
            }
            proof {
                assert(elems_view(out@) =~= elems_view(links@).map_values(|l: JsonView| localize_link_value(l, locale@)));
            }
            Value::Array(out)
        } else {
            v.copy()
        },
        _ => v.copy(),
    }
}

/// Rewrite pagination nav paths/hrefs for a concrete locale (`[locale]` → `en`, etc.).
pub fn apply_locale_to_chunk(chunk: &PageChunk, locale: &str) -> (r: PageChunk)
    ensures
        r.page@ == chunk.page@,
        r.value@ == localize_chunk_value(chunk.value@, locale@),
{
    match &chunk.value {
        Value::Object(m) => {
            let mut out: Vec<(String, Value)> = Vec::new();
            let mut i: usize = 0;
            while i < m.len()
                invariant
                    i <= m@.len(),
                    out@.len() == i,
                    forall|k: int| 0 <= k < i ==> ((#[trigger] out@[k]).0@, out@[k].1@) == localize_member(
                        (m@[k].0@, m@[k].1@),
                        locale@,
                    ),
                decreases m@.len() - i,
            {
                let v = localize_member_value(&m[i].0, &m[i].1, locale);
                out.push((m[i].0.clone(), v));
                i += 1;
            }
            proof {
                assert(members_view(out@) =~= members_view(m@).map_values(
                    |kv: (Seq<char>, JsonView)| localize_member(kv, locale@),
                ));
            }
            PageChunk { page: chunk.page.clone(), value: Value::Object(out) }
        },
        _ => PageChunk { page: chunk.page.clone(), value: chunk.value.copy() },
    }
}

} // verus!
