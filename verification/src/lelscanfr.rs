//! LelscanFR (`https://www.lelscanfr.com`): a Laravel manga site scraped
//! from its HTML.
use vstd::prelude::*;
use crate::lelmanga::{key_title, key_to_title};
use crate::lists::{dedupe, push_unique};
use crate::model::{
    chapters_view, filters_view, mangas_view, opt_strs_view, opt_view, opts_view, params_view,
    strs_view, ChapterEntry, ChapterView, Filter, FilterView, MangaEntry, MangaView, ParamView,
    QueryParam, Rating, Reader, Status,
};
use crate::query::{push_query_param, query_param, raw_param, url_with_query, with_query};
use crate::text::{
    append, append_str, before_char, before_char_exec, chars_of, contains, contains_str, decimal,
    decimal_exec, eq_chars, find, has_prefix, matches_at, lowercase, slice_copy, starts_with, str_lowercase,
    string_of, strip_end_char, strip_end_chars, strip_start_char, strip_start_chars, trim,
    trim_chars, trim_str,
};

verus! {

/// The site's address.
pub const BASE_URL: &'static str = "https://www.lelscanfr.com";

/// The largest number of chapter-list pages read for one manga.
pub const MAX_CHAPTER_PAGES: i32 = 25;

fn literal_is(w: &[char], lit: &str) -> (r: bool)
    ensures
        r == (w@ == lit@),
{
    let l = chars_of(lit);
    eq_chars(w, l.as_slice())
}

// ---------------------------------------------------------------------------
// Addresses
// ---------------------------------------------------------------------------

/// `?page=N` for pages after the first.
pub open spec fn page_suffix(page: int) -> Seq<char> {
    if page <= 1 {
        Seq::empty()
    } else {
        "?page="@ + decimal(page)
    }
}

/// The address of page `page` of a manga's chapter list.
pub open spec fn manga_page(key: Seq<char>, page: int) -> Seq<char> {
    BASE_URL@ + "/manga/"@ + key + page_suffix(page)
}

/// The address of page `page` of a manga's chapter list.
pub fn manga_url(key: &str, page: i32) -> (r: String)
    ensures
        r@ == manga_page(key@, page as int),
{
    let mut out = chars_of(BASE_URL);
    append_str(&mut out, "/manga/");
    append_str(&mut out, key);
    if page > 1 {
        append_str(&mut out, "?page=");
        let d = decimal_exec(page as i64);
        append(&mut out, d.as_slice());
    }
    string_of(out.as_slice())
}

/// The address of page `page` of the home page.
pub fn home_url(page: i32) -> (r: String)
    ensures
        r@ == BASE_URL@ + page_suffix(page as int),
{
    let mut out = chars_of(BASE_URL);
    if page > 1 {
        append_str(&mut out, "?page=");
        let d = decimal_exec(page as i64);
        append(&mut out, d.as_slice());
    }
    string_of(out.as_slice())
}

/// The address of a chapter's page: its own URL, or the one made from the
/// manga's key and the chapter's key.
pub fn chapter_page_url(url: Option<String>, manga_key: &str, chapter_key: &str) -> (r: String)
    ensures
        r@ == match url {
            Some(u) => u@,
            None => BASE_URL@ + "/manga/"@ + manga_key@ + "/"@ + chapter_key@,
        },
{
    match url {
        Some(u) => u,
        None => {
            let mut out = chars_of(BASE_URL);
            append_str(&mut out, "/manga/");
            append_str(&mut out, manga_key);
            append_str(&mut out, "/");
            append_str(&mut out, chapter_key);
            string_of(out.as_slice())
        },
    }
}

/// The key of a manga in the URL of its page: the path segment after the
/// first `/manga/` of the URL without its query; none when that segment is
/// empty or is the site's `random` link.
pub open spec fn manga_key(url: Seq<char>) -> Option<Seq<char>> {
    let path = before_char(url, '?');
    match find(path, "/manga/"@) {
        None => None,
        Some(i) => {
            let key = before_char(path.skip(i + "/manga/"@.len()), '/');
            if key.len() == 0 || key == "random"@ {
                None
            } else {
                Some(key)
            }
        },
    }
}

/// The key of a manga in the URL of its page.
pub fn manga_key_from_url(url: &str) -> (r: Option<String>)
    ensures
        opt_view(r) == manga_key(url@),
{
    let u = chars_of(url);
    let path = before_char_exec(u.as_slice(), '?');
    let marker = chars_of("/manga/");
    let i = match crate::text::find_exec(path.as_slice(), marker.as_slice()) {
        Some(i) => i,
        None => {
            return None;
        },
    };
    proof {
        crate::text::lemma_find_contains(path@, marker@);
    }
    assert(i + marker.len() <= path.len());
    let rest = slice_copy(path.as_slice(), i + marker.len(), path.len());
    assert(rest@ =~= path@.skip(i + marker@.len()));
    let key = before_char_exec(rest.as_slice(), '/');
    if key.len() == 0 || literal_is(key.as_slice(), "random") {
        None
    } else {
        Some(string_of(key.as_slice()))
    }
}

/// The key of a chapter of the manga `manga_key` in a URL: the path
/// segment after the first `/manga/<manga_key>/` of the URL without its
/// query; none when there is no such segment.
pub open spec fn chapter_key(manga_key: Seq<char>, url: Seq<char>) -> Option<Seq<char>> {
    let path = before_char(url, '?');
    let marker = "/manga/"@ + manga_key + "/"@;
    match find(path, marker) {
        None => None,
        Some(i) => {
            let key = before_char(path.skip(i + marker.len()), '/');
            if key.len() == 0 {
                None
            } else {
                Some(key)
            }
        },
    }
}

/// The key of a chapter of the manga `manga_key` in its URL.
pub fn chapter_key_from_url(manga_key: &str, url: &str) -> (r: Option<String>)
    ensures
        opt_view(r) == chapter_key(manga_key@, url@),
{
    let u = chars_of(url);
    let path = before_char_exec(u.as_slice(), '?');
    let mut marker = chars_of("/manga/");
    append_str(&mut marker, manga_key);
    append_str(&mut marker, "/");
    let i = match crate::text::find_exec(path.as_slice(), marker.as_slice()) {
        Some(i) => i,
        None => {
            return None;
        },
    };
    proof {
        crate::text::lemma_find_contains(path@, marker@);
    }
    assert(i + marker.len() <= path.len());
    let rest = slice_copy(path.as_slice(), i + marker.len(), path.len());
    assert(rest@ =~= path@.skip(i + marker@.len()));
    let key = before_char_exec(rest.as_slice(), '/');
    if key.len() == 0 {
        None
    } else {
        Some(string_of(key.as_slice()))
    }
}

/// The CSS selector of the links to the chapters of a manga.
pub fn chapter_link_selector(manga_key: &str) -> (r: String)
    ensures
        r@ == "a[href*='/manga/"@ + manga_key@ + "/']"@,
{
    let mut out = chars_of("a[href*='/manga/");
    append_str(&mut out, manga_key);
    append_str(&mut out, "/']");
    string_of(out.as_slice())
}

/// The CSS selector of the pagination link to the page after `page`.
pub fn next_page_selector(page: i32) -> (r: String)
    requires
        page < i32::MAX,
    ensures
        r@ == "li.pagination-link[onclick*='page="@ + decimal(page + 1) + "']"@,
{
    let mut out = chars_of("li.pagination-link[onclick*='page=");
    let d = decimal_exec((page + 1) as i64);
    append(&mut out, d.as_slice());
    append_str(&mut out, "']");
    string_of(out.as_slice())
}

/// The page of the chapter list to read after `page`: the next one while
/// there is one and fewer than `MAX_CHAPTER_PAGES` pages were read.
pub open spec fn next_chapter_page_of(page: int, has_next: bool) -> Option<int> {
    if !has_next || page >= MAX_CHAPTER_PAGES {
        None
    } else {
        Some(page + 1)
    }
}

/// The page of a manga's chapter list to read after `page`, given whether
/// the list shows a next page.
pub fn next_chapter_page(page: i32, has_next: bool) -> (r: Option<i32>)
    ensures
        match r {
            Some(p) => next_chapter_page_of(page as int, has_next) == Some(p as int),
            None => next_chapter_page_of(page as int, has_next) is None,
        },
{
    if !has_next || page >= MAX_CHAPTER_PAGES {
        None
    } else {
        Some(page + 1)
    }
}

// ---------------------------------------------------------------------------
// Search and listings
// ---------------------------------------------------------------------------

/// The parameter of one value of the filter `id`: `genre[]` for genres,
/// the filter's own name for status and type, none for the others.
pub open spec fn filter_param(id: Seq<char>, value: Seq<char>) -> Seq<ParamView> {
    if id == "genre"@ {
        query_param("genre[]"@, value)
    } else if id == "status"@ || id == "type"@ {
        query_param(id, value)
    } else {
        Seq::empty()
    }
}

/// The parameters of the values of the filter `id`, in order.
pub open spec fn values_params(id: Seq<char>, values: Seq<Seq<char>>) -> Seq<ParamView>
    decreases values.len(),
{
    if values.len() == 0 {
        Seq::empty()
    } else {
        values_params(id, values.drop_last()) + filter_param(id, values.last())
    }
}

/// The parameters of the filters, in order.
pub open spec fn filters_params(fs: Seq<FilterView>) -> Seq<ParamView>
    decreases fs.len(),
{
    if fs.len() == 0 {
        Seq::empty()
    } else {
        filters_params(fs.drop_last()) + match fs.last() {
            FilterView::Select { id, value } => filter_param(id, value),
            FilterView::MultiSelect { id, included } => values_params(id, included),
            FilterView::Other => Seq::empty(),
        }
    }
}

/// The parameters of a search on `/manga`: the title when the query is not
/// blank, the filters, then `page` (written as is) for pages after the
/// first; pages below 1 count as 1.
pub open spec fn search_query(query: Option<Seq<char>>, page: int, filters: Seq<FilterView>) -> Seq<
    ParamView,
> {
    let page = if page < 1 {
        1
    } else {
        page
    };
    let title = match query {
        Some(q) => if trim(q).len() > 0 {
            query_param("title"@, q)
        } else {
            Seq::empty()
        },
        None => Seq::empty(),
    };
    title + filters_params(filters) + if page > 1 {
        seq![raw_param("page"@, decimal(page))]
    } else {
        Seq::empty()
    }
}

/// Adds the parameter of one value of the filter `id`.
pub fn push_filter_param(params: &mut Vec<QueryParam>, id: &str, value: &str)
    ensures
        params_view(final(params)@) == params_view(old(params)@) + filter_param(id@, value@),
{
    let i = chars_of(id);
    if literal_is(i.as_slice(), "genre") {
        push_query_param(params, "genre[]", value);
    } else if literal_is(i.as_slice(), "status") || literal_is(i.as_slice(), "type") {
        push_query_param(params, id, value);
    } else {
        assert(params_view(params@) =~= params_view(params@) + Seq::<ParamView>::empty());
    }
}

/// Adds the parameters of the filters.
pub fn push_filters_params(params: &mut Vec<QueryParam>, filters: &Vec<Filter>)
    ensures
        params_view(final(params)@) == params_view(old(params)@) + filters_params(
            filters_view(filters@),
        ),
{
    let ghost start = params_view(params@);
    for i in 0..filters.len()
        invariant
            params_view(params@) == start + filters_params(filters_view(filters@.take(i as int))),
    {
        let ghost t = filters_view(filters@.take(i + 1));
        assert(t.drop_last() =~= filters_view(filters@.take(i as int)));
        assert(t.last() == filters@[i as int]@);
        let ghost mid = params_view(params@);
        match &filters[i] {
            Filter::Select { id, value } => {
                push_filter_param(params, id.as_str(), value.as_str());
            },
            Filter::MultiSelect { id, included } => {
                for j in 0..included.len()
                    invariant
                        params_view(params@) == mid + values_params(
                            id@,
                            strs_view(included@.take(j as int)),
                        ),
                {
                    let ghost u = strs_view(included@.take(j + 1));
                    assert(u.drop_last() =~= strs_view(included@.take(j as int)));
                    assert(u.last() == included@[j as int]@);
                    push_filter_param(params, id.as_str(), included[j].as_str());
                }
                assert(included@.take(included@.len() as int) =~= included@);
            },
            Filter::Other => {},
        }
        assert(params_view(params@) =~= start + filters_params(t));
    }
    assert(filters@.take(filters@.len() as int) =~= filters@);
}

/// The parameters of a search.
pub fn search_params(query: Option<String>, page: i32, filters: &Vec<Filter>) -> (r: Vec<
    QueryParam,
>)
    ensures
        params_view(r@) == search_query(opt_view(query), page as int, filters_view(filters@)),
{
    let page = if page < 1 {
        1
    } else {
        page
    };
    let mut params: Vec<QueryParam> = Vec::new();
    let mut searched = false;
    if let Some(q) = &query {
        let t = trim_str(q.as_str());
        if t.len() > 0 {
            push_query_param(&mut params, "title", q.as_str());
            searched = true;
        }
    }
    if !searched {
        assert(params_view(params@) =~= Seq::<ParamView>::empty());
    }
    push_filters_params(&mut params, filters);
    if page > 1 {
        let d = decimal_exec(page as i64);
        let ghost before = params_view(params@);
        params.push(QueryParam { key: "page".to_owned(), value: string_of(d.as_slice()), encode: false });
        assert(params_view(params@) =~= before.push(raw_param("page"@, decimal(page as int))));
    } else {
        assert(params_view(params@) =~= params_view(params@) + Seq::<ParamView>::empty());
    }
    params
}

/// The address of a search on `/manga` from its parameters written as
/// `key=value`.
pub fn search_url(rendered: &Vec<String>) -> (r: String)
    ensures
        r@ == with_query(BASE_URL@ + "/manga"@, strs_view(rendered@)),
{
    let mut path = chars_of(BASE_URL);
    append_str(&mut path, "/manga");
    let path = string_of(path.as_slice());
    url_with_query(path.as_str(), rendered)
}

/// The home page's popular and latest cards form a single page: pages after
/// the first are empty.
pub fn home_listing_has_page(page: i32) -> (r: bool)
    ensures
        r == (page <= 1),
{
    page <= 1
}

/// A `main h2` heading of a page: its text, and the tag names of the
/// heading itself and of each of its ancestors, nearest first, up to the
/// root.
pub struct Heading {
    pub text: Option<String>,
    pub tags: Vec<Option<String>>,
}

/// A heading, as text.
pub struct HeadingView {
    pub text: Option<Seq<char>>,
    pub tags: Seq<Option<Seq<char>>>,
}

impl View for Heading {
    type V = HeadingView;

    open spec fn view(&self) -> HeadingView {
        HeadingView { text: opt_view(self.text), tags: opts_view(self.tags@) }
    }
}

/// The headings, as text.
pub open spec fn headings_view(hs: Seq<Heading>) -> Seq<HeadingView> {
    hs.map_values(|h: Heading| h@)
}

/// How many steps up from the heading, from step `i` on, the nearest
/// `section` element is; none when no element from there up to the root is
/// one.
pub open spec fn section_step_from(tags: Seq<Option<Seq<char>>>, i: int) -> Option<int>
    decreases tags.len() - i,
{
    if i < 0 || i >= tags.len() {
        None
    } else if tags[i] == Some("section"@) {
        Some(i)
    } else {
        section_step_from(tags, i + 1)
    }
}

/// The section holding the first heading, from heading `j` on, whose
/// trimmed text is `heading`: that heading's index and how many steps up
/// the section is. None when no heading matches, and none when the first
/// that matches lies in no section (the later ones are not looked at).
pub open spec fn section_from(hs: Seq<HeadingView>, heading: Seq<char>, j: int) -> Option<
    (int, int),
>
    decreases hs.len() - j,
{
    if j < 0 || j >= hs.len() {
        None
    } else if hs[j].text matches Some(t) && trim(t) == heading {
        match section_step_from(hs[j].tags, 0) {
            Some(d) => Some((j, d)),
            None => None,
        }
    } else {
        section_from(hs, heading, j + 1)
    }
}

/// How many steps up from a heading its nearest `section` is.
fn section_step(tags: &Vec<Option<String>>) -> (r: Option<usize>)
    ensures
        match r {
            Some(d) => section_step_from(opts_view(tags@), 0) == Some(d as int),
            None => section_step_from(opts_view(tags@), 0) is None,
        },
{
    let ghost ts = opts_view(tags@);
    let mut i: usize = 0;
    while i < tags.len()
        invariant
            i <= tags.len(),
            ts == opts_view(tags@),
            section_step_from(ts, 0) == section_step_from(ts, i as int),
        decreases tags.len() - i,
    {
        let is_section = match &tags[i] {
            Some(name) => {
                let n = chars_of(name.as_str());
                let s = chars_of("section");
                eq_chars(n.as_slice(), s.as_slice())
            },
            None => false,
        };
        assert(ts[i as int] == opt_view(tags@[i as int]));
        if is_section {
            return Some(i);
        }
        i = i + 1;
    }
    None
}

/// The section of the page holding the first `main h2` heading whose
/// trimmed text is `heading`: the heading's index and how many steps up
/// from it the section is.
pub fn find_section_by_heading(headings: &Vec<Heading>, heading: &str) -> (r: Option<
    (usize, usize),
>)
    ensures
        match r {
            Some((j, d)) => section_from(headings_view(headings@), heading@, 0) == Some(
                (j as int, d as int),
            ),
            None => section_from(headings_view(headings@), heading@, 0) is None,
        },
{
    let ghost hs = headings_view(headings@);
    let target = chars_of(heading);
    let mut j: usize = 0;
    while j < headings.len()
        invariant
            j <= headings.len(),
            hs == headings_view(headings@),
            target@ == heading@,
            section_from(hs, heading@, 0) == section_from(hs, heading@, j as int),
        decreases headings.len() - j,
    {
        let h = &headings[j];
        assert(hs[j as int] == h@);
        let matches = match &h.text {
            Some(text) => {
                let trimmed = trim_str(text.as_str());
                eq_chars(trimmed.as_slice(), target.as_slice())
            },
            None => false,
        };
        if matches {
            return match section_step(&h.tags) {
                Some(d) => Some((j, d)),
                None => None,
            };
        }
        j = j + 1;
    }
    None
}

/// The page of the home page read for the recent chapters listing: pages
/// below 1 count as 1.
pub fn recent_chapters_page(page: i32) -> (r: i32)
    ensures
        r == if page < 1 {
            1
        } else {
            page
        },
{
    if page < 1 {
        1
    } else {
        page
    }
}

/// The listings of the site.
#[derive(PartialEq, Eq, Structural, Clone, Copy, Debug)]
pub enum ListingKind {
    /// The whole catalogue, as a search without query.
    All,
    /// The popular cards of the home page.
    Popular,
    /// The latest cards of the home page.
    Latest,
    /// The recent chapters section of the home page.
    RecentChapters,
}

/// The listing that the id `id` names; the catalogue for unknown ids.
pub open spec fn listing_kind_of(id: Seq<char>) -> ListingKind {
    if id == "popular"@ {
        ListingKind::Popular
    } else if id == "latest"@ {
        ListingKind::Latest
    } else if id == "recent_chapters"@ {
        ListingKind::RecentChapters
    } else {
        ListingKind::All
    }
}

/// The listing that the id `id` names.
pub fn listing_kind(id: &str) -> (r: ListingKind)
    ensures
        r == listing_kind_of(id@),
{
    let i = chars_of(id);
    if literal_is(i.as_slice(), "popular") {
        ListingKind::Popular
    } else if literal_is(i.as_slice(), "latest") {
        ListingKind::Latest
    } else if literal_is(i.as_slice(), "recent_chapters") {
        ListingKind::RecentChapters
    } else {
        ListingKind::All
    }
}

// ---------------------------------------------------------------------------
// Metadata
// ---------------------------------------------------------------------------

/// The value of the first paragraph that starts with `label`: the rest of
/// its text trimmed, without leading colons, trimmed again, when not empty.
/// The search gives up at the first paragraph without text.
pub open spec fn metadata_from(rows: Seq<Option<Seq<char>>>, label: Seq<char>) -> Option<Seq<char>>
    decreases rows.len(),
{
    if rows.len() == 0 {
        None
    } else {
        match rows[0] {
            None => None,
            Some(t) => {
                let value = trim(strip_start_char(trim(t.skip(label.len() as int)), ':'));
                if has_prefix(t, label) && value.len() > 0 {
                    Some(value)
                } else {
                    metadata_from(rows.drop_first(), label)
                }
            },
        }
    }
}

/// The value labelled `label` among the texts of the page's paragraphs
/// (`Auteur : Oda` gives `Oda` for `Auteur`).
pub fn metadata_value(rows: &Vec<Option<String>>, label: &str) -> (r: Option<String>)
    ensures
        opt_view(r) == metadata_from(opts_view(rows@), label@),
{
    let l = chars_of(label);
    let ghost all = opts_view(rows@);
    assert(all.skip(0) =~= all);
    for i in 0..rows.len()
        invariant
            all == opts_view(rows@),
            l@ == label@,
            metadata_from(all, label@) == metadata_from(all.skip(i as int), label@),
    {
        assert(all.skip(i as int)[0] == opt_view(rows@[i as int]));
        assert(all.skip(i as int).drop_first() =~= all.skip(i + 1));
        let text = match &rows[i] {
            Some(t) => t,
            None => {
                return None;
            },
        };
        let t = chars_of(text.as_str());
        if starts_with(t.as_slice(), l.as_slice()) {
            let rest = slice_copy(t.as_slice(), l.len(), t.len());
            assert(rest@ =~= t@.skip(l@.len() as int));
            let v = trim_chars(rest.as_slice());
            let v = strip_start_chars(v.as_slice(), ':');
            let v = trim_chars(v.as_slice());
            if v.len() > 0 {
                return Some(string_of(v.as_slice()));
            }
        }
    }
    assert(all.skip(rows@.len() as int) =~= Seq::<Option<Seq<char>>>::empty());
    None
}

/// The status named in the status text, read in lowercase.
pub open spec fn status_of(status: Option<Seq<char>>) -> Status {
    match status {
        None => Status::Unknown,
        Some(s) => {
            let n = str_lowercase(s);
            if contains(n, "cours"@) {
                Status::Ongoing
            } else if contains(n, "termin"@) || contains(n, "complete"@) {
                Status::Completed
            } else if contains(n, "pause"@) || contains(n, "hiatus"@) {
                Status::Hiatus
            } else {
                Status::Unknown
            }
        },
    }
}

/// The publication status from the text of the `Statut` paragraph.
pub fn parse_status(status: Option<String>) -> (r: Status)
    ensures
        r == status_of(opt_view(status)),
{
    let status = match status {
        Some(s) => s,
        None => {
            return Status::Unknown;
        },
    };
    let n = lowercase(status.as_str());
    let n = chars_of(n.as_str());
    if contains_str(n.as_slice(), "cours") {
        Status::Ongoing
    } else if contains_str(n.as_slice(), "termin") || contains_str(n.as_slice(), "complete") {
        Status::Completed
    } else if contains_str(n.as_slice(), "pause") || contains_str(n.as_slice(), "hiatus") {
        Status::Hiatus
    } else {
        Status::Unknown
    }
}

/// A tag trimmed, without trailing commas, trimmed again; none when empty.
pub open spec fn clean_tag_of(value: Seq<char>) -> Option<Seq<char>> {
    let v = trim(strip_end_char(trim(value), ','));
    if v.len() == 0 {
        None
    } else {
        Some(v)
    }
}

/// A tag without surrounding spaces and trailing commas.
pub fn clean_tag(value: String) -> (r: Option<String>)
    ensures
        opt_view(r) == clean_tag_of(value@),
{
    let v = trim_str(value.as_str());
    let v = strip_end_chars(v.as_slice(), ',');
    let v = trim_chars(v.as_slice());
    if v.len() == 0 {
        None
    } else {
        Some(string_of(v.as_slice()))
    }
}

/// The cleaned tags among the texts of genre links.
pub open spec fn clean_tags(texts: Seq<Option<Seq<char>>>) -> Seq<Seq<char>>
    decreases texts.len(),
{
    if texts.len() == 0 {
        Seq::empty()
    } else {
        let prev = clean_tags(texts.drop_last());
        match texts.last() {
            Some(t) => match clean_tag_of(t) {
                Some(c) => prev.push(c),
                None => prev,
            },
            None => prev,
        }
    }
}

/// The tags from the texts of the genre links, when the links could be
/// selected: the cleaned tags without repeats, none when there are none.
pub open spec fn links_tags(links: Option<Seq<Option<Seq<char>>>>) -> Option<Seq<Seq<char>>> {
    match links {
        None => None,
        Some(texts) => {
            let tags = dedupe(clean_tags(texts));
            if tags.len() == 0 {
                None
            } else {
                Some(tags)
            }
        },
    }
}

/// The tags from the texts of the genre links (each the text of the link's
/// `span`, else the link's own text).
pub fn parse_tags_from_links(links: Option<Vec<Option<String>>>) -> (r: Option<Vec<String>>)
    ensures
        opt_strs_view(r) == links_tags(
            match links {
                Some(l) => Some(opts_view(l@)),
                None => None,
            },
        ),
{
    let links = match links {
        Some(l) => l,
        None => {
            return None;
        },
    };
    let mut tags: Vec<String> = Vec::new();
    for i in 0..links.len()
        invariant
            strs_view(tags@) == dedupe(clean_tags(opts_view(links@.take(i as int)))),
    {
        let ghost t = opts_view(links@.take(i + 1));
        assert(t.drop_last() =~= opts_view(links@.take(i as int)));
        assert(t.last() == opt_view(links@[i as int]));
        let ghost prev = clean_tags(opts_view(links@.take(i as int)));
        match &links[i] {
            Some(text) => {
                match clean_tag(text.clone()) {
                    Some(tag) => {
                        assert(clean_tags(t) == prev.push(tag@));
                        assert(prev.push(tag@).drop_last() =~= prev);
                        push_unique(&mut tags, tag);
                    },
                    None => {},
                }
            },
            None => {},
        }
    }
    assert(links@.take(links@.len() as int) =~= links@);
    if tags.len() == 0 {
        None
    } else {
        Some(tags)
    }
}

/// A lowercase tag that marks explicit content.
pub open spec fn explicit_tag(tag: Seq<char>) -> bool {
    tag == "erotique"@ || tag == "smut"@
}

/// A lowercase tag that marks suggestive content.
pub open spec fn suggestive_tag(tag: Seq<char>) -> bool {
    tag == "adulte"@ || tag == "ecchi"@ || tag == "gore"@ || tag == "mature"@ || tag
        == "violence"@
}

/// Some tag, read in lowercase, marks explicit content.
pub open spec fn has_explicit(ts: Seq<Seq<char>>) -> bool {
    exists|i: int| 0 <= i < ts.len() && explicit_tag(str_lowercase(#[trigger] ts[i]))
}

/// Some tag, read in lowercase, marks suggestive content.
pub open spec fn has_suggestive(ts: Seq<Seq<char>>) -> bool {
    exists|i: int| 0 <= i < ts.len() && suggestive_tag(str_lowercase(#[trigger] ts[i]))
}

/// The content rating from the tags, read in lowercase: explicit when a tag
/// is `erotique` or `smut`, else suggestive when one is `adulte`, `ecchi`,
/// `gore`, `mature` or `violence`, else safe.
pub open spec fn rating_of(tags: Option<Seq<Seq<char>>>) -> Rating {
    match tags {
        None => Rating::Safe,
        Some(ts) => if has_explicit(ts) {
            Rating::Nsfw
        } else if has_suggestive(ts) {
            Rating::Suggestive
        } else {
            Rating::Safe
        },
    }
}

/// The content rating of a manga from its tags.
pub fn content_rating_from_tags(tags: Option<&Vec<String>>) -> (r: Rating)
    ensures
        r == rating_of(
            match tags {
                Some(ts) => Some(strs_view(ts@)),
                None => None,
            },
        ),
{
    let ts = match tags {
        Some(ts) => ts,
        None => {
            return Rating::Safe;
        },
    };
    let mut is_suggestive = false;
    for i in 0..ts.len()
        invariant
            tags == Some(ts),
            forall|j: int|
                0 <= j < i ==> !explicit_tag(str_lowercase(#[trigger] strs_view(ts@)[j])),
            is_suggestive == exists|j: int|
                0 <= j < i && suggestive_tag(str_lowercase(#[trigger] strs_view(ts@)[j])),
    {
        let n = lowercase(ts[i].as_str());
        let n = chars_of(n.as_str());
        assert(strs_view(ts@)[i as int] == ts@[i as int]@);
        if literal_is(n.as_slice(), "erotique") || literal_is(n.as_slice(), "smut") {
            assert(explicit_tag(str_lowercase(strs_view(ts@)[i as int])));

            return Rating::Nsfw;
        }
        if literal_is(n.as_slice(), "adulte") || literal_is(n.as_slice(), "ecchi") || literal_is(
            n.as_slice(),
            "gore",
        ) || literal_is(n.as_slice(), "mature") || literal_is(n.as_slice(), "violence") {
            assert(suggestive_tag(str_lowercase(strs_view(ts@)[i as int])));
            is_suggestive = true;
        }
    }
    if is_suggestive {
        Rating::Suggestive
    } else {
        Rating::Safe
    }
}

// ---------------------------------------------------------------------------
// Chapters
// ---------------------------------------------------------------------------

/// The chapter of a link, in French, titled `Chapitre <key>`.
pub open spec fn link_chapter(key: Seq<char>, url: Seq<char>) -> ChapterView {
    ChapterView {
        key: key,
        title: Some("Chapitre "@ + key),
        number_text: Some(key),
        volume_text: None,
        date_uploaded: None,
        scanlators: None,
        url: Some(url),
        language: Some("fr"@),
    }
}

/// The keys of the chapters.
pub open spec fn chapter_keys(cs: Seq<ChapterView>) -> Seq<Seq<char>> {
    cs.map_values(|c: ChapterView| c.key)
}

/// The chapters after adding those of the links (their absolute `href`s)
/// to `chapters`: each link to a chapter of the manga whose key is not
/// there yet, in order.
pub open spec fn with_link_chapters(
    manga_key: Seq<char>,
    links: Seq<Option<Seq<char>>>,
    chapters: Seq<ChapterView>,
) -> Seq<ChapterView>
    decreases links.len(),
{
    if links.len() == 0 {
        chapters
    } else {
        let prev = with_link_chapters(manga_key, links.drop_last(), chapters);
        match links.last() {
            None => prev,
            Some(url) => match chapter_key(manga_key, url) {
                None => prev,
                Some(key) => if chapter_keys(prev).contains(key) {
                    prev
                } else {
                    prev.push(link_chapter(key, url))
                },
            },
        }
    }
}

/// Some chapter of `chapters` has the key `key`.
fn has_chapter(chapters: &Vec<ChapterEntry>, key: &String) -> (r: bool)
    ensures
        r == chapter_keys(chapters_view(chapters@)).contains(key@),
{
    for i in 0..chapters.len()
        invariant
            forall|j: int| 0 <= j < i ==> chapters@[j].key@ != key@,
    {
        if chapters[i].key == *key {
            assert(chapter_keys(chapters_view(chapters@))[i as int] == key@);
            return true;
        }
    }
    assert(!chapter_keys(chapters_view(chapters@)).contains(key@)) by {
        if chapter_keys(chapters_view(chapters@)).contains(key@) {
            let j = choose|j: int|
                0 <= j < chapter_keys(chapters_view(chapters@)).len() && chapter_keys(
                    chapters_view(chapters@),
                )[j] == key@;
            assert(chapters@[j].key@ == key@);
        }
    }
    false
}

/// Adds to `chapters` the chapters of the manga `manga_key` that the links
/// point to, skipping keys already there.
pub fn append_chapter_links(
    manga_key: &str,
    links: &Vec<Option<String>>,
    chapters: &mut Vec<ChapterEntry>,
)
    ensures
        chapters_view(final(chapters)@) == with_link_chapters(
            manga_key@,
            opts_view(links@),
            chapters_view(old(chapters)@),
        ),
{
    let ghost start = chapters_view(chapters@);
    for i in 0..links.len()
        invariant
            chapters_view(chapters@) == with_link_chapters(
                manga_key@,
                opts_view(links@.take(i as int)),
                start,
            ),
    {
        let ghost t = opts_view(links@.take(i + 1));
        assert(t.drop_last() =~= opts_view(links@.take(i as int)));
        assert(t.last() == opt_view(links@[i as int]));
        if let Some(url) = &links[i] {
            if let Some(key) = chapter_key_from_url(manga_key, url.as_str()) {
                if !has_chapter(chapters, &key) {
                    let mut title = chars_of("Chapitre ");
                    append_str(&mut title, key.as_str());
                    let c = ChapterEntry {
                        key: key.clone(),
                        title: Some(string_of(title.as_slice())),
                        number_text: Some(key),
                        volume_text: None,
                        date_uploaded: None,
                        scanlators: None,
                        url: Some(url.clone()),
                        language: Some("fr".to_owned()),
                    };
                    let ghost before = chapters@;
                    let ghost cv = c@;
                    assert(cv == link_chapter(cv.key, url@));
                    chapters.push(c);
                    assert(chapters_view(chapters@) =~= chapters_view(before).push(cv));
                }
            }
        }
    }
    assert(links@.take(links@.len() as int) =~= links@);
}

/// Adds the chapters of one page of a manga's chapter list; `links` are the
/// `href`s of the chapter links, none when they could not be selected.
pub fn append_chapters(
    manga_key: &str,
    links: &Option<Vec<Option<String>>>,
    chapters: &mut Vec<ChapterEntry>,
)
    ensures
        chapters_view(final(chapters)@) == match links {
            Some(l) => with_link_chapters(manga_key@, opts_view(l@), chapters_view(old(chapters)@)),
            None => chapters_view(old(chapters)@),
        },
{
    if let Some(l) = links {
        append_chapter_links(manga_key, l, chapters);
    }
}

/// The chapters that a home-page card links to: none when the links could
/// not be selected or none is a chapter's.
pub open spec fn card_chapters(manga_key: Seq<char>, links: Option<Seq<Option<Seq<char>>>>) -> Option<
    Seq<ChapterView>,
> {
    match links {
        None => None,
        Some(l) => {
            let cs = with_link_chapters(manga_key, l, Seq::empty());
            if cs.len() == 0 {
                None
            } else {
                Some(cs)
            }
        },
    }
}

/// The chapters that a card links to.
pub fn parse_chapter_links(manga_key: &str, links: &Option<Vec<Option<String>>>) -> (r: Option<
    Vec<ChapterEntry>,
>)
    ensures
        match r {
            Some(c) => card_chapters(
                manga_key@,
                match links {
                    Some(l) => Some(opts_view(l@)),
                    None => None,
                },
            ) == Some(chapters_view(c@)),
            None => card_chapters(
                manga_key@,
                match links {
                    Some(l) => Some(opts_view(l@)),
                    None => None,
                },
            ) is None,
        },
{
    let l = match links {
        Some(l) => l,
        None => {
            return None;
        },
    };
    let mut chapters: Vec<ChapterEntry> = Vec::new();
    assert(chapters_view(chapters@) =~= Seq::<ChapterView>::empty());
    append_chapter_links(manga_key, l, &mut chapters);
    if chapters.len() == 0 {
        None
    } else {
        Some(chapters)
    }
}

// ---------------------------------------------------------------------------
// Manga cards
// ---------------------------------------------------------------------------

/// What the `<img>` of a card holds.
pub struct CardImage {
    pub alt: Option<String>,
    pub abs_data_src: Option<String>,
    pub abs_src: Option<String>,
}

/// What the element two levels above a card's link holds.
pub struct CardContainer {
    /// The texts of its genre links, none when they could not be selected.
    pub tag_links: Option<Vec<Option<String>>>,
    /// The `href`s of its chapter links, none when they could not be selected.
    pub chapter_links: Option<Vec<Option<String>>>,
}

/// What a card (a link to a manga) holds.
pub struct Card {
    /// The link's absolute `href`.
    pub url: Option<String>,
    pub image: Option<CardImage>,
    /// The text of the card's `h2`.
    pub heading: Option<String>,
    pub container: Option<CardContainer>,
}

/// The manga of a card, when the card links to a manga's page: the title is
/// the image's `alt`, else the heading, else made from the key; the cover
/// the image's `abs:data-src`, else its `abs:src`; the chapters those that
/// the card's container links to, when asked for.
pub open spec fn card_manga(c: &Card, include_chapters: bool) -> Option<MangaView> {
    match c.url {
        None => None,
        Some(url) => match manga_key(url@) {
            None => None,
            Some(key) => {
                let title = match c.image {
                    Some(img) if img.alt is Some => img.alt.unwrap()@,
                    _ => match c.heading {
                        Some(h) => h@,
                        None => key_title(key),
                    },
                };
                let cover = match c.image {
                    Some(img) => if img.abs_data_src is Some {
                        opt_view(img.abs_data_src)
                    } else {
                        opt_view(img.abs_src)
                    },
                    None => None,
                };
                let tags = match c.container {
                    Some(ct) => links_tags(
                        match ct.tag_links {
                            Some(l) => Some(opts_view(l@)),
                            None => None,
                        },
                    ),
                    None => None,
                };
                let chapters = if include_chapters {
                    match c.container {
                        Some(ct) => card_chapters(
                            key,
                            match ct.chapter_links {
                                Some(l) => Some(opts_view(l@)),
                                None => None,
                            },
                        ),
                        None => None,
                    }
                } else {
                    None
                };
                Some(
                    MangaView {
                        key: key,
                        title: title,
                        cover: cover,
                        authors: None,
                        artists: None,
                        description: None,
                        url: Some(url@),
                        tags: tags,
                        status: Status::Unknown,
                        rating: rating_of(tags),
                        reader: Reader::RightToLeft,
                        chapters: chapters,
                    },
                )
            },
        },
    }
}

/// The mangas of the cards, in order.
pub open spec fn cards_mangas(cards: Seq<Card>, include_chapters: bool) -> Seq<MangaView>
    decreases cards.len(),
{
    if cards.len() == 0 {
        Seq::empty()
    } else {
        let prev = cards_mangas(cards.drop_last(), include_chapters);
        match card_manga(&cards.last(), include_chapters) {
            Some(m) => prev.push(m),
            None => prev,
        }
    }
}

fn clone_opt(o: &Option<String>) -> (r: Option<String>)
    ensures
        opt_view(r) == opt_view(*o),
{
    match o {
        Some(s) => Some(s.clone()),
        None => None,
    }
}

fn clone_links(o: &Option<Vec<Option<String>>>) -> (r: Option<Vec<Option<String>>>)
    ensures
        match (r, *o) {
            (Some(a), Some(b)) => opts_view(a@) == opts_view(b@),
            (None, None) => true,
            _ => false,
        },
{
    match o {
        Some(v) => {
            let mut out: Vec<Option<String>> = Vec::new();
            for i in 0..v.len()
                invariant
                    out@.len() == i,
                    forall|k: int| 0 <= k < i ==> opt_view(#[trigger] out@[k]) == opt_view(v@[k]),
            {
                let c = clone_opt(&v[i]);
                out.push(c);
            }
            assert(opts_view(out@) =~= opts_view(v@));
            Some(out)
        },
        None => None,
    }
}

/// The manga that a card links to.
pub fn manga_from_card(card: &Card, include_chapters: bool) -> (r: Option<MangaEntry>)
    ensures
        match r {
            Some(m) => card_manga(card, include_chapters) == Some(m@),
            None => card_manga(card, include_chapters) is None,
        },
{
    let url = match &card.url {
        Some(url) => url.clone(),
        None => {
            return None;
        },
    };
    let key = match manga_key_from_url(url.as_str()) {
        Some(key) => key,
        None => {
            return None;
        },
    };
    let alt = match &card.image {
        Some(img) => clone_opt(&img.alt),
        None => None,
    };
    let title = match alt {
        Some(a) => a,
        None => match &card.heading {
            Some(h) => h.clone(),
            None => key_to_title(key.as_str()),
        },
    };
    let cover = match &card.image {
        Some(img) => if img.abs_data_src.is_some() {
            clone_opt(&img.abs_data_src)
        } else {
            clone_opt(&img.abs_src)
        },
        None => None,
    };
    let tags = match &card.container {
        Some(ct) => parse_tags_from_links(clone_links(&ct.tag_links)),
        None => None,
    };
    let rating = content_rating_from_tags(
        match &tags {
            Some(t) => Some(t),
            None => None,
        },
    );
    let chapters = if include_chapters {
        match &card.container {
            Some(ct) => parse_chapter_links(key.as_str(), &ct.chapter_links),
            None => None,
        }
    } else {
        None
    };
    Some(
        MangaEntry {
            key,
            title,
            cover,
            authors: None,
            artists: None,
            description: None,
            url: Some(url),
            tags,
            status: Status::Unknown,
            rating,
            reader: Reader::RightToLeft,
            chapters,
        },
    )
}

/// The mangas of the cards of a page, with the chapters their cards link to
/// when `include_chapters` holds.
pub fn parse_manga_cards(cards: &Vec<Card>, include_chapters: bool) -> (r: Vec<MangaEntry>)
    ensures
        mangas_view(r@) == cards_mangas(cards@, include_chapters),
{
    let mut entries: Vec<MangaEntry> = Vec::new();
    for i in 0..cards.len()
        invariant
            mangas_view(entries@) == cards_mangas(cards@.take(i as int), include_chapters),
    {
        assert(cards@.take(i + 1).drop_last() =~= cards@.take(i as int));
        if let Some(m) = manga_from_card(&cards[i], include_chapters) {
            let ghost before = entries@;
            let ghost mv = m@;
            entries.push(m);
            assert(mangas_view(entries@) =~= mangas_view(before).push(mv));
        }
    }
    assert(cards@.take(cards@.len() as int) =~= cards@);
    entries
}

// ---------------------------------------------------------------------------
// Manga page and chapter pages
// ---------------------------------------------------------------------------

/// What a manga's page holds.
pub struct DetailsPage {
    /// The cover image's absolute `src`.
    pub cover_src: Option<String>,
    /// The cover image's `alt`.
    pub cover_alt: Option<String>,
    /// The text of `#description`.
    pub description: Option<String>,
    /// The texts of the page's paragraphs, none when they could not be selected.
    pub paragraphs: Option<Vec<Option<String>>>,
    /// The texts of the genre links, none when they could not be selected.
    pub tag_links: Option<Vec<Option<String>>>,
}

/// The details of a manga read from its page.
pub struct Details {
    /// The new cover, when the page shows one.
    pub cover: Option<String>,
    /// The new title, when the manga has none yet and the cover has an `alt`.
    pub title: Option<String>,
    pub description: Option<String>,
    pub authors: Option<Vec<String>>,
    pub artists: Option<Vec<String>>,
    pub tags: Option<Vec<String>>,
    pub status: Status,
    pub url: String,
    pub rating: Rating,
}

/// The details, as text.
pub struct DetailsView {
    pub cover: Option<Seq<char>>,
    pub title: Option<Seq<char>>,
    pub description: Option<Seq<char>>,
    pub authors: Option<Seq<Seq<char>>>,
    pub artists: Option<Seq<Seq<char>>>,
    pub tags: Option<Seq<Seq<char>>>,
    pub status: Status,
    pub url: Seq<char>,
    pub rating: Rating,
}

impl View for Details {
    type V = DetailsView;

    open spec fn view(&self) -> DetailsView {
        DetailsView {
            cover: opt_view(self.cover),
            title: opt_view(self.title),
            description: opt_view(self.description),
            authors: opt_strs_view(self.authors),
            artists: opt_strs_view(self.artists),
            tags: opt_strs_view(self.tags),
            status: self.status,
            url: self.url@,
            rating: self.rating,
        }
    }
}

/// The value labelled `label`, none when the paragraphs could not be selected.
pub open spec fn labelled(paragraphs: Option<Vec<Option<String>>>, label: Seq<char>) -> Option<
    Seq<char>,
> {
    match paragraphs {
        Some(p) => metadata_from(opts_view(p@), label),
        None => None,
    }
}

/// A single value as a list of one.
pub open spec fn single(v: Option<Seq<char>>) -> Option<Seq<Seq<char>>> {
    match v {
        Some(x) => Some(seq![x]),
        None => None,
    }
}

fn labelled_value(paragraphs: &Option<Vec<Option<String>>>, label: &str) -> (r: Option<String>)
    ensures
        opt_view(r) == labelled(*paragraphs, label@),
{
    match paragraphs {
        Some(p) => metadata_value(p, label),
        None => None,
    }
}

fn single_list(v: Option<String>) -> (r: Option<Vec<String>>)
    ensures
        opt_strs_view(r) == single(opt_view(v)),
{
    match v {
        Some(x) => {
            let l = vec![x];
            assert(strs_view(l@) =~= seq![l@[0]@]);
            Some(l)
        },
        None => None,
    }
}

/// The details of the manga `key` read from its page; `title_is_empty`
/// tells whether the manga has no title yet.
pub fn manga_details(key: &str, title_is_empty: bool, page: &DetailsPage) -> (r: Details)
    ensures
        opt_view(r.cover) == opt_view(page.cover_src),
        opt_view(r.title) == if title_is_empty {
            opt_view(page.cover_alt)
        } else {
            None
        },
        opt_view(r.description) == opt_view(page.description),
        opt_strs_view(r.authors) == single(labelled(page.paragraphs, "Auteur"@)),
        opt_strs_view(r.artists) == single(labelled(page.paragraphs, "Artiste"@)),
        opt_strs_view(r.tags) == links_tags(
            match page.tag_links {
                Some(l) => Some(opts_view(l@)),
                None => None,
            },
        ),
        r.status == status_of(labelled(page.paragraphs, "Statut"@)),
        r.url@ == manga_page(key@, 1),
        r.rating == rating_of(opt_strs_view(r.tags)),
{
    let title = if title_is_empty {
        clone_opt(&page.cover_alt)
    } else {
        None
    };
    let tags = parse_tags_from_links(clone_links(&page.tag_links));
    let rating = content_rating_from_tags(
        match &tags {
            Some(t) => Some(t),
            None => None,
        },
    );
    Details {
        cover: clone_opt(&page.cover_src),
        title,
        description: clone_opt(&page.description),
        authors: single_list(labelled_value(&page.paragraphs, "Auteur")),
        artists: single_list(labelled_value(&page.paragraphs, "Artiste")),
        tags,
        status: parse_status(labelled_value(&page.paragraphs, "Statut")),
        url: manga_url(key, 1),
        rating,
    }
}

/// The page images of a chapter page: for each chapter image, its absolute
/// `data-src`, else its absolute `src`; images with neither are skipped.
pub open spec fn page_images(images: Seq<(Option<Seq<char>>, Option<Seq<char>>)>) -> Seq<Seq<char>>
    decreases images.len(),
{
    if images.len() == 0 {
        Seq::empty()
    } else {
        let prev = page_images(images.drop_last());
        match images.last() {
            (Some(d), _) => prev.push(d),
            (None, Some(s)) => prev.push(s),
            (None, None) => prev,
        }
    }
}

/// The attribute pairs, as text.
pub open spec fn pairs_view(v: Seq<(Option<String>, Option<String>)>) -> Seq<
    (Option<Seq<char>>, Option<Seq<char>>),
> {
    v.map_values(|p: (Option<String>, Option<String>)| (opt_view(p.0), opt_view(p.1)))
}

/// The page image URLs of a chapter from the `(abs:data-src, abs:src)`
/// attributes of its images.
pub fn page_urls(images: &Vec<(Option<String>, Option<String>)>) -> (r: Vec<String>)
    ensures
        strs_view(r@) == page_images(pairs_view(images@)),
{
    let mut urls: Vec<String> = Vec::new();
    for i in 0..images.len()
        invariant
            strs_view(urls@) == page_images(pairs_view(images@.take(i as int))),
    {
        let ghost t = pairs_view(images@.take(i + 1));
        assert(t.drop_last() =~= pairs_view(images@.take(i as int)));
        let ghost before = urls@;
        match &images[i] {
            (Some(d), _) => {
                urls.push(d.clone());
                assert(strs_view(urls@) =~= strs_view(before).push(d@));
            },
            (None, Some(s)) => {
                urls.push(s.clone());
                assert(strs_view(urls@) =~= strs_view(before).push(s@));
            },
            (None, None) => {},
        }
    }
    assert(images@.take(images@.len() as int) =~= images@);
    urls
}

/// `m` updated with the details of its page: the page's cover and title
/// when it gives them, and its description, authors, artists, tags,
/// status, address and rating; the reading mode is right to left; the key
/// and chapters stay.
pub open spec fn with_details(m: MangaView, d: DetailsView) -> MangaView {
    MangaView {
        key: m.key,
        title: match d.title {
            Some(t) => t,
            None => m.title,
        },
        cover: match d.cover {
            Some(c) => Some(c),
            None => m.cover,
        },
        authors: d.authors,
        artists: d.artists,
        description: d.description,
        url: Some(d.url),
        tags: d.tags,
        status: d.status,
        rating: d.rating,
        reader: Reader::RightToLeft,
        chapters: m.chapters,
    }
}

/// Updates `manga` with the details read from its page.
pub fn apply_details(manga: &mut MangaEntry, details: Details)
    ensures
        final(manga)@ == with_details(old(manga)@, details@),
{
    let Details { cover, title, description, authors, artists, tags, status, url, rating } =
        details;
    if let Some(c) = cover {
        manga.cover = Some(c);
    }
    if let Some(t) = title {
        manga.title = t;
    }
    manga.description = description;
    manga.authors = authors;
    manga.artists = artists;
    manga.tags = tags;
    manga.status = status;
    manga.url = Some(url);
    manga.rating = rating;
    manga.reader = Reader::RightToLeft;
}

// ---------------------------------------------------------------------------
// Laws
// ---------------------------------------------------------------------------

/// A tag read in lowercase as `adulte`, `ecchi`, `gore`, `mature` or
/// `violence` makes a manga at least suggestive, whatever the other tags;
/// it is suggestive, not explicit, when no tag reads `erotique` or `smut`.
pub proof fn law_suggestive_tag_added(ts: Seq<Seq<char>>, t: Seq<char>)
    requires
        str_lowercase(t) == "adulte"@ || str_lowercase(t) == "ecchi"@ || str_lowercase(t)
            == "gore"@ || str_lowercase(t) == "mature"@ || str_lowercase(t) == "violence"@,
    ensures
        rating_of(Some(ts.push(t))) == Rating::Suggestive || rating_of(Some(ts.push(t)))
            == Rating::Nsfw,
        (forall|i: int|
            0 <= i < ts.len() ==> str_lowercase(#[trigger] ts[i]) != "erotique"@ && str_lowercase(
                ts[i],
            ) != "smut"@) ==> rating_of(Some(ts.push(t))) == Rating::Suggestive,
{
    reveal_strlit("adulte");
    reveal_strlit("ecchi");
    reveal_strlit("gore");
    reveal_strlit("mature");
    reveal_strlit("violence");
    reveal_strlit("erotique");
    reveal_strlit("smut");
    let all = ts.push(t);
    let l = str_lowercase(t);
    assert(all[ts.len() as int] == t);
    assert(l != "erotique"@ && l != "smut"@) by {
        assert("adulte"@.len() != "erotique"@.len() && "adulte"@.len() != "smut"@.len());
        assert("ecchi"@.len() != "erotique"@.len() && "ecchi"@.len() != "smut"@.len());
        assert("gore"@.len() != "erotique"@.len() && "gore"@[0] != "smut"@[0]);
        assert("mature"@.len() != "erotique"@.len() && "mature"@.len() != "smut"@.len());
        assert("violence"@[0] != "erotique"@[0] && "violence"@.len() != "smut"@.len());
    }
    assert(suggestive_tag(str_lowercase(all[ts.len() as int])));
    if forall|i: int|
        0 <= i < ts.len() ==> str_lowercase(#[trigger] ts[i]) != "erotique"@ && str_lowercase(
            ts[i],
        ) != "smut"@ {
        assert forall|i: int| 0 <= i < all.len() implies !explicit_tag(
            str_lowercase(#[trigger] all[i]),
        ) by {
            if i < ts.len() {
                assert(all[i] == ts[i]);
            }
        }
    }
}

/// A tag read in lowercase as `erotique` or `smut` makes a manga explicit,
/// whatever the other tags.
pub proof fn law_explicit_tag_added(ts: Seq<Seq<char>>, t: Seq<char>)
    requires
        str_lowercase(t) == "erotique"@ || str_lowercase(t) == "smut"@,
    ensures
        rating_of(Some(ts.push(t))) == Rating::Nsfw,
{
    assert(ts.push(t)[ts.len() as int] == t);
}

/// Tags none of which reads, in lowercase, as a marked genre (`erotique`,
/// `smut`, `adulte`, `ecchi`, `gore`, `mature`, `violence`) leave a manga
/// safe.
pub proof fn law_unmarked_tags_safe(ts: Seq<Seq<char>>)
    requires
        forall|i: int|
            0 <= i < ts.len() ==> !(str_lowercase(#[trigger] ts[i]) == "erotique"@ || str_lowercase(
                ts[i],
            ) == "smut"@ || str_lowercase(ts[i]) == "adulte"@ || str_lowercase(ts[i]) == "ecchi"@
                || str_lowercase(ts[i]) == "gore"@ || str_lowercase(ts[i]) == "mature"@
                || str_lowercase(ts[i]) == "violence"@),
    ensures
        rating_of(Some(ts)) == Rating::Safe,
{
}

/// The status paragraph is read in lowercase: ongoing when it mentions
/// `cours` (`En cours`), else completed when it mentions `termin`
/// (`Terminé`) or `complete`, else on hiatus when it mentions `pause` or
/// `hiatus`, else unknown; no paragraph is unknown.
pub proof fn law_status_words(status: Option<Seq<char>>)
    ensures
        (status matches Some(s) && contains(str_lowercase(s), "cours"@)) ==> status_of(status)
            == Status::Ongoing,
        (status matches Some(s) && !contains(str_lowercase(s), "cours"@) && (contains(
            str_lowercase(s),
            "termin"@,
        ) || contains(str_lowercase(s), "complete"@))) ==> status_of(status) == Status::Completed,
        (status matches Some(s) && !contains(str_lowercase(s), "cours"@) && !contains(
            str_lowercase(s),
            "termin"@,
        ) && !contains(str_lowercase(s), "complete"@) && (contains(str_lowercase(s), "pause"@)
            || contains(str_lowercase(s), "hiatus"@))) ==> status_of(status) == Status::Hiatus,
        status is None ==> status_of(status) == Status::Unknown,
{
}

/// No `/manga/` occurs in the first characters of an address on the site.
proof fn lemma_no_marker_in_base(url: Seq<char>, marker: Seq<char>)
    requires
        url.len() >= 26,
        url.subrange(0, 26) == BASE_URL@ + "/"@,
        marker.len() >= 2,
        marker[0] == '/',
        marker[1] == 'm',
    ensures
        forall|j: int| 0 <= j < 25 ==> !matches_at(url, marker, j),
{
    reveal_strlit("https://www.lelscanfr.com");
    reveal_strlit("/");
    assert forall|j: int| 0 <= j < 25 implies !matches_at(url, marker, j) by {
        if matches_at(url, marker, j) {
            assert(url.subrange(j, j + marker.len())[0] == url[j]);
            assert(url.subrange(j, j + marker.len())[1] == url[j + 1]);
            assert(url.subrange(0, 26)[j] == url[j]);
            assert(url.subrange(0, 26)[j + 1] == url[j + 1]);
        }
    }
}

/// The key of a manga is read back from the address of any page of its
/// chapter list, for a key that is not empty, holds no `/` or `?`, and is
/// not `random`.
pub proof fn law_manga_key_of_manga_url(key: Seq<char>, page: int)
    requires
        key.len() > 0,
        !key.contains('/'),
        !key.contains('?'),
        key != "random"@,
    ensures
        manga_key(manga_page(key, page)) == Some(key),
{
    reveal_strlit("https://www.lelscanfr.com");
    reveal_strlit("/manga/");
    reveal_strlit("?page=");
    reveal_strlit("/");
    let path = BASE_URL@ + "/manga/"@ + key;
    let url = manga_page(key, page);
    assert(!path.contains('?')) by {
        if path.contains('?') {
            let i = choose|i: int| 0 <= i < path.len() && path[i] == '?';
            if i >= 32 {
                assert(key[i - 32] == '?');
            }
        }
    }
    if page <= 1 {
        assert(url =~= path);
        crate::text::lemma_before_char_absent(url, '?');
    } else {
        assert(url[path.len() as int] == '?');
        assert(url.take(path.len() as int) =~= path);
        crate::text::lemma_before_char_at(url, '?', path.len() as int);
    }
    assert(path.subrange(0, 26) =~= BASE_URL@ + "/"@);
    assert(path.subrange(25, 32) =~= "/manga/"@);
    lemma_no_marker_in_base(path, "/manga/"@);
    crate::text::lemma_find_first(path, "/manga/"@, 25);
    assert(path.skip(32) =~= key);
    crate::text::lemma_before_char_absent(key, '/');
}

/// The key of a chapter is read back from the address that
/// `chapter_page_url` makes of the manga's key and its own, for a manga key
/// without `?` and a chapter key that is not empty and holds no `/` or `?`.
pub proof fn law_chapter_key_of_chapter_url(manga_key: Seq<char>, key: Seq<char>)
    requires
        !manga_key.contains('?'),
        key.len() > 0,
        !key.contains('/'),
        !key.contains('?'),
    ensures
        chapter_key(manga_key, BASE_URL@ + "/manga/"@ + manga_key + "/"@ + key) == Some(key),
{
    reveal_strlit("https://www.lelscanfr.com");
    reveal_strlit("/manga/");
    reveal_strlit("/");
    let url = BASE_URL@ + "/manga/"@ + manga_key + "/"@ + key;
    let marker = "/manga/"@ + manga_key + "/"@;
    let n = manga_key.len();
    assert(!url.contains('?')) by {
        if url.contains('?') {
            let i = choose|i: int| 0 <= i < url.len() && url[i] == '?';
            if 32 <= i < 32 + n {
                assert(manga_key[i - 32] == '?');
            } else if i >= 33 + n {
                assert(key[i - 33 - n] == '?');
            }
        }
    }
    crate::text::lemma_before_char_absent(url, '?');
    assert(url.subrange(0, 26) =~= BASE_URL@ + "/"@);
    assert(url.subrange(25, 25 + marker.len() as int) =~= marker);
    assert(marker[0] == '/' && marker[1] == 'm');
    lemma_no_marker_in_base(url, marker);
    crate::text::lemma_find_first(url, marker, 25);
    assert(url.skip(25 + marker.len() as int) =~= key);
    crate::text::lemma_before_char_absent(key, '/');
}

/// Adding the chapters of links keeps chapter keys without repeats.
pub proof fn law_link_chapters_unique(
    manga_key: Seq<char>,
    links: Seq<Option<Seq<char>>>,
    chapters: Seq<ChapterView>,
)
    requires
        chapter_keys(chapters).no_duplicates(),
    ensures
        chapter_keys(with_link_chapters(manga_key, links, chapters)).no_duplicates(),
    decreases links.len(),
{
    if links.len() > 0 {
        law_link_chapters_unique(manga_key, links.drop_last(), chapters);
        let prev = with_link_chapters(manga_key, links.drop_last(), chapters);
        if let Some(url) = links.last() {
            if let Some(key) = chapter_key(manga_key, url) {
                if !chapter_keys(prev).contains(key) {
                    assert(chapter_keys(prev.push(link_chapter(key, url))) =~= chapter_keys(
                        prev,
                    ).push(key));
                }
            }
        }
    }
}

/// The chapter list is read page after page, never past
/// `MAX_CHAPTER_PAGES`.
pub proof fn law_chapter_pages_bounded(page: int, has_next: bool)
    ensures
        next_chapter_page_of(page, has_next) matches Some(next) ==> next == page + 1 && next
            <= MAX_CHAPTER_PAGES,
{
}

/// The tags read from genre links hold no tag twice.
pub proof fn law_links_tags_distinct(links: Option<Seq<Option<Seq<char>>>>)
    ensures
        links_tags(links) matches Some(tags) ==> tags.no_duplicates(),
{
    if let Some(texts) = links {
        crate::lists::law_dedupe(clean_tags(texts));
    }
}

} // verus!
