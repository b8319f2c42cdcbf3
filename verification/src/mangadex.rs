//! MangaDex in French (`https://mangadex.org`), through the MangaDex API.
use vstd::prelude::*;
use vstd::utf8::encode_utf8;
use crate::civil::{days_from_civil, days_from_civil_spec};
use crate::lists::push_unique;
use crate::model::{
    chapters_view, filters_view, opt_strs_view, opt_view, params_view, strs_view, ChapterEntry,
    ChapterView, Filter, FilterView, MangaEntry, MangaView, ParamView, QueryParam, Rating, Reader,
    Status,
};
use crate::query::{push_query_param, query_param, url_with_query, with_query};
use crate::text::{
    append, append_str, chars_of, decimal, decimal_exec, eq_chars, has_prefix, starts_with_str,
    string_of, trim, trim_str,
};

verus! {

/// The API's address.
pub const API_URL: &'static str = "https://api.mangadex.org";

/// The site's address.
pub const SITE_URL: &'static str = "https://mangadex.org";

/// The address of uploaded files.
pub const UPLOADS_URL: &'static str = "https://uploads.mangadex.org";

/// The number of mangas on a page of results.
pub const PAGE_SIZE: i32 = 20;

/// The number of chapters asked for at once.
pub const CHAPTER_PAGE_SIZE: i32 = 500;

/// The largest page whose offset fits in an `i32`.
pub const MAX_PAGE: i32 = 107374183;

fn literal_is(w: &[char], lit: &str) -> (r: bool)
    ensures
        r == (w@ == lit@),
{
    let l = chars_of(lit);
    eq_chars(w, l.as_slice())
}

fn str_is(s: &str, lit: &str) -> (r: bool)
    ensures
        r == (s@ == lit@),
{
    let c = chars_of(s);
    literal_is(c.as_slice(), lit)
}

fn clone_opt(o: &Option<String>) -> (r: Option<String>)
    ensures
        opt_view(r) == opt_view(*o),
{
    match o {
        Some(s) => Some(s.clone()),
        None => None,
    }
}

// ---------------------------------------------------------------------------
// Query parameters
// ---------------------------------------------------------------------------

/// The order of a list of mangas.
#[derive(PartialEq, Eq, Structural, Clone, Copy, Debug)]
pub enum SearchOrder {
    LatestUploadedChapter,
    FollowedCount,
    CreatedAt,
}

/// The order of the listing `id`: by follows for `popular`, by creation for
/// `new`, by latest upload otherwise.
pub open spec fn listing_order_of(id: Seq<char>) -> SearchOrder {
    if id == "popular"@ {
        SearchOrder::FollowedCount
    } else if id == "new"@ {
        SearchOrder::CreatedAt
    } else {
        SearchOrder::LatestUploadedChapter
    }
}

/// The order of the listing `id`.
pub fn listing_order(id: &str) -> (r: SearchOrder)
    ensures
        r == listing_order_of(id@),
{
    if str_is(id, "popular") {
        SearchOrder::FollowedCount
    } else if str_is(id, "new") {
        SearchOrder::CreatedAt
    } else {
        SearchOrder::LatestUploadedChapter
    }
}

/// Adds the parameter `key=value` for a value that is not blank once trimmed.
pub fn push_param(params: &mut Vec<QueryParam>, key: &str, value: &str)
    ensures
        params_view(final(params)@) == params_view(old(params)@) + query_param(key@, value@),
{
    push_query_param(params, key, value);
}

/// The relationships a manga is asked for with: cover art, author, artist.
pub open spec fn manga_includes() -> Seq<ParamView> {
    query_param("includes[]"@, "cover_art"@) + query_param("includes[]"@, "author"@)
        + query_param("includes[]"@, "artist"@)
}

/// Asks for a manga's cover art, authors and artists.
pub fn push_default_manga_includes(params: &mut Vec<QueryParam>)
    ensures
        params_view(final(params)@) == params_view(old(params)@) + manga_includes(),
{
    let ghost start = params_view(params@);
    push_param(params, "includes[]", "cover_art");
    push_param(params, "includes[]", "author");
    push_param(params, "includes[]", "artist");
    assert(params_view(params@) =~= start + manga_includes());
}

/// The content ratings asked for by default: safe, suggestive, erotica.
pub open spec fn default_ratings() -> Seq<ParamView> {
    query_param("contentRating[]"@, "safe"@) + query_param("contentRating[]"@, "suggestive"@)
        + query_param("contentRating[]"@, "erotica"@)
}

/// Asks for the default content ratings.
pub fn push_default_content_ratings(params: &mut Vec<QueryParam>)
    ensures
        params_view(final(params)@) == params_view(old(params)@) + default_ratings(),
{
    let ghost start = params_view(params@);
    push_param(params, "contentRating[]", "safe");
    push_param(params, "contentRating[]", "suggestive");
    push_param(params, "contentRating[]", "erotica");
    assert(params_view(params@) =~= start + default_ratings());
}

/// `path`, then `?` and the written parameters joined by `&` when there are any.
pub fn api_path(path: &str, rendered: &Vec<String>) -> (r: String)
    ensures
        r@ == with_query(path@, strs_view(rendered@)),
{
    url_with_query(path, rendered)
}

/// The parameters of the values, each under `key`.
pub open spec fn values_params(key: Seq<char>, values: Seq<Seq<char>>) -> Seq<ParamView>
    decreases values.len(),
{
    if values.len() == 0 {
        Seq::empty()
    } else {
        values_params(key, values.drop_last()) + query_param(key, values.last())
    }
}

/// The parameters of the filters and whether a content rating filter with
/// values was the last rating filter: the multiple-choice filters `status`,
/// `demographic` and `rating` give `status[]`, `publicationDemographic[]` and
/// `contentRating[]`; other filters give nothing.
pub open spec fn filters_params(fs: Seq<FilterView>) -> (Seq<ParamView>, bool)
    decreases fs.len(),
{
    if fs.len() == 0 {
        (Seq::empty(), false)
    } else {
        let (prev, rated) = filters_params(fs.drop_last());
        match fs.last() {
            FilterView::MultiSelect { id, included } => if id == "status"@ {
                (prev + values_params("status[]"@, included), rated)
            } else if id == "demographic"@ {
                (prev + values_params("publicationDemographic[]"@, included), rated)
            } else if id == "rating"@ {
                (prev + values_params("contentRating[]"@, included), included.len() > 0)
            } else {
                (prev, rated)
            },
            _ => (prev, rated),
        }
    }
}

/// The parameter of the sort order.
pub open spec fn order_param(order: SearchOrder) -> Seq<ParamView> {
    match order {
        SearchOrder::LatestUploadedChapter => query_param(
            "order[latestUploadedChapter]"@,
            "desc"@,
        ),
        SearchOrder::FollowedCount => query_param("order[followedCount]"@, "desc"@),
        SearchOrder::CreatedAt => query_param("order[createdAt]"@, "desc"@),
    }
}

/// The parameters of a list of mangas with French chapters: page size and
/// offset (pages below 1 count as 1), language, the relationships, the
/// trimmed title when the query is not blank, the filters, the default
/// content ratings when no rating filter chose some, and the order.
pub open spec fn manga_list_query(
    query: Option<Seq<char>>,
    page: int,
    filters: Seq<FilterView>,
    order: SearchOrder,
) -> Seq<ParamView> {
    let page = if page < 1 {
        1
    } else {
        page
    };
    let offset = (page - 1) * PAGE_SIZE;
    let (fparams, rated) = filters_params(filters);
    query_param("limit"@, decimal(PAGE_SIZE as int)) + query_param("offset"@, decimal(offset))
        + query_param("availableTranslatedLanguage[]"@, "fr"@) + query_param(
        "hasAvailableChapters"@,
        "true"@,
    ) + manga_includes() + match query {
        Some(q) => if trim(q).len() > 0 {
            query_param("title"@, trim(q))
        } else {
            Seq::empty()
        },
        None => Seq::empty(),
    } + fparams + if rated {
        Seq::empty()
    } else {
        default_ratings()
    } + order_param(order)
}

fn push_values(params: &mut Vec<QueryParam>, key: &str, values: &Vec<String>)
    ensures
        params_view(final(params)@) == params_view(old(params)@) + values_params(
            key@,
            strs_view(values@),
        ),
{
    let ghost start = params_view(params@);
    for j in 0..values.len()
        invariant
            params_view(params@) == start + values_params(key@, strs_view(values@.take(j as int))),
    {
        let ghost u = strs_view(values@.take(j + 1));
        assert(u.drop_last() =~= strs_view(values@.take(j as int)));
        assert(u.last() == values@[j as int]@);
        push_param(params, key, values[j].as_str());
    }
    assert(values@.take(values@.len() as int) =~= values@);
}

/// The parameters of a list of mangas.
pub fn manga_list_params(
    query: Option<String>,
    page: i32,
    filters: &Vec<Filter>,
    order: SearchOrder,
) -> (r: Vec<QueryParam>)
    requires
        page <= MAX_PAGE,
    ensures
        params_view(r@) == manga_list_query(opt_view(query), page as int, filters_view(filters@), order),
{
    let mut params: Vec<QueryParam> = Vec::new();
    let p = if page < 1 {
        1
    } else {
        page
    };
    let offset = (p - 1) * PAGE_SIZE;
    let limit_text = decimal_exec(PAGE_SIZE as i64);
    let limit_text = string_of(limit_text.as_slice());
    let offset_text = decimal_exec(offset as i64);
    let offset_text = string_of(offset_text.as_slice());
    let ghost s0 = params_view(params@);
    push_param(&mut params, "limit", limit_text.as_str());
    push_param(&mut params, "offset", offset_text.as_str());
    push_param(&mut params, "availableTranslatedLanguage[]", "fr");
    push_param(&mut params, "hasAvailableChapters", "true");
    push_default_manga_includes(&mut params);
    let ghost s1 = params_view(params@);
    if let Some(q) = &query {
        let t = trim_str(q.as_str());
        if t.len() > 0 {
            let ts = string_of(t.as_slice());
            push_param(&mut params, "title", ts.as_str());
            proof {
                crate::text::lemma_trim_idem(q@);
            }
        }
    }
    let ghost s2 = params_view(params@);
    let mut rated = false;
    let ghost start = params_view(params@);
    for i in 0..filters.len()
        invariant
            (params_view(params@).skip(start.len() as int), rated) == filters_params(
                filters_view(filters@.take(i as int)),
            ),
            params_view(params@).take(start.len() as int) == start,
            params_view(params@).len() >= start.len(),
    {
        let ghost t = filters_view(filters@.take(i + 1));
        assert(t.drop_last() =~= filters_view(filters@.take(i as int)));
        assert(t.last() == filters@[i as int]@);
        let ghost before = params_view(params@);
        match &filters[i] {
            Filter::MultiSelect { id, included } => {
                if str_is(id.as_str(), "status") {
                    push_values(&mut params, "status[]", included);
                } else if str_is(id.as_str(), "demographic") {
                    push_values(&mut params, "publicationDemographic[]", included);
                } else if str_is(id.as_str(), "rating") {
                    rated = included.len() > 0;
                    push_values(&mut params, "contentRating[]", included);
                }
            },
            _ => {},
        }
        assert(params_view(params@).skip(start.len() as int) =~= before.skip(start.len() as int)
            + (params_view(params@).skip(before.len() as int)));
        assert(params_view(params@).take(start.len() as int) =~= start);
    }
    assert(filters@.take(filters@.len() as int) =~= filters@);
    let ghost s3 = params_view(params@);
    if !rated {
        push_default_content_ratings(&mut params);
    }
    let ghost s4 = params_view(params@);
    match order {
        SearchOrder::LatestUploadedChapter => push_param(
            &mut params,
            "order[latestUploadedChapter]",
            "desc",
        ),
        SearchOrder::FollowedCount => push_param(&mut params, "order[followedCount]", "desc"),
        SearchOrder::CreatedAt => push_param(&mut params, "order[createdAt]", "desc"),
    }
    assert(s3 =~= start + s3.skip(start.len() as int));
    assert(params_view(params@) =~= manga_list_query(
        opt_view(query),
        page as int,
        filters_view(filters@),
        order,
    ));
    params
}

/// The path of a list of mangas from its written parameters.
pub fn manga_list_path(rendered: &Vec<String>) -> (r: String)
    ensures
        r@ == with_query("/manga"@, strs_view(rendered@)),
{
    api_path("/manga", rendered)
}

/// Whether a page of results is followed by another: the results after the
/// page's offset plus the larger of its limit and its count come before
/// the total.
pub open spec fn has_more(offset: int, limit: int, count: int, total: int) -> bool {
    offset + (if limit > count {
        limit
    } else {
        count
    }) < total
}

/// Whether a page of results is followed by another.
pub fn has_next_page(offset: i32, limit: i32, count: i32, total: i32) -> (r: bool)
    requires
        i32::MIN <= offset + (if limit > count {
            limit
        } else {
            count
        }) <= i32::MAX,
    ensures
        r == has_more(offset as int, limit as int, count as int, total as int),
{
    let step = if limit > count {
        limit
    } else {
        count
    };
    offset + step < total
}

/// The parameters of a page of a manga's French chapter feed.
pub open spec fn feed_query(offset: int) -> Seq<ParamView> {
    query_param("limit"@, decimal(CHAPTER_PAGE_SIZE as int)) + query_param(
        "offset"@,
        decimal(offset),
    ) + query_param("translatedLanguage[]"@, "fr"@) + query_param("includeFutureUpdates"@, "0"@)
        + query_param("includeEmptyPages"@, "1"@) + query_param("includeExternalUrl"@, "1"@)
        + query_param("includes[]"@, "scanlation_group"@) + default_ratings() + query_param(
        "order[volume]"@,
        "desc"@,
    ) + query_param("order[chapter]"@, "desc"@)
}

/// The parameters of the page of a chapter feed that starts at `offset`.
pub fn feed_params(offset: i32) -> (r: Vec<QueryParam>)
    ensures
        params_view(r@) == feed_query(offset as int),
{
    let mut params: Vec<QueryParam> = Vec::new();
    let limit_text = decimal_exec(CHAPTER_PAGE_SIZE as i64);
    let limit_text = string_of(limit_text.as_slice());
    let offset_text = decimal_exec(offset as i64);
    let offset_text = string_of(offset_text.as_slice());
    push_param(&mut params, "limit", limit_text.as_str());
    push_param(&mut params, "offset", offset_text.as_str());
    push_param(&mut params, "translatedLanguage[]", "fr");
    push_param(&mut params, "includeFutureUpdates", "0");
    push_param(&mut params, "includeEmptyPages", "1");
    push_param(&mut params, "includeExternalUrl", "1");
    push_param(&mut params, "includes[]", "scanlation_group");
    push_default_content_ratings(&mut params);
    push_param(&mut params, "order[volume]", "desc");
    push_param(&mut params, "order[chapter]", "desc");
    assert(params_view(params@) =~= feed_query(offset as int));
    params
}

/// The path of a manga's chapter feed from its written parameters.
pub fn feed_path(manga_id: &str, rendered: &Vec<String>) -> (r: String)
    ensures
        r@ == with_query("/manga/"@ + manga_id@ + "/feed"@, strs_view(rendered@)),
{
    let mut p = chars_of("/manga/");
    append_str(&mut p, manga_id);
    append_str(&mut p, "/feed");
    let p = string_of(p.as_slice());
    api_path(p.as_str(), rendered)
}

/// The offset of the next page of a chapter feed after a page of `count`
/// chapters: none when the page is empty or short, or the next offset
/// reaches the total.
pub open spec fn next_feed_offset_of(count: int, offset: int, limit: int, total: int) -> Option<int> {
    if count == 0 {
        None
    } else {
        let next = offset + if limit > count {
            limit
        } else {
            count
        };
        if count < CHAPTER_PAGE_SIZE || next >= total {
            None
        } else {
            Some(next)
        }
    }
}

/// The offset of the next page of a chapter feed.
pub fn next_feed_offset(count: i32, offset: i32, limit: i32, total: i32) -> (r: Option<i32>)
    requires
        count == 0 || i32::MIN <= offset + (if limit > count {
            limit
        } else {
            count
        }) <= i32::MAX,
    ensures
        match r {
            Some(n) => next_feed_offset_of(count as int, offset as int, limit as int, total as int)
                == Some(n as int),
            None => next_feed_offset_of(
                count as int,
                offset as int,
                limit as int,
                total as int,
            ) is None,
        },
{
    if count == 0 {
        return None;
    }
    let next = offset + if limit > count {
        limit
    } else {
        count
    };
    if count < CHAPTER_PAGE_SIZE || next >= total {
        None
    } else {
        Some(next)
    }
}

// ---------------------------------------------------------------------------
// Entities
// ---------------------------------------------------------------------------

/// A relationship of an entity, with the attributes the sources read.
pub struct Relationship {
    pub kind: String,
    pub file_name: Option<String>,
    pub name: Option<String>,
}

/// A relationship, as text.
pub struct RelationshipView {
    pub kind: Seq<char>,
    pub file_name: Option<Seq<char>>,
    pub name: Option<Seq<char>>,
}

impl View for Relationship {
    type V = RelationshipView;

    open spec fn view(&self) -> RelationshipView {
        RelationshipView {
            kind: self.kind@,
            file_name: opt_view(self.file_name),
            name: opt_view(self.name),
        }
    }
}

/// The relationships, as text.
pub open spec fn rels_view(v: Seq<Relationship>) -> Seq<RelationshipView> {
    v.map_values(|r: Relationship| r@)
}

/// The entries of a localized text, as `(language, text)` pairs in the order
/// in which the map that holds them is walked.
pub open spec fn pairs_view(v: Seq<(String, String)>) -> Seq<(Seq<char>, Seq<char>)> {
    v.map_values(|p: (String, String)| (p.0@, p.1@))
}

/// A text trimmed, when it is not blank.
pub open spec fn non_empty_of(value: Option<Seq<char>>) -> Option<Seq<char>> {
    match value {
        Some(v) => if trim(v).len() > 0 {
            Some(trim(v))
        } else {
            None
        },
        None => None,
    }
}

/// A text trimmed, when it is not blank.
pub fn non_empty(value: Option<&String>) -> (r: Option<String>)
    ensures
        opt_view(r) == non_empty_of(
            match value {
                Some(v) => Some(v@),
                None => None,
            },
        ),
{
    match value {
        Some(v) => {
            let t = trim_str(v.as_str());
            if t.len() > 0 {
                Some(string_of(t.as_slice()))
            } else {
                None
            }
        },
        None => None,
    }
}

/// The text of the first entry for `language`.
pub open spec fn lookup(values: Seq<(Seq<char>, Seq<char>)>, language: Seq<char>) -> Option<
    Seq<char>,
>
    decreases values.len(),
{
    if values.len() == 0 {
        None
    } else if values[0].0 == language {
        Some(values[0].1)
    } else {
        lookup(values.drop_first(), language)
    }
}

/// The first text that is not blank, trimmed.
pub open spec fn first_non_empty(values: Seq<(Seq<char>, Seq<char>)>) -> Option<Seq<char>>
    decreases values.len(),
{
    if values.len() == 0 {
        None
    } else {
        match non_empty_of(Some(values[0].1)) {
            Some(v) => Some(v),
            None => first_non_empty(values.drop_first()),
        }
    }
}

/// The languages preferred for a text, in order.
pub open spec fn preferred(k: int) -> Seq<char> {
    if k == 0 {
        "fr"@
    } else if k == 1 {
        "en"@
    } else if k == 2 {
        "ja-ro"@
    } else {
        "ja"@
    }
}

/// A localized text: the first of French, English, romanized Japanese and
/// Japanese that is not blank, else the first entry that is not blank, trimmed.
pub open spec fn localized_of(values: Seq<(Seq<char>, Seq<char>)>) -> Option<Seq<char>> {
    match non_empty_of(lookup(values, preferred(0))) {
        Some(v) => Some(v),
        None => match non_empty_of(lookup(values, preferred(1))) {
            Some(v) => Some(v),
            None => match non_empty_of(lookup(values, preferred(2))) {
                Some(v) => Some(v),
                None => match non_empty_of(lookup(values, preferred(3))) {
                    Some(v) => Some(v),
                    None => first_non_empty(values),
                },
            },
        },
    }
}

fn lookup_exec<'a>(values: &'a Vec<(String, String)>, language: &str) -> (r: Option<&'a String>)
    ensures
        match r {
            Some(v) => lookup(pairs_view(values@), language@) == Some(v@),
            None => lookup(pairs_view(values@), language@) is None,
        },
{
    let ghost all = pairs_view(values@);
    assert(all.skip(0) =~= all);
    for i in 0..values.len()
        invariant
            all == pairs_view(values@),
            lookup(all, language@) == lookup(all.skip(i as int), language@),
    {
        assert(all.skip(i as int)[0] == (values@[i as int].0@, values@[i as int].1@));
        assert(all.skip(i as int).drop_first() =~= all.skip(i + 1));
        if str_is(values[i].0.as_str(), language) {
            return Some(&values[i].1);
        }
    }
    assert(all.skip(values@.len() as int) =~= Seq::<(Seq<char>, Seq<char>)>::empty());
    None
}

fn first_non_empty_exec(values: &Vec<(String, String)>) -> (r: Option<String>)
    ensures
        opt_view(r) == first_non_empty(pairs_view(values@)),
{
    let ghost all = pairs_view(values@);
    assert(all.skip(0) =~= all);
    for i in 0..values.len()
        invariant
            all == pairs_view(values@),
            first_non_empty(all) == first_non_empty(all.skip(i as int)),
    {
        assert(all.skip(i as int)[0] == (values@[i as int].0@, values@[i as int].1@));
        assert(all.skip(i as int).drop_first() =~= all.skip(i + 1));
        let v = non_empty(Some(&values[i].1));
        if v.is_some() {
            return v;
        }
    }
    assert(all.skip(values@.len() as int) =~= Seq::<(Seq<char>, Seq<char>)>::empty());
    None
}

/// A localized text from its entries, in the order the map is walked.
pub fn localized_value(values: &Vec<(String, String)>) -> (r: Option<String>)
    ensures
        opt_view(r) == localized_of(pairs_view(values@)),
{
    let v = non_empty(lookup_exec(values, "fr"));
    if v.is_some() {
        return v;
    }
    let v = non_empty(lookup_exec(values, "en"));
    if v.is_some() {
        return v;
    }
    let v = non_empty(lookup_exec(values, "ja-ro"));
    if v.is_some() {
        return v;
    }
    let v = non_empty(lookup_exec(values, "ja"));
    if v.is_some() {
        return v;
    }
    first_non_empty_exec(values)
}

/// The alternative titles, as text.
pub open spec fn alts_view(v: Seq<Vec<(String, String)>>) -> Seq<Seq<(Seq<char>, Seq<char>)>> {
    v.map_values(|m: Vec<(String, String)>| pairs_view(m@))
}

/// The first alternative title that has a text for `language` that is not blank.
pub open spec fn alt_in(alts: Seq<Seq<(Seq<char>, Seq<char>)>>, language: Seq<char>) -> Option<
    Seq<char>,
>
    decreases alts.len(),
{
    if alts.len() == 0 {
        None
    } else {
        match non_empty_of(lookup(alts[0], language)) {
            Some(t) => Some(t),
            None => alt_in(alts.drop_first(), language),
        }
    }
}

/// The first alternative title that has any text that is not blank.
pub open spec fn alt_any(alts: Seq<Seq<(Seq<char>, Seq<char>)>>) -> Option<Seq<char>>
    decreases alts.len(),
{
    if alts.len() == 0 {
        None
    } else {
        match first_non_empty(alts[0]) {
            Some(t) => Some(t),
            None => alt_any(alts.drop_first()),
        }
    }
}

/// An alternative title: for each preferred language in turn, the first
/// alternative title in that language that is not blank; else the first
/// text that is not blank of any alternative title.
pub open spec fn localized_alt_of(alts: Seq<Seq<(Seq<char>, Seq<char>)>>) -> Option<Seq<char>> {
    match alt_in(alts, preferred(0)) {
        Some(t) => Some(t),
        None => match alt_in(alts, preferred(1)) {
            Some(t) => Some(t),
            None => match alt_in(alts, preferred(2)) {
                Some(t) => Some(t),
                None => match alt_in(alts, preferred(3)) {
                    Some(t) => Some(t),
                    None => alt_any(alts),
                },
            },
        },
    }
}

fn alt_in_exec(alts: &Vec<Vec<(String, String)>>, language: &str) -> (r: Option<String>)
    ensures
        opt_view(r) == alt_in(alts_view(alts@), language@),
{
    let ghost all = alts_view(alts@);
    assert(all.skip(0) =~= all);
    for i in 0..alts.len()
        invariant
            all == alts_view(alts@),
            alt_in(all, language@) == alt_in(all.skip(i as int), language@),
    {
        assert(all.skip(i as int)[0] == pairs_view(alts@[i as int]@));
        assert(all.skip(i as int).drop_first() =~= all.skip(i + 1));
        let t = non_empty(lookup_exec(&alts[i], language));
        if t.is_some() {
            return t;
        }
    }
    assert(all.skip(alts@.len() as int) =~= Seq::<Seq<(Seq<char>, Seq<char>)>>::empty());
    None
}

fn alt_any_exec(alts: &Vec<Vec<(String, String)>>) -> (r: Option<String>)
    ensures
        opt_view(r) == alt_any(alts_view(alts@)),
{
    let ghost all = alts_view(alts@);
    assert(all.skip(0) =~= all);
    for i in 0..alts.len()
        invariant
            all == alts_view(alts@),
            alt_any(all) == alt_any(all.skip(i as int)),
    {
        assert(all.skip(i as int)[0] == pairs_view(alts@[i as int]@));
        assert(all.skip(i as int).drop_first() =~= all.skip(i + 1));
        let t = first_non_empty_exec(&alts[i]);
        if t.is_some() {
            return t;
        }
    }
    assert(all.skip(alts@.len() as int) =~= Seq::<Seq<(Seq<char>, Seq<char>)>>::empty());
    None
}

/// An alternative title of a manga.
pub fn localized_alt_title(alts: &Vec<Vec<(String, String)>>) -> (r: Option<String>)
    ensures
        opt_view(r) == localized_alt_of(alts_view(alts@)),
{
    let t = alt_in_exec(alts, "fr");
    if t.is_some() {
        return t;
    }
    let t = alt_in_exec(alts, "en");
    if t.is_some() {
        return t;
    }
    let t = alt_in_exec(alts, "ja-ro");
    if t.is_some() {
        return t;
    }
    let t = alt_in_exec(alts, "ja");
    if t.is_some() {
        return t;
    }
    alt_any_exec(alts)
}

/// The cover of a manga: from the first `cover_art` relationship, the
/// 512-pixel thumbnail of its file when it names one.
pub open spec fn cover_of(id: Seq<char>, rels: Seq<RelationshipView>) -> Option<Seq<char>>
    decreases rels.len(),
{
    if rels.len() == 0 {
        None
    } else if rels[0].kind == "cover_art"@ && rels[0].file_name is Some {
        Some(
            UPLOADS_URL@ + "/covers/"@ + id + "/"@ + rels[0].file_name.unwrap() + ".512.jpg"@,
        )
    } else {
        cover_of(id, rels.drop_first())
    }
}

/// The cover URL of the manga `id` from its relationships.
pub fn cover_url(id: &str, relationships: &Vec<Relationship>) -> (r: Option<String>)
    ensures
        opt_view(r) == cover_of(id@, rels_view(relationships@)),
{
    let ghost all = rels_view(relationships@);
    assert(all.skip(0) =~= all);
    for i in 0..relationships.len()
        invariant
            all == rels_view(relationships@),
            cover_of(id@, all) == cover_of(id@, all.skip(i as int)),
    {
        assert(all.skip(i as int)[0] == relationships@[i as int]@);
        assert(all.skip(i as int).drop_first() =~= all.skip(i + 1));
        let r = &relationships[i];
        if str_is(r.kind.as_str(), "cover_art") {
            if let Some(file) = &r.file_name {
                let mut out = chars_of(UPLOADS_URL);
                append_str(&mut out, "/covers/");
                append_str(&mut out, id);
                append_str(&mut out, "/");
                append_str(&mut out, file.as_str());
                append_str(&mut out, ".512.jpg");
                return Some(string_of(out.as_slice()));
            }
        }
    }
    assert(all.skip(relationships@.len() as int) =~= Seq::<RelationshipView>::empty());
    None
}

/// The trimmed names, not blank, of the relationships of kind `kind`, in order.
pub open spec fn names_of(rels: Seq<RelationshipView>, kind: Seq<char>) -> Seq<Seq<char>>
    decreases rels.len(),
{
    if rels.len() == 0 {
        Seq::empty()
    } else {
        let prev = names_of(rels.drop_last(), kind);
        let r = rels.last();
        if r.kind == kind && non_empty_of(r.name) is Some {
            prev.push(non_empty_of(r.name).unwrap())
        } else {
            prev
        }
    }
}

/// The names as a list, none when there are none.
pub open spec fn names_list(names: Seq<Seq<char>>) -> Option<Seq<Seq<char>>> {
    if names.len() == 0 {
        None
    } else {
        Some(names)
    }
}

/// The names of the relationships of kind `kind` (authors, artists,
/// scanlation groups).
pub fn relationship_names(relationships: &Vec<Relationship>, kind: &str) -> (r: Option<
    Vec<String>,
>)
    ensures
        opt_strs_view(r) == names_list(names_of(rels_view(relationships@), kind@)),
{
    let mut names: Vec<String> = Vec::new();
    for i in 0..relationships.len()
        invariant
            strs_view(names@) == names_of(rels_view(relationships@.take(i as int)), kind@),
    {
        let ghost t = rels_view(relationships@.take(i + 1));
        assert(t.drop_last() =~= rels_view(relationships@.take(i as int)));
        assert(t.last() == relationships@[i as int]@);
        let r = &relationships[i];
        if r.kind == kind.to_owned() {
            if let Some(n) = non_empty(
                match &r.name {
                    Some(n) => Some(n),
                    None => None,
                },
            ) {
                let ghost before = names@;
                names.push(n);
                assert(strs_view(names@) =~= strs_view(before).push(names@.last()@));
            }
        }
    }
    assert(relationships@.take(relationships@.len() as int) =~= relationships@);
    if names.len() == 0 {
        None
    } else {
        Some(names)
    }
}

/// The names of the tags, as text.
pub open spec fn tag_names_view(v: Seq<Vec<(String, String)>>) -> Seq<Seq<(Seq<char>, Seq<char>)>> {
    alts_view(v)
}

/// The localized names of the tags that have one, in order.
pub open spec fn tags_of(tags: Seq<Seq<(Seq<char>, Seq<char>)>>) -> Seq<Seq<char>>
    decreases tags.len(),
{
    if tags.len() == 0 {
        Seq::empty()
    } else {
        let prev = tags_of(tags.drop_last());
        match localized_of(tags.last()) {
            Some(n) => prev.push(n),
            None => prev,
        }
    }
}

/// The tags of a manga from the localized names of its tags.
pub fn tags_from_attributes(tags: &Vec<Vec<(String, String)>>) -> (r: Option<Vec<String>>)
    ensures
        opt_strs_view(r) == names_list(tags_of(tag_names_view(tags@))),
{
    let mut names: Vec<String> = Vec::new();
    for i in 0..tags.len()
        invariant
            strs_view(names@) == tags_of(tag_names_view(tags@.take(i as int))),
    {
        let ghost t = tag_names_view(tags@.take(i + 1));
        assert(t.drop_last() =~= tag_names_view(tags@.take(i as int)));
        assert(t.last() == pairs_view(tags@[i as int]@));
        if let Some(n) = localized_value(&tags[i]) {
            let ghost before = names@;
            let ghost nv = n@;
            names.push(n);
            assert(strs_view(names@) =~= strs_view(before).push(nv));
        }
    }
    assert(tags@.take(tags@.len() as int) =~= tags@);
    if names.len() == 0 {
        None
    } else {
        Some(names)
    }
}

/// The status that the API names.
pub open spec fn status_of(status: Option<Seq<char>>) -> Status {
    match status {
        Some(s) => if s == "ongoing"@ {
            Status::Ongoing
        } else if s == "completed"@ {
            Status::Completed
        } else if s == "cancelled"@ {
            Status::Cancelled
        } else if s == "hiatus"@ {
            Status::Hiatus
        } else {
            Status::Unknown
        },
        None => Status::Unknown,
    }
}

/// The publication status that the API names.
pub fn manga_status(status: Option<&str>) -> (r: Status)
    ensures
        r == status_of(
            match status {
                Some(s) => Some(s@),
                None => None,
            },
        ),
{
    match status {
        Some(s) => if str_is(s, "ongoing") {
            Status::Ongoing
        } else if str_is(s, "completed") {
            Status::Completed
        } else if str_is(s, "cancelled") {
            Status::Cancelled
        } else if str_is(s, "hiatus") {
            Status::Hiatus
        } else {
            Status::Unknown
        },
        None => Status::Unknown,
    }
}

/// The content rating that the API names.
pub open spec fn rating_of(rating: Option<Seq<char>>) -> Rating {
    match rating {
        Some(r) => if r == "safe"@ {
            Rating::Safe
        } else if r == "suggestive"@ {
            Rating::Suggestive
        } else if r == "erotica"@ || r == "pornographic"@ {
            Rating::Nsfw
        } else {
            Rating::Unknown
        },
        None => Rating::Unknown,
    }
}

/// The content rating that the API names.
pub fn content_rating(rating: Option<&str>) -> (r: Rating)
    ensures
        r == rating_of(
            match rating {
                Some(s) => Some(s@),
                None => None,
            },
        ),
{
    match rating {
        Some(s) => if str_is(s, "safe") {
            Rating::Safe
        } else if str_is(s, "suggestive") {
            Rating::Suggestive
        } else if str_is(s, "erotica") || str_is(s, "pornographic") {
            Rating::Nsfw
        } else {
            Rating::Unknown
        },
        None => Rating::Unknown,
    }
}

/// A manga as the API describes it.
pub struct MangaData {
    pub id: String,
    pub title: Vec<(String, String)>,
    pub alt_titles: Vec<Vec<(String, String)>>,
    pub description: Vec<(String, String)>,
    pub status: Option<String>,
    pub content_rating: Option<String>,
    /// The localized names of the manga's tags.
    pub tags: Vec<Vec<(String, String)>>,
    pub relationships: Vec<Relationship>,
}

/// The manga that the API describes: its title is the localized title,
/// else an alternative title, else its id.
pub open spec fn manga_of(e: &MangaData) -> MangaView {
    let title = match localized_of(pairs_view(e.title@)) {
        Some(t) => t,
        None => match localized_alt_of(alts_view(e.alt_titles@)) {
            Some(t) => t,
            None => e.id@,
        },
    };
    MangaView {
        key: e.id@,
        title: title,
        cover: cover_of(e.id@, rels_view(e.relationships@)),
        authors: names_list(names_of(rels_view(e.relationships@), "author"@)),
        artists: names_list(names_of(rels_view(e.relationships@), "artist"@)),
        description: localized_of(pairs_view(e.description@)),
        url: Some(SITE_URL@ + "/title/"@ + e.id@),
        tags: names_list(tags_of(tag_names_view(e.tags@))),
        status: status_of(opt_view(e.status)),
        rating: rating_of(opt_view(e.content_rating)),
        reader: Reader::RightToLeft,
        chapters: None,
    }
}

/// The manga that the API describes.
pub fn manga_from_entity(entity: &MangaData) -> (r: MangaEntry)
    ensures
        r@ == manga_of(entity),
{
    let title = match localized_value(&entity.title) {
        Some(t) => t,
        None => match localized_alt_title(&entity.alt_titles) {
            Some(t) => t,
            None => entity.id.clone(),
        },
    };
    let mut url = chars_of(SITE_URL);
    append_str(&mut url, "/title/");
    append_str(&mut url, entity.id.as_str());
    MangaEntry {
        key: entity.id.clone(),
        title,
        cover: cover_url(entity.id.as_str(), &entity.relationships),
        authors: relationship_names(&entity.relationships, "author"),
        artists: relationship_names(&entity.relationships, "artist"),
        description: localized_value(&entity.description),
        url: Some(string_of(url.as_slice())),
        tags: tags_from_attributes(&entity.tags),
        status: manga_status(
            match &entity.status {
                Some(s) => Some(s.as_str()),
                None => None,
            },
        ),
        rating: content_rating(
            match &entity.content_rating {
                Some(s) => Some(s.as_str()),
                None => None,
            },
        ),
        reader: Reader::RightToLeft,
        chapters: None,
    }
}

// ---------------------------------------------------------------------------
// Chapters
// ---------------------------------------------------------------------------

/// A chapter as the API describes it.
pub struct ChapterData {
    pub id: String,
    pub volume: Option<String>,
    pub chapter: Option<String>,
    pub title: Option<String>,
    pub translated_language: Option<String>,
    pub external_url: Option<String>,
    pub pages: Option<i32>,
    pub publish_at: Option<String>,
    pub relationships: Vec<Relationship>,
}

/// The title of a chapter: its trimmed title when not blank, else
/// `Chapitre <number>` when it has a number that is not blank, else
/// `One-shot`.
pub open spec fn chapter_title_of(title: Option<Seq<char>>, chapter: Option<Seq<char>>) -> Seq<
    char,
> {
    match non_empty_of(title) {
        Some(t) => t,
        None => match non_empty_of(chapter) {
            Some(c) => "Chapitre "@ + c,
            None => "One-shot"@,
        },
    }
}

/// The title of a chapter.
pub fn chapter_title(title: &Option<String>, chapter: &Option<String>) -> (r: Option<String>)
    ensures
        opt_view(r) == Some(chapter_title_of(opt_view(*title), opt_view(*chapter))),
{
    if let Some(t) = non_empty(
        match title {
            Some(t) => Some(t),
            None => None,
        },
    ) {
        return Some(t);
    }
    match non_empty(
        match chapter {
            Some(c) => Some(c),
            None => None,
        },
    ) {
        Some(c) => {
            let mut out = chars_of("Chapitre ");
            append_str(&mut out, c.as_str());
            Some(string_of(out.as_slice()))
        },
        None => Some("One-shot".to_owned()),
    }
}

/// The value of a run of ASCII digits, none when a byte is not a digit.
pub open spec fn digits_bytes(b: Seq<u8>) -> Option<int>
    decreases b.len(),
{
    if b.len() == 0 {
        Some(0)
    } else {
        match digits_bytes(b.drop_last()) {
            None => None,
            Some(v) => if 48 <= b.last() <= 57 {
                Some(v * 10 + (b.last() - 48))
            } else {
                None
            },
        }
    }
}

/// Reading `b` digit by digit never holds a value above `i64::MAX`: every
/// run of digits that `b` starts with has a value that fits in an `i64`.
pub open spec fn digits_fit(b: Seq<u8>) -> bool {
    forall|k: int|
        0 <= k <= b.len() ==> (digits_bytes(#[trigger] b.take(k)) matches Some(v) ==> v
            <= i64::MAX)
}

/// Whether `parse_i64` can take `bytes`: no run of digits it starts with
/// exceeds `i64::MAX`.
pub fn digits_in_range(bytes: &[u8]) -> (r: bool)
    ensures
        r == digits_fit(bytes@),
{
    let mut value: i128 = 0;
    let mut i: usize = 0;
    assert(bytes@.take(0) =~= Seq::<u8>::empty());
    while i < bytes.len()
        invariant
            i <= bytes@.len(),
            digits_bytes(bytes@.take(i as int)) == Some(value as int),
            0 <= value <= i64::MAX,
            forall|k: int|
                0 <= k <= i ==> (digits_bytes(#[trigger] bytes@.take(k)) matches Some(v) ==> v
                    <= i64::MAX),
        decreases bytes.len() - i,
    {
        let b = bytes[i];
        assert(bytes@.take(i + 1).drop_last() =~= bytes@.take(i as int));
        if !(48u8 <= b && b <= 57u8) {
            assert forall|k: int| 0 <= k <= bytes@.len() implies (digits_bytes(
                #[trigger] bytes@.take(k),
            ) matches Some(v) ==> v <= i64::MAX) by {
                if k > i {
                    assert(bytes@.take(k).take(i + 1) =~= bytes@.take(i + 1));
                    lemma_digits_bytes_none(bytes@.take(k), i + 1);
                }
            }
            return true;
        }
        value = value * 10 + (b - 48u8) as i128;
        assert(digits_bytes(bytes@.take(i + 1)) == Some(value as int));
        if value > i64::MAX as i128 {
            return false;
        }
        i = i + 1;
    }
    assert(bytes@.take(bytes@.len() as int) =~= bytes@);
    true
}

/// The value of the ASCII digits `bytes`.
pub fn parse_i64(bytes: &[u8]) -> (r: Option<i64>)
    requires
        digits_fit(bytes@),
    ensures
        match r {
            Some(v) => digits_bytes(bytes@) == Some(v as int),
            None => digits_bytes(bytes@) is None,
        },
{
    let mut value: i64 = 0;
    let mut i: usize = 0;
    assert(bytes@.take(0) =~= Seq::<u8>::empty());
    while i < bytes.len()
        invariant
            digits_fit(bytes@),
            i <= bytes@.len(),
            digits_bytes(bytes@.take(i as int)) == Some(value as int),
            0 <= value,
        decreases bytes.len() - i,
    {
        let b = bytes[i];
        assert(bytes@.take(i + 1).drop_last() =~= bytes@.take(i as int));
        if !(48u8 <= b && b <= 57u8) {
            proof {
                lemma_digits_bytes_none(bytes@, i + 1);
            }
            return None;
        }
        assert(digits_bytes(bytes@.take(i + 1)) == Some(value * 10 + (b - 48)));
        assert(value * 10 + (b - 48) <= i64::MAX);
        value = value * 10 + (b - 48u8) as i64;
        i = i + 1;
    }
    assert(bytes@.take(bytes@.len() as int) =~= bytes@);
    Some(value)
}

/// Ten to the power `n`.
pub open spec fn pow10(n: nat) -> int
    decreases n,
{
    if n == 0 {
        1
    } else {
        10 * pow10((n - 1) as nat)
    }
}

proof fn lemma_pow10_bound(n: nat)
    requires
        n <= 18,
    ensures
        pow10(n) <= 1_000_000_000_000_000_000,
    decreases n,
{
    reveal_with_fuel(pow10, 19);
}

/// Up to 18 ASCII digits always fit in an `i64`.
pub proof fn lemma_short_digits_fit(b: Seq<u8>)
    requires
        b.len() <= 18,
    ensures
        digits_fit(b),
{
    assert forall|k: int| 0 <= k <= b.len() implies (digits_bytes(#[trigger] b.take(k)) matches Some(
        v,
    ) ==> v <= i64::MAX) by {
        if digits_bytes(b.take(k)) is Some {
            lemma_digits_small(b.take(k));
            lemma_pow10_bound(k as nat);
        }
    }
}

proof fn lemma_digits_bytes_none(b: Seq<u8>, k: int)
    requires
        0 <= k <= b.len(),
        digits_bytes(b.take(k)) is None,
    ensures
        digits_bytes(b) is None,
    decreases b.len() - k,
{
    if k < b.len() {
        assert(b.drop_last().take(k) =~= b.take(k));
        lemma_digits_bytes_none(b.drop_last(), k);
    } else {
        assert(b.take(k) =~= b);
    }
}

/// The time of an RFC 3339 timestamp (`2024-05-01T12:30:00+02:00`), in
/// seconds since 1970-01-01 00:00 UTC: year, month, day, hour, minute and
/// second are read at their fixed places, and the time is shifted by the
/// offset; `Z` means no offset. None for text shorter than 20 bytes, fields
/// that are not digits, a date out of range, or an unknown zone.
pub open spec fn rfc3339_of(b: Seq<u8>) -> Option<int> {
    if b.len() < 20 {
        None
    } else {
        let year = digits_bytes(b.subrange(0, 4));
        let month = digits_bytes(b.subrange(5, 7));
        let day = digits_bytes(b.subrange(8, 10));
        let hour = digits_bytes(b.subrange(11, 13));
        let minute = digits_bytes(b.subrange(14, 16));
        let second = digits_bytes(b.subrange(17, 19));
        if year is None || month is None || day is None || hour is None || minute is None
            || second is None {
            None
        } else {
            match days_from_civil_spec(year.unwrap(), month.unwrap(), day.unwrap()) {
                None => None,
                Some(days) => {
                    let t = days * 86400 + hour.unwrap() * 3600 + minute.unwrap() * 60
                        + second.unwrap();
                    if b[19] == 90 {
                        Some(t)
                    } else if (b[19] == 43 || b[19] == 45) && b.len() >= 25 {
                        let oh = digits_bytes(b.subrange(20, 22));
                        let om = digits_bytes(b.subrange(23, 25));
                        if oh is None || om is None {
                            None
                        } else {
                            let sign = if b[19] == 43 {
                                1int
                            } else {
                                -1int
                            };
                            Some(t - sign * (oh.unwrap() * 3600 + om.unwrap() * 60))
                        }
                    } else {
                        None
                    }
                },
            }
        }
    }
}

/// A run of `n` ASCII digits has a value below ten to the `n`: two below
/// 100, four below 10000.
proof fn lemma_digits_small(b: Seq<u8>)
    requires
        digits_bytes(b) is Some,
    ensures
        0 <= digits_bytes(b).unwrap() < pow10(b.len()),
    decreases b.len(),
{
    if b.len() > 0 {
        lemma_digits_small(b.drop_last());
    }
}

/// The time of an RFC 3339 timestamp.
pub fn parse_rfc3339_timestamp(value: &str) -> (r: Option<i64>)
    ensures
        match r {
            Some(t) => rfc3339_of(encode_utf8(value@)) == Some(t as int),
            None => rfc3339_of(encode_utf8(value@)) is None,
        },
{
    let bytes = value.as_bytes();
    if bytes.len() < 20 {
        return None;
    }
    proof {
        lemma_short_digits_fit(bytes@.subrange(0, 4));
        lemma_short_digits_fit(bytes@.subrange(5, 7));
        lemma_short_digits_fit(bytes@.subrange(8, 10));
        lemma_short_digits_fit(bytes@.subrange(11, 13));
        lemma_short_digits_fit(bytes@.subrange(14, 16));
        lemma_short_digits_fit(bytes@.subrange(17, 19));
    }
    let year = parse_i64(&bytes[0..4]);
    let month = parse_i64(&bytes[5..7]);
    let day = parse_i64(&bytes[8..10]);
    let hour = parse_i64(&bytes[11..13]);
    let minute = parse_i64(&bytes[14..16]);
    let second = parse_i64(&bytes[17..19]);
    if year.is_none() || month.is_none() || day.is_none() || hour.is_none() || minute.is_none()
        || second.is_none() {
        return None;
    }
    let year = year.unwrap();
    let month = month.unwrap();
    let day = day.unwrap();
    let hour = hour.unwrap();
    let minute = minute.unwrap();
    let second = second.unwrap();
    proof {
        lemma_digits_small(bytes@.subrange(0, 4));
        lemma_digits_small(bytes@.subrange(11, 13));
        lemma_digits_small(bytes@.subrange(14, 16));
        lemma_digits_small(bytes@.subrange(17, 19));
        assert(pow10(2) == 100) by {
            reveal_with_fuel(pow10, 3);
        }
        assert(pow10(4) == 10000) by {
            reveal_with_fuel(pow10, 5);
        }
    }
    proof {
        crate::civil::lemma_small_year_fits(year as int, month as int, day as int);
    }
    let days = match days_from_civil(year, month, day) {
        Some(d) => d,
        None => {
            return None;
        },
    };
    proof {
        crate::civil::lemma_days_bound(year as int, month as int, day as int, 10000);
    }
    let timestamp = days * 86_400 + hour * 3_600 + minute * 60 + second;
    let zone = bytes[19];
    if zone == 90u8 {
        Some(timestamp)
    } else if (zone == 43u8 || zone == 45u8) && bytes.len() >= 25 {
        let sign: i64 = if zone == 43u8 {
            1
        } else {
            -1
        };
        proof {
            lemma_short_digits_fit(bytes@.subrange(20, 22));
            lemma_short_digits_fit(bytes@.subrange(23, 25));
        }
        let oh = parse_i64(&bytes[20..22]);
        let om = parse_i64(&bytes[23..25]);
        if oh.is_none() || om.is_none() {
            return None;
        }
        proof {
            lemma_digits_small(bytes@.subrange(20, 22));
            lemma_digits_small(bytes@.subrange(23, 25));
            assert(pow10(2) == 100) by {
                reveal_with_fuel(pow10, 3);
            }
        }
        let oh = oh.unwrap();
        let om = om.unwrap();
        Some(timestamp - sign * (oh * 3_600 + om * 60))
    } else {
        None
    }
}

/// The chapter that the API describes, when it can be read: external
/// chapters always, others when they have pages.
pub open spec fn chapter_of(e: &ChapterData) -> Option<ChapterView> {
    let external = non_empty_of(opt_view(e.external_url));
    let pages = match e.pages {
        Some(p) => p as int,
        None => 0,
    };
    if external is None && pages <= 0 {
        None
    } else {
        Some(
            ChapterView {
                key: e.id@,
                title: Some(chapter_title_of(opt_view(e.title), opt_view(e.chapter))),
                number_text: match opt_view(e.chapter) {
                    Some(c) => Some(trim(c)),
                    None => None,
                },
                volume_text: match opt_view(e.volume) {
                    Some(v) => Some(trim(v)),
                    None => None,
                },
                date_uploaded: match e.publish_at {
                    Some(p) => rfc3339_of(encode_utf8(p@)),
                    None => None,
                },
                scanlators: names_list(names_of(rels_view(e.relationships@), "scanlation_group"@)),
                url: Some(
                    match external {
                        Some(u) => u,
                        None => SITE_URL@ + "/chapter/"@ + e.id@,
                    },
                ),
                language: opt_view(e.translated_language),
            },
        )
    }
}

fn trimmed(o: &Option<String>) -> (r: Option<String>)
    ensures
        opt_view(r) == match opt_view(*o) {
            Some(v) => Some(trim(v)),
            None => None,
        },
{
    match o {
        Some(s) => {
            let t = trim_str(s.as_str());
            Some(string_of(t.as_slice()))
        },
        None => None,
    }
}

/// The chapter that the API describes.
pub fn chapter_from_entity(entity: &ChapterData) -> (r: Option<ChapterEntry>)
    ensures
        match r {
            Some(c) => chapter_of(entity) == Some(c@),
            None => chapter_of(entity) is None,
        },
{
    let external = non_empty(
        match &entity.external_url {
            Some(u) => Some(u),
            None => None,
        },
    );
    let pages = match entity.pages {
        Some(p) => p,
        None => 0,
    };
    if external.is_none() && pages <= 0 {
        return None;
    }
    let url = match external {
        Some(u) => u,
        None => {
            let mut out = chars_of(SITE_URL);
            append_str(&mut out, "/chapter/");
            append_str(&mut out, entity.id.as_str());
            string_of(out.as_slice())
        },
    };
    let date_uploaded = match &entity.publish_at {
        Some(p) => parse_rfc3339_timestamp(p.as_str()),
        None => None,
    };
    Some(
        ChapterEntry {
            key: entity.id.clone(),
            title: chapter_title(&entity.title, &entity.chapter),
            number_text: trimmed(&entity.chapter),
            volume_text: trimmed(&entity.volume),
            date_uploaded,
            scanlators: relationship_names(&entity.relationships, "scanlation_group"),
            url: Some(url),
            language: clone_opt(&entity.translated_language),
        },
    )
}

/// A chapter is hosted outside MangaDex: its URL is not on the site.
pub open spec fn external_chapter(c: ChapterView) -> bool {
    match c.url {
        Some(u) => !has_prefix(u, SITE_URL@),
        None => false,
    }
}

/// The chapter is hosted outside MangaDex.
pub fn is_external_chapter(chapter: &ChapterEntry) -> (r: bool)
    ensures
        r == external_chapter(chapter@),
{
    match &chapter.url {
        Some(u) => {
            let c = chars_of(u.as_str());
            !starts_with_str(c.as_slice(), SITE_URL)
        },
        None => false,
    }
}

/// The chapters after adding `chapter`, given the position of the first
/// chapter that is the same one: a new chapter is added at the end; a
/// chapter already there is replaced when it is external and the new one
/// is not, and kept otherwise.
pub open spec fn with_chapter(chapters: Seq<ChapterView>, chapter: ChapterView, same: Option<int>) -> Seq<
    ChapterView,
> {
    match same {
        None => chapters.push(chapter),
        Some(i) => if external_chapter(chapters[i]) && !external_chapter(chapter) {
            chapters.update(i, chapter)
        } else {
            chapters
        },
    }
}

/// Adds a chapter of a feed to `chapters`; `same` is the position of the
/// first chapter already there that is the same chapter (same number, or
/// same key when a number is missing).
pub fn push_chapter(chapters: &mut Vec<ChapterEntry>, chapter: ChapterEntry, same: Option<usize>)
    requires
        same matches Some(i) ==> i < old(chapters)@.len(),
    ensures
        chapters_view(final(chapters)@) == with_chapter(
            chapters_view(old(chapters)@),
            chapter@,
            match same {
                Some(i) => Some(i as int),
                None => None,
            },
        ),
{
    let ghost before = chapters@;
    let ghost cv = chapter@;
    match same {
        Some(i) => {
            if is_external_chapter(&chapters[i]) && !is_external_chapter(&chapter) {
                chapters.set(i, chapter);
                assert(chapters_view(chapters@) =~= chapters_view(before).update(i as int, cv));
            }
        },
        None => {
            chapters.push(chapter);
            assert(chapters_view(chapters@) =~= chapters_view(before).push(cv));
        },
    }
}

// ---------------------------------------------------------------------------
// Pages
// ---------------------------------------------------------------------------

/// The text page shown for a chapter hosted outside MangaDex, with a link
/// to it; none for chapters on the site or without URL.
pub open spec fn external_page_of(url: Option<Seq<char>>) -> Option<Seq<char>> {
    match url {
        Some(u) => if !has_prefix(u, SITE_URL@) {
            Some(
                "Chapitre externe\n\nCe chapitre est heberge hors MangaDex et ne fournit pas de pages MangaDex@Home.\n\n[Ouvrir le chapitre]("@
                    + u + ")"@,
            )
        } else {
            None
        },
        None => None,
    }
}

/// The text page of a chapter hosted outside MangaDex.
pub fn external_page_text(url: Option<&str>) -> (r: Option<String>)
    ensures
        opt_view(r) == external_page_of(
            match url {
                Some(u) => Some(u@),
                None => None,
            },
        ),
{
    match url {
        Some(u) => {
            let c = chars_of(u);
            if !starts_with_str(c.as_slice(), SITE_URL) {
                let mut out = chars_of(
                    "Chapitre externe\n\nCe chapitre est heberge hors MangaDex et ne fournit pas de pages MangaDex@Home.\n\n[Ouvrir le chapitre](",
                );
                append_str(&mut out, u);
                append_str(&mut out, ")");
                Some(string_of(out.as_slice()))
            } else {
                None
            }
        },
        None => None,
    }
}

/// The address of the MangaDex@Home server path of a chapter's pages.
pub fn at_home_path(chapter_key: &str) -> (r: String)
    ensures
        r@ == "/at-home/server/"@ + chapter_key@,
{
    let mut out = chars_of("/at-home/server/");
    append_str(&mut out, chapter_key);
    string_of(out.as_slice())
}

/// The page image URLs of a chapter on a MangaDex@Home server: the
/// full-quality files, or the data-saver files when there are no
/// full-quality ones, each as `<base>/<quality>/<hash>/<file>`.
pub open spec fn page_urls_of(
    base: Seq<char>,
    hash: Seq<char>,
    data: Seq<Seq<char>>,
    data_saver: Seq<Seq<char>>,
) -> Seq<Seq<char>> {
    let quality = if data.len() == 0 {
        "data-saver"@
    } else {
        "data"@
    };
    let files = if data.len() == 0 {
        data_saver
    } else {
        data
    };
    Seq::new(files.len(), |i: int| base + "/"@ + quality + "/"@ + hash + "/"@ + files[i])
}

/// The page image URLs of a chapter on a MangaDex@Home server.
pub fn page_urls(base_url: &str, hash: &str, data: &Vec<String>, data_saver: &Vec<String>) -> (r: Vec<
    String,
>)
    ensures
        strs_view(r@) == page_urls_of(base_url@, hash@, strs_view(data@), strs_view(data_saver@)),
{
    let (quality, files) = if data.len() == 0 {
        ("data-saver", data_saver)
    } else {
        ("data", data)
    };
    let ghost expected = page_urls_of(base_url@, hash@, strs_view(data@), strs_view(data_saver@));
    let mut urls: Vec<String> = Vec::new();
    for i in 0..files.len()
        invariant
            files == (if data@.len() == 0 {
                data_saver
            } else {
                data
            }),
            quality@ == (if data@.len() == 0 {
                "data-saver"@
            } else {
                "data"@
            }),
            expected == page_urls_of(base_url@, hash@, strs_view(data@), strs_view(data_saver@)),
            expected.len() == files@.len(),
            urls@.len() == i,
            forall|k: int| 0 <= k < i ==> #[trigger] urls@[k]@ == expected[k],
    {
        let mut out = chars_of(base_url);
        append_str(&mut out, "/");
        append_str(&mut out, quality);
        append_str(&mut out, "/");
        append_str(&mut out, hash);
        append_str(&mut out, "/");
        append_str(&mut out, files[i].as_str());
        let s = string_of(out.as_slice());
        assert(strs_view(files@)[i as int] == files@[i as int]@);
        assert(expected[i as int] == base_url@ + "/"@ + quality@ + "/"@ + hash@ + "/"@ + strs_view(
            files@,
        )[i as int]);
        assert(s@ =~= expected[i as int]);
        urls.push(s);
    }
    assert(strs_view(urls@) =~= expected);
    urls
}

// ---------------------------------------------------------------------------
// Titles without French chapters
// ---------------------------------------------------------------------------

/// The key of the chapter shown for a title without a readable French feed.
pub const NO_FRENCH_KEY: &'static str = "no-french-chapters";

/// The chapter shown for a title without a readable French feed.
pub open spec fn placeholder_chapter(manga_id: Seq<char>) -> ChapterView {
    ChapterView {
        key: NO_FRENCH_KEY@,
        title: Some("Aucun chapitre en francais"@),
        number_text: None,
        volume_text: None,
        date_uploaded: None,
        scanlators: None,
        url: Some(SITE_URL@ + "/title/"@ + manga_id),
        language: Some("fr"@),
    }
}

/// The chapters of a title: those of its French feed, or the placeholder
/// chapter when the feed has none that can be read.
pub open spec fn chapters_or_placeholder(chapters: Seq<ChapterView>, manga_id: Seq<char>) -> Seq<
    ChapterView,
> {
    if chapters.len() == 0 {
        seq![placeholder_chapter(manga_id)]
    } else {
        chapters
    }
}

/// The chapters of a title, with the placeholder chapter when its French
/// feed has none that can be read.
pub fn feed_or_placeholder(chapters: Vec<ChapterEntry>, manga_id: &str) -> (r: Vec<ChapterEntry>)
    ensures
        chapters_view(r@) == chapters_or_placeholder(chapters_view(chapters@), manga_id@),
{
    if chapters.len() > 0 {
        return chapters;
    }
    let mut url = chars_of(SITE_URL);
    append_str(&mut url, "/title/");
    append_str(&mut url, manga_id);
    let c = ChapterEntry {
        key: NO_FRENCH_KEY.to_owned(),
        title: Some("Aucun chapitre en francais".to_owned()),
        number_text: None,
        volume_text: None,
        date_uploaded: None,
        scanlators: None,
        url: Some(string_of(url.as_slice())),
        language: Some("fr".to_owned()),
    };
    let ghost cv = c@;
    let r = vec![c];
    assert(chapters_view(r@) =~= seq![cv]);
    r
}

/// The text page of the placeholder chapter; none for other chapters.
pub open spec fn placeholder_page_of(chapter_key: Seq<char>) -> Option<Seq<char>> {
    if chapter_key == NO_FRENCH_KEY@ {
        Some(
            "Aucun chapitre en francais\n\nMangaDex ne propose pas de pages en francais pour ce titre."@,
        )
    } else {
        None
    }
}

/// The text page of the placeholder chapter.
pub fn placeholder_page_text(chapter_key: &str) -> (r: Option<String>)
    ensures
        opt_view(r) == placeholder_page_of(chapter_key@),
{
    if str_is(chapter_key, NO_FRENCH_KEY) {
        Some(
            "Aucun chapitre en francais\n\nMangaDex ne propose pas de pages en francais pour ce titre.".to_owned(),
        )
    } else {
        None
    }
}

// ---------------------------------------------------------------------------
// Laws
// ---------------------------------------------------------------------------

/// A timestamp in UTC written with `Z` and with `+00:00` is the same time.
pub proof fn law_utc_zone_forms(p: Seq<u8>)
    requires
        p.len() == 19,
    ensures
        rfc3339_of(p.push(90)) == rfc3339_of(p + seq![43u8, 48u8, 48u8, 58u8, 48u8, 48u8]),
{
    let z = p.push(90);
    let o = p + seq![43u8, 48u8, 48u8, 58u8, 48u8, 48u8];
    assert(z.subrange(0, 4) =~= o.subrange(0, 4));
    assert(z.subrange(5, 7) =~= o.subrange(5, 7));
    assert(z.subrange(8, 10) =~= o.subrange(8, 10));
    assert(z.subrange(11, 13) =~= o.subrange(11, 13));
    assert(z.subrange(14, 16) =~= o.subrange(14, 16));
    assert(z.subrange(17, 19) =~= o.subrange(17, 19));
    let zero = seq![48u8, 48u8];
    assert(o.subrange(20, 22) =~= zero);
    assert(o.subrange(23, 25) =~= zero);
    assert(zero.drop_last() =~= seq![48u8]);
    assert(seq![48u8].drop_last() =~= Seq::<u8>::empty());
    assert(digits_bytes(Seq::<u8>::empty()) == Some(0int));
    assert(seq![48u8].last() == 48u8);
    assert(digits_bytes(seq![48u8]) == Some(0int));
    assert(zero.last() == 48u8);
    assert(digits_bytes(zero) == Some(0int));
}

/// `b` is an ASCII digit.
pub open spec fn digit_byte(b: u8) -> bool {
    48 <= b <= 57
}

/// Two ASCII digits are read as tens and units.
proof fn lemma_two_digits(b: Seq<u8>)
    requires
        b.len() == 2,
        digit_byte(b[0]),
        digit_byte(b[1]),
    ensures
        digits_bytes(b) == Some(10 * (b[0] - 48) + (b[1] - 48)),
{
    let b1 = b.drop_last();
    assert(b1.drop_last() =~= Seq::<u8>::empty());
    assert(b1.last() == b[0]);
    assert(digits_bytes(b1.drop_last()) == Some(0int));
    assert(digits_bytes(b1) == Some((b[0] - 48) as int));
}

/// Four ASCII digits are read as thousands, hundreds, tens and units.
proof fn lemma_four_digits(b: Seq<u8>)
    requires
        b.len() == 4,
        digit_byte(b[0]),
        digit_byte(b[1]),
        digit_byte(b[2]),
        digit_byte(b[3]),
    ensures
        digits_bytes(b) == Some(
            1000 * (b[0] - 48) + 100 * (b[1] - 48) + 10 * (b[2] - 48) + (b[3] - 48),
        ),
{
    let b3 = b.drop_last();
    let b2 = b3.drop_last();
    let b1 = b2.drop_last();
    assert(b1.drop_last() =~= Seq::<u8>::empty());
    assert(b1.last() == b[0]);
    assert(b2.last() == b[1]);
    assert(b3.last() == b[2]);
    assert(digits_bytes(b1.drop_last()) == Some(0int));
    assert(digits_bytes(b1) == Some((b[0] - 48) as int));
    assert(digits_bytes(b2) == Some(10 * (b[0] - 48) + (b[1] - 48)));
    assert(digits_bytes(b3) == Some(100 * (b[0] - 48) + 10 * (b[1] - 48) + (b[2] - 48)));
}

/// The two-digit number written at `i` and `i + 1`.
pub open spec fn two_digits_at(b: Seq<u8>, i: int) -> int {
    10 * (b[i] - 48) + (b[i + 1] - 48)
}

/// `b` starts with `YYYY-MM-DDTHH:MM:SS` (the separators are not read), its
/// digits ASCII digits.
pub open spec fn date_time_digits(b: Seq<u8>) -> bool {
    &&& b.len() >= 20
    &&& digit_byte(b[0]) && digit_byte(b[1]) && digit_byte(b[2]) && digit_byte(b[3])
    &&& digit_byte(b[5]) && digit_byte(b[6])
    &&& digit_byte(b[8]) && digit_byte(b[9])
    &&& digit_byte(b[11]) && digit_byte(b[12])
    &&& digit_byte(b[14]) && digit_byte(b[15])
    &&& digit_byte(b[17]) && digit_byte(b[18])
}

/// The time written by the date and time at the start of `b`, as if in
/// UTC: the calendar's day count of its year, month and day, in seconds,
/// plus its hours, minutes and seconds; none for a month or day out of
/// range.
pub open spec fn written_utc_time(b: Seq<u8>) -> Option<int> {
    let year = 1000 * (b[0] - 48) + 100 * (b[1] - 48) + 10 * (b[2] - 48) + (b[3] - 48);
    match days_from_civil_spec(year, two_digits_at(b, 5), two_digits_at(b, 8)) {
        Some(days) => Some(days * 86400 + two_digits_at(b, 11) * 3600 + two_digits_at(b, 14) * 60
            + two_digits_at(b, 17)),
        None => None,
    }
}

proof fn lemma_date_time_fields(b: Seq<u8>)
    requires
        date_time_digits(b),
    ensures
        digits_bytes(b.subrange(0, 4)) == Some(
            1000 * (b[0] - 48) + 100 * (b[1] - 48) + 10 * (b[2] - 48) + (b[3] - 48),
        ),
        digits_bytes(b.subrange(5, 7)) == Some(two_digits_at(b, 5)),
        digits_bytes(b.subrange(8, 10)) == Some(two_digits_at(b, 8)),
        digits_bytes(b.subrange(11, 13)) == Some(two_digits_at(b, 11)),
        digits_bytes(b.subrange(14, 16)) == Some(two_digits_at(b, 14)),
        digits_bytes(b.subrange(17, 19)) == Some(two_digits_at(b, 17)),
{
    lemma_four_digits(b.subrange(0, 4));
    lemma_two_digits(b.subrange(5, 7));
    lemma_two_digits(b.subrange(8, 10));
    lemma_two_digits(b.subrange(11, 13));
    lemma_two_digits(b.subrange(14, 16));
    lemma_two_digits(b.subrange(17, 19));
}

/// A timestamp `YYYY-MM-DDTHH:MM:SSZ` is the calendar's time of its date and
/// time in UTC: every digit of each field counts, so the 15th of a month is
/// ten days after the 5th.
pub proof fn law_rfc3339_utc_calendar(b: Seq<u8>)
    requires
        date_time_digits(b),
        b[19] == 90,
    ensures
        rfc3339_of(b) == written_utc_time(b),
{
    lemma_date_time_fields(b);
}

/// A timestamp with an offset `+HH:MM` or `-HH:MM` is the time written
/// before it, shifted back by the offset for `+` and forward for `-`.
pub proof fn law_rfc3339_offset(b: Seq<u8>)
    requires
        date_time_digits(b),
        b.len() >= 25,
        b[19] == 43 || b[19] == 45,
        digit_byte(b[20]) && digit_byte(b[21]) && digit_byte(b[23]) && digit_byte(b[24]),
    ensures
        rfc3339_of(b) == match written_utc_time(b) {
            Some(t) => Some(
                if b[19] == 43 {
                    t - (two_digits_at(b, 20) * 3600 + two_digits_at(b, 23) * 60)
                } else {
                    t + (two_digits_at(b, 20) * 3600 + two_digits_at(b, 23) * 60)
                },
            ),
            None => None,
        },
{
    lemma_date_time_fields(b);
    lemma_two_digits(b.subrange(20, 22));
    lemma_two_digits(b.subrange(23, 25));
    let x = two_digits_at(b, 20) * 3600 + two_digits_at(b, 23) * 60;
    assert(1int * x == x);
    assert((-1int) * x == -x);
}

/// Each of the four publication statuses the API writes (`ongoing`,
/// `completed`, `cancelled`, `hiatus`) gives its own status, and only that
/// text gives it; any other text, or none, gives an unknown status.
pub proof fn law_status_names(s: Seq<char>)
    ensures
        (status_of(Some(s)) == Status::Ongoing) == (s == "ongoing"@),
        (status_of(Some(s)) == Status::Completed) == (s == "completed"@),
        (status_of(Some(s)) == Status::Cancelled) == (s == "cancelled"@),
        (status_of(Some(s)) == Status::Hiatus) == (s == "hiatus"@),
        status_of(None) == Status::Unknown,
{
    reveal_strlit("ongoing");
    reveal_strlit("completed");
    reveal_strlit("cancelled");
    reveal_strlit("hiatus");
    assert("completed"@.len() != "ongoing"@.len());
    assert("cancelled"@.len() != "ongoing"@.len());
    assert("cancelled"@[1] != "completed"@[1]);
    assert("hiatus"@.len() != "ongoing"@.len());
    assert("hiatus"@.len() != "completed"@.len());
    assert("hiatus"@.len() != "cancelled"@.len());
}

/// The content ratings the API writes: `safe` is safe, `suggestive`
/// suggestive, `erotica` and `pornographic` not safe for work, and only
/// those texts give those ratings; anything else, or none, is unknown.
pub proof fn law_rating_names(s: Seq<char>)
    ensures
        (rating_of(Some(s)) == Rating::Safe) == (s == "safe"@),
        (rating_of(Some(s)) == Rating::Suggestive) == (s == "suggestive"@),
        (rating_of(Some(s)) == Rating::Nsfw) == (s == "erotica"@ || s == "pornographic"@),
        rating_of(None) == Rating::Unknown,
{
    reveal_strlit("safe");
    reveal_strlit("suggestive");
    reveal_strlit("erotica");
    reveal_strlit("pornographic");
    assert("suggestive"@.len() != "safe"@.len());
    assert("erotica"@.len() != "safe"@.len());
    assert("erotica"@.len() != "suggestive"@.len());
    assert("pornographic"@.len() != "safe"@.len());
    assert("pornographic"@.len() != "suggestive"@.len());
}

/// A localized text prefers French, then English: a French text that is not
/// blank is the result, and without one an English text that is not blank
/// is.
pub proof fn law_localized_prefers_french(values: Seq<(Seq<char>, Seq<char>)>)
    ensures
        non_empty_of(lookup(values, "fr"@)) is Some ==> localized_of(values) == non_empty_of(
            lookup(values, "fr"@),
        ),
        non_empty_of(lookup(values, "fr"@)) is None && non_empty_of(lookup(values, "en"@)) is Some
            ==> localized_of(values) == non_empty_of(lookup(values, "en"@)),
{
}

/// A looked-up text is the text of one of the entries.
proof fn lemma_lookup_entry(values: Seq<(Seq<char>, Seq<char>)>, language: Seq<char>)
    ensures
        lookup(values, language) matches Some(v) ==> exists|i: int|
            0 <= i < values.len() && (#[trigger] values[i]).1 == v,
    decreases values.len(),
{
    if values.len() > 0 && values[0].0 != language {
        lemma_lookup_entry(values.drop_first(), language);
        if let Some(v) = lookup(values, language) {
            let i = choose|i: int|
                0 <= i < values.drop_first().len() && (#[trigger] values.drop_first()[i]).1 == v;
            assert(values[i + 1] == values.drop_first()[i]);
        }
    }
}

/// The first text that is not blank is found exactly when there is one,
/// and is one of the entries' texts, trimmed.
proof fn lemma_first_non_empty(values: Seq<(Seq<char>, Seq<char>)>)
    ensures
        (first_non_empty(values) is None) == (forall|i: int|
            0 <= i < values.len() ==> trim((#[trigger] values[i]).1).len() == 0),
        first_non_empty(values) matches Some(r) ==> r.len() > 0 && exists|i: int|
            0 <= i < values.len() && trim((#[trigger] values[i]).1) == r,
    decreases values.len(),
{
    if values.len() > 0 {
        let rest = values.drop_first();
        lemma_first_non_empty(rest);
        assert forall|i: int| 0 <= i < rest.len() implies (#[trigger] rest[i]) == values[i + 1] by {}
        if trim(values[0].1).len() == 0 {
            if first_non_empty(rest) is None {
                assert forall|i: int| 0 <= i < values.len() implies trim(
                    (#[trigger] values[i]).1,
                ).len() == 0 by {
                    if i > 0 {
                        assert(values[i] == rest[i - 1]);
                    }
                }
            } else {
                let r = first_non_empty(rest).unwrap();
                let i = choose|i: int| 0 <= i < rest.len() && trim((#[trigger] rest[i]).1) == r;
                assert(values[i + 1] == rest[i]);
            }
        }
    }
}

/// A localized text is one of the texts given, trimmed and not blank, and
/// there is one exactly when some text is not blank.
pub proof fn law_localized_is_given_text(values: Seq<(Seq<char>, Seq<char>)>)
    ensures
        (localized_of(values) is None) == (forall|i: int|
            0 <= i < values.len() ==> trim((#[trigger] values[i]).1).len() == 0),
        localized_of(values) matches Some(r) ==> r.len() > 0 && exists|i: int|
            0 <= i < values.len() && trim((#[trigger] values[i]).1) == r,
{
    lemma_first_non_empty(values);
    lemma_lookup_entry(values, preferred(0));
    lemma_lookup_entry(values, preferred(1));
    lemma_lookup_entry(values, preferred(2));
    lemma_lookup_entry(values, preferred(3));
    assert forall|j: int| 0 <= j < 4 implies (non_empty_of(#[trigger] lookup(values, preferred(j))) matches Some(
        r,
    ) ==> r.len() > 0 && exists|i: int|
        0 <= i < values.len() && trim((#[trigger] values[i]).1) == r) by {
        lemma_lookup_entry(values, preferred(j));
        if let Some(v) = lookup(values, preferred(j)) {
            let i = choose|i: int| 0 <= i < values.len() && (#[trigger] values[i]).1 == v;
            assert(trim(values[i].1) == trim(v));
        }
    }
    if forall|i: int| 0 <= i < values.len() ==> trim((#[trigger] values[i]).1).len() == 0 {
        assert forall|j: int| 0 <= j < 4 implies non_empty_of(
            #[trigger] lookup(values, preferred(j)),
        ) is None by {
            if let Some(v) = lookup(values, preferred(j)) {
                let i = choose|i: int| 0 <= i < values.len() && (#[trigger] values[i]).1 == v;
                assert(trim(values[i].1).len() == 0);
            }
        }
        assert(non_empty_of(lookup(values, preferred(0))) is None);
        assert(non_empty_of(lookup(values, preferred(1))) is None);
        assert(non_empty_of(lookup(values, preferred(2))) is None);
        assert(non_empty_of(lookup(values, preferred(3))) is None);
    }
    assert(non_empty_of(lookup(values, preferred(0))) matches Some(r) ==> r.len() > 0);
}

/// The values that are not blank once trimmed, trimmed, in order.
pub open spec fn kept_values(values: Seq<Seq<char>>) -> Seq<Seq<char>> {
    values.filter(|v: Seq<char>| trim(v).len() > 0).map_values(|v: Seq<char>| trim(v))
}

/// The parameters of the values under `key` are one parameter per value
/// that is not blank, with the value trimmed, in order.
pub proof fn law_values_params(key: Seq<char>, values: Seq<Seq<char>>)
    ensures
        values_params(key, values).len() == kept_values(values).len(),
        forall|i: int|
            0 <= i < kept_values(values).len() ==> #[trigger] values_params(key, values)[i]
                == (ParamView { key: key, value: kept_values(values)[i], encode: true }),
    decreases values.len(),
{
    let pred = |v: Seq<char>| trim(v).len() > 0;
    if values.len() == 0 {
        reveal_with_fuel(Seq::filter, 1);
        assert(kept_values(values) =~= Seq::<Seq<char>>::empty());
    } else {
        law_values_params(key, values.drop_last());
        assert(values =~= values.drop_last().push(values.last()));
        values.drop_last().lemma_filter_push(values.last(), pred);
        if pred(values.last()) {
            assert(kept_values(values) =~= kept_values(values.drop_last()).push(trim(values.last())));
        } else {
            assert(kept_values(values) =~= kept_values(values.drop_last()));
        }
    }
}

/// A filter that is not the multiple choice of `status`, `demographic` or
/// `rating` leaves the parameters of a manga list unchanged.
pub proof fn law_other_filters_ignored(
    query: Option<Seq<char>>,
    page: int,
    filters: Seq<FilterView>,
    f: FilterView,
    order: SearchOrder,
)
    requires
        !(f matches FilterView::MultiSelect { id, .. } && (id == "status"@ || id == "demographic"@
            || id == "rating"@)),
    ensures
        manga_list_query(query, page, filters.push(f), order) == manga_list_query(
            query,
            page,
            filters,
            order,
        ),
{
    assert(filters.push(f).drop_last() =~= filters);
}

/// A `status` or `demographic` multiple-choice filter adds, after the
/// parameters of the filters before it, one `status[]` or
/// `publicationDemographic[]` parameter per included value that is not
/// blank, trimmed, in order, and leaves the rating choice as it was.
pub proof fn law_status_demographic_filters(
    filters: Seq<FilterView>,
    id: Seq<char>,
    included: Seq<Seq<char>>,
)
    requires
        id == "status"@ || id == "demographic"@,
    ensures
        ({
            let key = if id == "status"@ {
                "status[]"@
            } else {
                "publicationDemographic[]"@
            };
            let before = filters_params(filters);
            let after = filters_params(filters.push(FilterView::MultiSelect { id, included }));
            &&& after.1 == before.1
            &&& after.0 == before.0 + values_params(key, included)
            &&& values_params(key, included).len() == kept_values(included).len()
            &&& forall|i: int|
                0 <= i < kept_values(included).len() ==> #[trigger] values_params(key, included)[i]
                    == (ParamView { key: key, value: kept_values(included)[i], encode: true })
        }),
{
    let f = FilterView::MultiSelect { id, included };
    assert(filters.push(f).drop_last() =~= filters);
    assert(filters.push(f).last() == f);
    if id == "status"@ {
        law_values_params("status[]"@, included);
    } else {
        law_values_params("publicationDemographic[]"@, included);
    }
}

/// Each further page of a chapter feed starts after the previous one and
/// before the total, so reading the feed ends.
pub proof fn law_feed_progress(count: int, offset: int, limit: int, total: int)
    ensures
        next_feed_offset_of(count, offset, limit, total) matches Some(next) ==> offset < next
            < total,
{
}

/// A title always has at least one chapter to show.
pub proof fn law_chapters_never_empty(chapters: Seq<ChapterView>, manga_id: Seq<char>)
    ensures
        chapters_or_placeholder(chapters, manga_id).len() > 0,
{
}

} // verus!
