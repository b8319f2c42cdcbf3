//! LelManga (`https://www.lelmanga.com`): a WordPress manga theme scraped
//! from its HTML.
use vstd::prelude::*;
use crate::lists::{dedupe, dedupe_urls, push_unique};
use crate::model::{
    filters_view, params_view, Filter, FilterView, ParamView, QueryParam, chapters_view, ChapterEntry, ChapterView, mangas_view, opt_strs_view, opt_view, opts_view, strs_view, MangaEntry, MangaView, Rating,
    Reader, Status,
};
use crate::query::{join, join_exec, push_query_param, query_param, url_with_query, with_query};
use crate::civil::{civil_fits, civil_in_range, days_from_civil, days_from_civil_spec, days_in_month};
use crate::text::{
    digits, is_ws, decimal, decimal_exec, trim_str, has_suffix, is_digit, parse_i64_chars, parse_i64_text, words, words_exec, before_char, before_char_exec, char_uppercase, strip_prefix_all, strip_prefix_all_exec,
    strip_start_char, strip_start_chars, uppercase, append, append_str, chars_of, collapse_ws, collapse_ws_exec, contains, contains_str,
    find, find_from, find_from_exec, lemma_find_from, lower, replace, replace_str, slice_copy,
    starts_with_str, string_of, to_lower, trim, trim_chars, has_prefix, matches_at,
};

verus! {

/// The site's address.
pub const BASE_URL: &'static str = "https://www.lelmanga.com";

// ---------------------------------------------------------------------------
// Text cleaning
// ---------------------------------------------------------------------------

/// The HTML entities that the site writes, replaced one after the other by
/// the characters they stand for.
pub open spec fn decode_entities(s: Seq<char>) -> Seq<char> {
    let s = replace(s, "&amp;"@, "&"@);
    let s = replace(s, "&#038;"@, "&"@);
    let s = replace(s, "&quot;"@, "\""@);
    let s = replace(s, "&#8217;"@, "'"@);
    let s = replace(s, "&#8211;"@, "-"@);
    let s = replace(s, "&#8212;"@, "-"@);
    let s = replace(s, "&nbsp;"@, " "@);
    let s = replace(s, "&lt;"@, "<"@);
    replace(s, "&gt;"@, ">"@)
}

/// The decoded text with its words separated by single spaces, when there is
/// any word.
pub open spec fn clean_text(s: Seq<char>) -> Option<Seq<char>> {
    let t = collapse_ws(decode_entities(s));
    if t.len() == 0 {
        None
    } else {
        Some(t)
    }
}

/// Replaces the HTML entities that the site writes.
pub fn decode_html_entities(value: &str) -> (r: String)
    ensures
        r@ == decode_entities(value@),
{
    let s = chars_of(value);
    let s = replace_str(s.as_slice(), "&amp;", "&");
    let s = replace_str(s.as_slice(), "&#038;", "&");
    let s = replace_str(s.as_slice(), "&quot;", "\"");
    let s = replace_str(s.as_slice(), "&#8217;", "'");
    let s = replace_str(s.as_slice(), "&#8211;", "-");
    let s = replace_str(s.as_slice(), "&#8212;", "-");
    let s = replace_str(s.as_slice(), "&nbsp;", " ");
    let s = replace_str(s.as_slice(), "&lt;", "<");
    let s = replace_str(s.as_slice(), "&gt;", ">");
    string_of(s.as_slice())
}

/// The decoded text with runs of whitespace made single spaces and the ends
/// trimmed, or `None` when nothing is left.
pub fn non_empty_text(value: &str) -> (r: Option<String>)
    ensures
        r matches Some(t) ==> clean_text(value@) == Some(t@),
        r is None ==> clean_text(value@) is None,
{
    let decoded = decode_html_entities(value);
    let d = chars_of(decoded.as_str());
    let c = collapse_ws_exec(d.as_slice());
    if c.len() == 0 {
        None
    } else {
        Some(string_of(c.as_slice()))
    }
}

// ---------------------------------------------------------------------------
// Image URLs
// ---------------------------------------------------------------------------

/// A trimmed URL, made absolute with `https:` when it is protocol-relative.
pub open spec fn normalized_url(url: Seq<char>) -> Seq<char> {
    let t = trim(url);
    if has_prefix(t, "//"@) {
        "https:"@ + t
    } else {
        t
    }
}

/// An absolute `http` or `https` URL that is none of the theme's own images.
pub open spec fn valid_image_url(url: Seq<char>) -> bool {
    let l = lower(url);
    &&& has_prefix(l, "http://"@) || has_prefix(l, "https://"@)
    &&& !contains(l, "readerarea.svg"@)
    &&& !contains(l, "btn_close.gif"@)
    &&& !contains(l, "/themes/"@)
}

/// Trims `url` and gives a protocol-relative one the `https:` scheme.
pub fn normalize_url(url: &str) -> (r: String)
    ensures
        r@ == normalized_url(url@),
{
    let t = chars_of(url);
    let t = trim_chars(t.as_slice());
    if starts_with_str(t.as_slice(), "//") {
        let mut out = chars_of("https:");
        append(&mut out, t.as_slice());
        string_of(out.as_slice())
    } else {
        string_of(t.as_slice())
    }
}

/// `url` is an absolute `http(s)` URL that is not one of the reader's own
/// images (`readerarea.svg`, `btn_close.gif`, anything under `/themes/`).
pub fn is_valid_image_url(url: &str) -> (r: bool)
    ensures
        r == valid_image_url(url@),
{
    let u = chars_of(url);
    let l = to_lower(u.as_slice());
    (starts_with_str(l.as_slice(), "http://") || starts_with_str(l.as_slice(), "https://"))
        && !contains_str(l.as_slice(), "readerarea.svg") && !contains_str(
        l.as_slice(),
        "btn_close.gif",
    ) && !contains_str(l.as_slice(), "/themes/")
}

/// The normalized form of `url` when it is a valid image URL.
pub open spec fn image_candidate(url: Seq<char>) -> Option<Seq<char>> {
    let n = normalized_url(url);
    if valid_image_url(n) {
        Some(n)
    } else {
        None
    }
}

/// The first of the four attributes that is present, normalized, when it is
/// a valid image URL.
pub open spec fn image_url_of(
    abs_data_src: Option<Seq<char>>,
    abs_src: Option<Seq<char>>,
    data_src: Option<Seq<char>>,
    src: Option<Seq<char>>,
) -> Option<Seq<char>> {
    let first = if abs_data_src is Some {
        abs_data_src
    } else if abs_src is Some {
        abs_src
    } else if data_src is Some {
        data_src
    } else {
        src
    };
    match first {
        Some(u) => image_candidate(u),
        None => None,
    }
}

/// The image URL of an `<img>` element: the first of its `abs:data-src`,
/// `abs:src`, `data-src` and `src` attributes that is present, normalized,
/// when it is a valid image URL.
pub fn image_url(
    abs_data_src: Option<String>,
    abs_src: Option<String>,
    data_src: Option<String>,
    src: Option<String>,
) -> (r: Option<String>)
    ensures
        opt_view(r) == image_url_of(
            opt_view(abs_data_src),
            opt_view(abs_src),
            opt_view(data_src),
            opt_view(src),
        ),
{
    let first = if abs_data_src.is_some() {
        abs_data_src
    } else if abs_src.is_some() {
        abs_src
    } else if data_src.is_some() {
        data_src
    } else {
        src
    };
    match first {
        Some(u) => {
            let n = normalize_url(u.as_str());
            if is_valid_image_url(n.as_str()) {
                Some(n)
            } else {
                None
            }
        },
        None => None,
    }
}

// ---------------------------------------------------------------------------
// Page images of a chapter
// ---------------------------------------------------------------------------

/// The state of the scanner of quoted strings after some input: the strings
/// closed so far, the one being read, and where the scanner is
/// (`mode` 0: outside quotes, 1: inside, 2: after a backslash, 3: reading the
/// four hex digits of a `\u` escape, kept in `hex`).
pub struct QuotedState {
    pub strings: Seq<Seq<char>>,
    pub current: Seq<char>,
    pub mode: int,
    pub hex: Seq<char>,
}

/// One character of input to the scanner of quoted strings. Inside quotes a
/// backslash escapes the next character, which is taken as is, except that
/// `\u0026` stands for `&` and any other `\uXXXX` for nothing.
pub open spec fn quoted_step(st: QuotedState, c: char) -> QuotedState {
    if st.mode == 0 {
        if c == '"' {
            QuotedState { current: Seq::empty(), mode: 1, ..st }
        } else {
            st
        }
    } else if st.mode == 1 {
        if c == '\\' {
            QuotedState { mode: 2, ..st }
        } else if c == '"' {
            QuotedState { strings: st.strings.push(st.current), mode: 0, ..st }
        } else {
            QuotedState { current: st.current.push(c), ..st }
        }
    } else if st.mode == 2 {
        if c == 'u' {
            QuotedState { mode: 3, hex: Seq::empty(), ..st }
        } else {
            QuotedState { current: st.current.push(c), mode: 1, ..st }
        }
    } else {
        let hex = st.hex.push(c);
        if hex.len() < 4 {
            QuotedState { hex: hex, ..st }
        } else if hex == "0026"@ {
            QuotedState { current: st.current.push('&'), mode: 1, hex: hex, ..st }
        } else {
            QuotedState { mode: 1, hex: hex, ..st }
        }
    }
}

/// The scanner's state after reading `s` from the state `st`.
pub open spec fn quoted_run(st: QuotedState, s: Seq<char>) -> QuotedState
    decreases s.len(),
{
    if s.len() == 0 {
        st
    } else {
        quoted_step(quoted_run(st, s.drop_last()), s.last())
    }
}

/// The scanner's state before any input.
pub open spec fn quoted_start() -> QuotedState {
    QuotedState { strings: Seq::empty(), current: Seq::empty(), mode: 0, hex: Seq::empty() }
}

/// The scanner's state after reading `s` from the start.
pub open spec fn quoted_state(s: Seq<char>) -> QuotedState {
    quoted_run(quoted_start(), s)
}

/// The double-quoted strings of `s`, with their escapes resolved; a string
/// left open at the end is dropped.
pub open spec fn quoted_strings(s: Seq<char>) -> Seq<Seq<char>> {
    quoted_state(s).strings
}

/// The double-quoted strings of a JSON-like list, with `\/`, `\"`, `\\`
/// and `\u0026` resolved.
pub fn parse_quoted_strings(value: &str) -> (r: Vec<String>)
    ensures
        strs_view(r@) == quoted_strings(value@),
{
    let s = chars_of(value);
    let mut strings: Vec<String> = Vec::new();
    let mut current: Vec<char> = Vec::new();
    let mut mode: u8 = 0;
    let mut hex: Vec<char> = Vec::new();
    let code = chars_of("0026");
    for i in 0..s.len()
        invariant
            code@ == "0026"@,
            ({
                let st = quoted_state(s@.take(i as int));
                &&& strs_view(strings@) == st.strings
                &&& current@ == st.current
                &&& mode as int == st.mode
                &&& hex@ == st.hex
                &&& 0 <= st.mode <= 3
            }),
    {
        let c = s[i];
        let ghost prev = quoted_state(s@.take(i as int));
        assert(s@.take(i + 1).drop_last() =~= s@.take(i as int));
        assert(quoted_run(quoted_start(), s@.take(i + 1)) == quoted_step(prev, c));
        if mode == 0 {
            if c == '"' {
                current = Vec::new();
                mode = 1;
            }
        } else if mode == 1 {
            if c == '\\' {
                mode = 2;
            } else if c == '"' {
                let ghost before = strings@;
                strings.push(string_of(current.as_slice()));
                assert(strs_view(strings@) =~= strs_view(before).push(current@));
                mode = 0;
            } else {
                current.push(c);
            }
        } else if mode == 2 {
            if c == 'u' {
                mode = 3;
                hex = Vec::new();
            } else {
                current.push(c);
                mode = 1;
            }
        } else {
            hex.push(c);
            if hex.len() >= 4 {
                if crate::text::eq_chars(hex.as_slice(), code.as_slice()) {
                    current.push('&');
                }
                mode = 1;
            }
        }
    }
    assert(s@.take(s@.len() as int) =~= s@);
    strings
}

/// The URLs of the attribute values that follow each occurrence of
/// `marker` at or after `pos`: each value runs to the next `"`, is decoded
/// and normalized, and is kept when it is a valid image URL. The scan stops
/// at a marker whose value is not closed.
pub open spec fn attr_urls_from(seg: Seq<char>, marker: Seq<char>, pos: int) -> Seq<Seq<char>>
    decreases seg.len() - pos,
{
    if marker.len() == 0 || pos < 0 {
        Seq::empty()
    } else {
        match find_from(seg, marker, pos) {
            None => Seq::empty(),
            Some(start) => {
                let value_start = start + marker.len();
                match find_from(seg, seq!['"'], value_start) {
                    None => Seq::empty(),
                    Some(end) => {
                        proof {
                            lemma_find_from(seg, marker, pos);
                            lemma_find_from(seg, seq!['"'], value_start);
                        }
                        let url = normalized_url(
                            decode_entities(seg.subrange(value_start, end)),
                        );
                        let rest = attr_urls_from(seg, marker, end);
                        if valid_image_url(url) {
                            seq![url] + rest
                        } else {
                            rest
                        }
                    },
                }
            },
        }
    }
}

/// The valid image URLs of the values of the attribute that starts with
/// `marker` (such as `src="`), in order of appearance.
pub fn extract_attr_urls(segment: &str, marker: &str) -> (r: Vec<String>)
    requires
        marker@.len() > 0,
    ensures
        strs_view(r@) == attr_urls_from(segment@, marker@, 0),
{
    let seg = chars_of(segment);
    let m = chars_of(marker);
    let quote = vec!['"'];
    assert(quote@ =~= seq!['"']);
    let mut urls: Vec<String> = Vec::new();
    let mut pos: usize = 0;
    loop
        invariant
            m@ == marker@,
            m@.len() > 0,
            seg@ == segment@,
            quote@ == seq!['"'],
            pos <= seg@.len(),
            strs_view(urls@) + attr_urls_from(seg@, m@, pos as int) == attr_urls_from(
                seg@,
                m@,
                0,
            ),
        decreases seg@.len() - pos,
    {
        let start = match find_from_exec(seg.as_slice(), m.as_slice(), pos) {
            Some(start) => start,
            None => {
                assert(strs_view(urls@) =~= strs_view(urls@) + Seq::<Seq<char>>::empty());
                return urls;
            },
        };
        proof {
            lemma_find_from(seg@, m@, pos as int);
        }
        assert(start + m.len() <= seg.len());
        let value_start = start + m.len();
        let end = match find_from_exec(seg.as_slice(), quote.as_slice(), value_start) {
            Some(end) => end,
            None => {
                assert(strs_view(urls@) =~= strs_view(urls@) + Seq::<Seq<char>>::empty());
                return urls;
            },
        };
        proof {
            lemma_find_from(seg@, seq!['"'], value_start as int);
        }
        let raw = slice_copy(seg.as_slice(), value_start, end);
        let raw_s = string_of(raw.as_slice());
        let decoded = decode_html_entities(raw_s.as_str());
        let url = normalize_url(decoded.as_str());
        let ghost rest = attr_urls_from(seg@, m@, end as int);
        if is_valid_image_url(url.as_str()) {
            let ghost before = urls@;
            urls.push(url);
            assert(strs_view(urls@) + rest =~= strs_view(before) + (seq![
                normalized_url(decode_entities(seg@.subrange(value_start as int, end as int))),
            ] + rest));
        }
        pos = end;
    }
}

/// The image URLs inside the reader area of a chapter page: from
/// `id="readerarea"` up to the first `</noscript>` after it, the values of
/// the `src` attributes, then those of the `data-src` attributes, without
/// repeats; empty when the page has no reader area.
pub open spec fn readerarea_images(html: Seq<char>) -> Seq<Seq<char>> {
    match find(html, "id=\"readerarea\""@) {
        None => Seq::empty(),
        Some(start) => {
            let segment = html.skip(start);
            let end = match find(segment, "</noscript>"@) {
                Some(e) => e,
                None => segment.len() as int,
            };
            let segment = segment.take(end);
            dedupe(
                attr_urls_from(segment, "src=\""@, 0) + attr_urls_from(
                    segment,
                    "data-src=\""@,
                    0,
                ),
            )
        },
    }
}

/// The images of the reader area of a chapter page.
pub fn parse_readerarea_images(html: &str) -> (r: Vec<String>)
    ensures
        strs_view(r@) == readerarea_images(html@),
{
    let h = chars_of(html);
    let marker = chars_of("id=\"readerarea\"");
    let start = match crate::text::find_exec(h.as_slice(), marker.as_slice()) {
        Some(start) => start,
        None => {
            return Vec::new();
        },
    };
    proof {
        crate::text::lemma_find_contains(h@, marker@);
    }
    let segment = slice_copy(h.as_slice(), start, h.len());
    assert(segment@ =~= h@.skip(start as int));
    let close = chars_of("</noscript>");
    let end = match crate::text::find_exec(segment.as_slice(), close.as_slice()) {
        Some(e) => {
            proof {
                crate::text::lemma_find_contains(segment@, close@);
            }
            e
        },
        None => segment.len(),
    };
    let segment = slice_copy(segment.as_slice(), 0, end);
    let segment = string_of(segment.as_slice());
    proof {
        reveal_strlit("src=\"");
        reveal_strlit("data-src=\"");
    }
    let mut urls = extract_attr_urls(segment.as_str(), "src=\"");
    let more = extract_attr_urls(segment.as_str(), "data-src=\"");
    let ghost first = urls@;
    let mut more = more;
    urls.append(&mut more);
    assert(strs_view(urls@) =~= strs_view(first) + attr_urls_from(
        segment@,
        "data-src=\""@,
        0,
    ));
    dedupe_urls(urls)
}

/// The valid image URLs among `strings`, normalized.
pub open spec fn valid_normalized(strings: Seq<Seq<char>>) -> Seq<Seq<char>>
    decreases strings.len(),
{
    if strings.len() == 0 {
        Seq::empty()
    } else {
        let prev = valid_normalized(strings.drop_last());
        let n = normalized_url(strings.last());
        if valid_image_url(n) {
            prev.push(n)
        } else {
            prev
        }
    }
}

/// The images that the reader's script lists in `"images":[...]`: the
/// quoted strings up to the first `]`, normalized, the valid image URLs
/// among them, without repeats.
pub open spec fn ts_reader_images(html: Seq<char>) -> Seq<Seq<char>> {
    match find(html, "\"images\":["@) {
        None => Seq::empty(),
        Some(start) => {
            let rest = html.skip(start + "\"images\":["@.len());
            match find(rest, seq![']']) {
                None => Seq::empty(),
                Some(end) => dedupe(valid_normalized(quoted_strings(rest.take(end)))),
            }
        },
    }
}

/// The images of a chapter page listed by the reader's script.
pub fn parse_ts_reader_images(html: &str) -> (r: Vec<String>)
    ensures
        strs_view(r@) == ts_reader_images(html@),
{
    let h = chars_of(html);
    let marker = chars_of("\"images\":[");
    let start = match crate::text::find_exec(h.as_slice(), marker.as_slice()) {
        Some(start) => start,
        None => {
            return Vec::new();
        },
    };
    proof {
        crate::text::lemma_find_contains(h@, marker@);
    }
    assert(start + marker.len() <= h.len());
    let rest = slice_copy(h.as_slice(), start + marker.len(), h.len());
    assert(rest@ =~= h@.skip(start + marker@.len()));
    let close = vec![']'];
    assert(close@ =~= seq![']']);
    let end = match crate::text::find_exec(rest.as_slice(), close.as_slice()) {
        Some(e) => e,
        None => {
            return Vec::new();
        },
    };
    proof {
        crate::text::lemma_find_contains(rest@, close@);
    }
    let inner = slice_copy(rest.as_slice(), 0, end);
    assert(inner@ =~= rest@.take(end as int));
    let inner = string_of(inner.as_slice());
    let strings = parse_quoted_strings(inner.as_str());
    let mut urls: Vec<String> = Vec::new();
    for i in 0..strings.len()
        invariant
            strs_view(urls@) == valid_normalized(strs_view(strings@.take(i as int))),
    {
        let n = normalize_url(strings[i].as_str());
        let ghost t = strs_view(strings@.take(i + 1));
        assert(t.drop_last() =~= strs_view(strings@.take(i as int)));
        assert(t.last() == strings@[i as int]@);
        if is_valid_image_url(n.as_str()) {
            let ghost before = urls@;
            urls.push(n);
            assert(strs_view(urls@) =~= strs_view(before).push(n@));
        }
    }
    assert(strings@.take(strings@.len() as int) =~= strings@);
    dedupe_urls(urls)
}

/// The page images of a chapter: those of the reader area, or, when there
/// are none, those that the reader's script lists.
pub open spec fn page_images(html: Seq<char>) -> Seq<Seq<char>> {
    let urls = readerarea_images(html);
    if urls.len() == 0 {
        ts_reader_images(html)
    } else {
        urls
    }
}

/// The page image URLs of a chapter page.
pub fn page_image_urls(html: &str) -> (r: Vec<String>)
    ensures
        strs_view(r@) == page_images(html@),
{
    let urls = parse_readerarea_images(html);
    if urls.len() == 0 {
        parse_ts_reader_images(html)
    } else {
        urls
    }
}

/// The address of a chapter's page: its own URL, or the site's address
/// followed by `/` and the chapter's key.
pub fn chapter_page_url(url: Option<String>, key: &str) -> (r: String)
    ensures
        r@ == match url {
            Some(u) => u@,
            None => BASE_URL@ + "/"@ + key@,
        },
{
    match url {
        Some(u) => u,
        None => {
            let mut out = chars_of(BASE_URL);
            append_str(&mut out, "/");
            append_str(&mut out, key);
            string_of(out.as_slice())
        },
    }
}

// ---------------------------------------------------------------------------
// Keys, titles and URLs
// ---------------------------------------------------------------------------

/// The address of a manga's page.
pub open spec fn manga_page(key: Seq<char>) -> Seq<char> {
    BASE_URL@ + "/manga/"@ + key
}

/// The address of a manga's page on the site.
pub fn manga_url(key: &str) -> (r: String)
    ensures
        r@ == manga_page(key@),
{
    let mut out = chars_of(BASE_URL);
    append_str(&mut out, "/manga/");
    append_str(&mut out, key);
    string_of(out.as_slice())
}

/// The key of a manga in the URL of its page: the path segment after the
/// first `/manga/` of the URL without its query; none when that segment is
/// empty or is the listing's `list-mode`.
pub open spec fn manga_key(url: Seq<char>) -> Option<Seq<char>> {
    let path = before_char(url, '?');
    match find(path, "/manga/"@) {
        None => None,
        Some(i) => {
            let key = before_char(path.skip(i + "/manga/"@.len()), '/');
            if key.len() == 0 || key == "list-mode"@ {
                None
            } else {
                Some(key)
            }
        },
    }
}

/// The key of a manga in the URL of its page.
pub fn manga_key_from_url(url: &str) -> (r: Option<String>)
    ensures
        r matches Some(k) ==> manga_key(url@) == Some(k@),
        r is None ==> manga_key(url@) is None,
{
    let u = chars_of(url);
    let path = before_char_exec(u.as_slice(), '?');
    let marker = chars_of("/manga/");
    let i = match crate::text::find_exec(path.as_slice(), marker.as_slice()) {
        Some(i) => i,
        None => {
            return None;
        },
    };
    proof {
        crate::text::lemma_find_contains(path@, marker@);
    }
    assert(i + marker.len() <= path.len());
    let rest = slice_copy(path.as_slice(), i + marker.len(), path.len());
    assert(rest@ =~= path@.skip(i + marker@.len()));
    let key = before_char_exec(rest.as_slice(), '/');
    let list_mode = chars_of("list-mode");
    if key.len() == 0 || crate::text::eq_chars(key.as_slice(), list_mode.as_slice()) {
        None
    } else {
        Some(string_of(key.as_slice()))
    }
}

/// The key of a chapter in its URL: the first path segment once the query,
/// the site's address (repeated) and the leading slashes are removed; none
/// when that segment is empty, `#`, `#!` or starts with `manga`.
pub open spec fn chapter_key(url: Seq<char>) -> Option<Seq<char>> {
    let path = before_char(url, '?');
    let rest = strip_start_char(strip_prefix_all(path, BASE_URL@), '/');
    let key = before_char(rest, '/');
    if key.len() == 0 || key == "#!"@ || key == "#"@ || has_prefix(key, "manga"@) {
        None
    } else {
        Some(key)
    }
}

/// The key of a chapter in its URL.
pub fn chapter_key_from_url(url: &str) -> (r: Option<String>)
    ensures
        r matches Some(k) ==> chapter_key(url@) == Some(k@),
        r is None ==> chapter_key(url@) is None,
{
    let u = chars_of(url);
    let path = before_char_exec(u.as_slice(), '?');
    let base = chars_of(BASE_URL);
    let rest = strip_prefix_all_exec(path.as_slice(), base.as_slice());
    let rest = strip_start_chars(rest.as_slice(), '/');
    let key = before_char_exec(rest.as_slice(), '/');
    let k1 = chars_of("#!");
    let k2 = chars_of("#");
    if key.len() == 0 || crate::text::eq_chars(key.as_slice(), k1.as_slice())
        || crate::text::eq_chars(key.as_slice(), k2.as_slice()) || starts_with_str(
        key.as_slice(),
        "manga",
    ) {
        None
    } else {
        Some(string_of(key.as_slice()))
    }
}

/// A title made from a key: each `-` becomes a space, and the first
/// character of each dash-separated piece is replaced by its uppercase
/// mapping (`split('-')`, `capitalize` of each piece, `join(" ")`).
pub open spec fn key_title(key: Seq<char>) -> Seq<char>
    decreases key.len(),
{
    if key.len() == 0 {
        Seq::empty()
    } else {
        let prev = key_title(key.drop_last());
        let c = key.last();
        if c == '-' {
            prev.push(' ')
        } else if key.len() == 1 || key[key.len() - 2] == '-' {
            prev + char_uppercase(c)
        } else {
            prev.push(c)
        }
    }
}

/// `value` with its first character replaced by its uppercase mapping.
pub open spec fn capitalized(value: Seq<char>) -> Seq<char> {
    if value.len() == 0 {
        value
    } else {
        char_uppercase(value[0]) + value.drop_first()
    }
}

/// `value` with its first character in uppercase.
pub fn capitalize(value: &str) -> (r: String)
    ensures
        r@ == capitalized(value@),
        r@.len() >= value@.len(),
{
    let v = chars_of(value);
    if v.len() == 0 {
        return String::new();
    }
    let mut out = uppercase(v[0]);
    let rest = slice_copy(v.as_slice(), 1, v.len());
    append(&mut out, rest.as_slice());
    assert(rest@ =~= v@.drop_first());
    string_of(out.as_slice())
}

/// A readable title made from a manga's key (`one-piece` gives `One Piece`).
pub fn key_to_title(key: &str) -> (r: String)
    ensures
        r@ == key_title(key@),
        r@.len() >= key@.len(),
{
    let k = chars_of(key);
    let mut out: Vec<char> = Vec::new();
    for i in 0..k.len()
        invariant
            out@ == key_title(k@.take(i as int)),
            out@.len() >= i,
    {
        let c = k[i];
        let ghost t = k@.take(i + 1);
        assert(t.drop_last() =~= k@.take(i as int));
        if c == '-' {
            out.push(' ');
        } else if i == 0 || k[i - 1] == '-' {
            if i > 0 {
                assert(t[t.len() - 2] == k@[i - 1]);
            }
            let up = uppercase(c);
            append(&mut out, up.as_slice());
        } else {
            assert(t[t.len() - 2] == k@[i - 1]);
            out.push(c);
        }
    }
    assert(k@.take(k@.len() as int) =~= k@);
    string_of(out.as_slice())
}

// ---------------------------------------------------------------------------
// Classification
// ---------------------------------------------------------------------------

/// The type of a manga named by a lowercase class name.
pub open spec fn kind_name(w: Seq<char>) -> Option<Seq<char>> {
    if w == "manga"@ {
        Some("Manga"@)
    } else if w == "manhwa"@ {
        Some("Manhwa"@)
    } else if w == "manhua"@ {
        Some("Manhua"@)
    } else if w == "comic"@ {
        Some("Comic"@)
    } else if w == "novel"@ {
        Some("Novel"@)
    } else {
        None
    }
}

/// The type named by the first of `ws` that, in ASCII lowercase, names one.
pub open spec fn first_type(ws: Seq<Seq<char>>) -> Option<Seq<char>>
    decreases ws.len(),
{
    if ws.len() == 0 {
        None
    } else {
        match kind_name(lower(ws[0])) {
            Some(n) => Some(n),
            None => first_type(ws.drop_first()),
        }
    }
}

/// The type of a manga given by the class list of its card's type badge.
pub open spec fn class_type(class: Seq<char>) -> Option<Seq<char>> {
    first_type(words(class))
}

fn literal_is(w: &[char], lit: &str) -> (r: bool)
    ensures
        r == (w@ == lit@),
{
    let l = chars_of(lit);
    crate::text::eq_chars(w, l.as_slice())
}

/// The type of a manga (`Manga`, `Manhwa`, `Manhua`, `Comic` or `Novel`)
/// given by the class list of its card's type badge.
pub fn type_from_class(class: &str) -> (r: Option<String>)
    ensures
        r matches Some(t) ==> class_type(class@) == Some(t@),
        r is None ==> class_type(class@) is None,
{
    let c = chars_of(class);
    let ws = words_exec(c.as_slice());
    let ghost all = words(c@);
    assert(all.skip(0) =~= all);
    for i in 0..ws.len()
        invariant
            all == words(class@),
            ws@.len() == all.len(),
            forall|j: int| 0 <= j < ws@.len() ==> #[trigger] ws@[j]@ == all[j],
            first_type(all) == first_type(all.skip(i as int)),
    {
        let l = to_lower(ws[i].as_slice());
        assert(all.skip(i as int)[0] == ws@[i as int]@);
        assert(all.skip(i as int).drop_first() =~= all.skip(i + 1));
        assert(l@ == lower(all.skip(i as int)[0]));
        if literal_is(l.as_slice(), "manga") {
            assert(kind_name(l@) == Some("Manga"@));
            return Some("Manga".to_owned());
        } else if literal_is(l.as_slice(), "manhwa") {
            return Some("Manhwa".to_owned());
        } else if literal_is(l.as_slice(), "manhua") {
            return Some("Manhua".to_owned());
        } else if literal_is(l.as_slice(), "comic") {
            return Some("Comic".to_owned());
        } else if literal_is(l.as_slice(), "novel") {
            return Some("Novel".to_owned());
        }
        assert(kind_name(l@) is None);
    }
    assert(all.skip(ws@.len() as int) =~= Seq::<Seq<char>>::empty());
    None
}

/// The cleaned texts among `texts` that are not blank.
pub open spec fn clean_all(texts: Seq<Option<Seq<char>>>) -> Seq<Seq<char>>
    decreases texts.len(),
{
    if texts.len() == 0 {
        Seq::empty()
    } else {
        let prev = clean_all(texts.drop_last());
        match texts.last() {
            Some(t) => match clean_text(t) {
                Some(c) => prev.push(c),
                None => prev,
            },
            None => prev,
        }
    }
}

/// The tags of a manga page from the texts of its genre links: the cleaned
/// texts that are not blank, without repeats; none when there are none.
pub open spec fn page_tags(texts: Seq<Option<Seq<char>>>) -> Option<Seq<Seq<char>>> {
    let tags = dedupe(clean_all(texts));
    if tags.len() == 0 {
        None
    } else {
        Some(tags)
    }
}

/// The tags of a manga from the texts of its genre links.
pub fn parse_tags(texts: &Vec<Option<String>>) -> (r: Option<Vec<String>>)
    ensures
        opt_strs_view(r) == page_tags(opts_view(texts@)),
{
    let mut tags: Vec<String> = Vec::new();
    for i in 0..texts.len()
        invariant
            strs_view(tags@) == dedupe(clean_all(opts_view(texts@.take(i as int)))),
    {
        let ghost t = opts_view(texts@.take(i + 1));
        assert(t.drop_last() =~= opts_view(texts@.take(i as int)));
        assert(t.last() == opt_view(texts@[i as int]));
        let ghost prev = clean_all(opts_view(texts@.take(i as int)));
        match &texts[i] {
            Some(text) => {
                match non_empty_text(text.as_str()) {
                    Some(tag) => {
                        assert(clean_all(t) == prev.push(tag@));
                        assert(prev.push(tag@).drop_last() =~= prev);
                        push_unique(&mut tags, tag);
                    },
                    None => {},
                }
            },
            None => {},
        }
    }
    assert(texts@.take(texts@.len() as int) =~= texts@);
    if tags.len() == 0 {
        None
    } else {
        Some(tags)
    }
}

/// The value of the first metadata row whose cleaned text starts, in ASCII
/// lowercase, with `label`: the rest of that text, trimmed and cleaned.
pub open spec fn metadata_from(texts: Seq<Option<Seq<char>>>, label: Seq<char>) -> Option<
    Seq<char>,
>
    decreases texts.len(),
{
    if texts.len() == 0 {
        None
    } else {
        let rest = metadata_from(texts.drop_first(), label);
        match texts[0] {
            Some(t) => match clean_text(t) {
                Some(c) => if has_prefix(lower(c), lower(label)) {
                    clean_text(trim(c.skip(label.len() as int)))
                } else {
                    rest
                },
                None => rest,
            },
            None => rest,
        }
    }
}

/// The value of the metadata row labelled `label` among the texts of the
/// rows (`Status Ongoing` gives `Ongoing` for `Status`).
pub fn metadata_value(texts: &Vec<Option<String>>, label: &str) -> (r: Option<String>)
    ensures
        opt_view(r) == metadata_from(opts_view(texts@), label@),
{
    let l = chars_of(label);
    let label_lower = to_lower(l.as_slice());
    let ghost all = opts_view(texts@);
    assert(all.skip(0) =~= all);
    for i in 0..texts.len()
        invariant
            all == opts_view(texts@),
            l@ == label@,
            label_lower@ == lower(label@),
            metadata_from(all, label@) == metadata_from(all.skip(i as int), label@),
    {
        assert(all.skip(i as int)[0] == opt_view(texts@[i as int]));
        assert(all.skip(i as int).drop_first() =~= all.skip(i + 1));
        if let Some(raw) = &texts[i] {
            if let Some(text) = non_empty_text(raw.as_str()) {
                let t = chars_of(text.as_str());
                let lower_t = to_lower(t.as_slice());
                if crate::text::starts_with(lower_t.as_slice(), label_lower.as_slice()) {
                    assert(lower_t@.len() == t@.len());
                    let rest = if l.len() <= t.len() {
                        slice_copy(t.as_slice(), l.len(), t.len())
                    } else {
                        Vec::new()
                    };
                    assert(rest@ =~= t@.skip(l@.len() as int));
                    let trimmed = trim_chars(rest.as_slice());
                    let trimmed = string_of(trimmed.as_slice());
                    return non_empty_text(trimmed.as_str());
                }
            }
        }
    }
    None
}

/// The status named in the text of the status row.
pub open spec fn status_of(status: Option<Seq<char>>) -> Status {
    match status {
        Some(v) => {
            let l = lower(v);
            if contains(l, "ongoing"@) {
                Status::Ongoing
            } else if contains(l, "completed"@) {
                Status::Completed
            } else if contains(l, "hiatus"@) {
                Status::Hiatus
            } else {
                Status::Unknown
            }
        },
        None => Status::Unknown,
    }
}

/// The publication status named in the text of the status row.
pub fn manga_status(status: Option<&str>) -> (r: Status)
    ensures
        r == status_of(
            match status {
                Some(s) => Some(s@),
                None => None,
            },
        ),
{
    match status {
        Some(v) => {
            let c = chars_of(v);
            let l = to_lower(c.as_slice());
            if contains_str(l.as_slice(), "ongoing") {
                Status::Ongoing
            } else if contains_str(l.as_slice(), "completed") {
                Status::Completed
            } else if contains_str(l.as_slice(), "hiatus") {
                Status::Hiatus
            } else {
                Status::Unknown
            }
        },
        None => Status::Unknown,
    }
}

/// A lowercase type or tag that marks a manga read as a vertical strip.
pub open spec fn webtoonish(value: Seq<char>) -> bool {
    contains(value, "manhwa"@) || contains(value, "manhua"@) || contains(value, "webtoon"@)
        || contains(value, "webcomic"@)
}

/// `value` names a kind of comic read as a vertical strip.
pub fn is_webtoonish(value: &str) -> (r: bool)
    ensures
        r == webtoonish(value@),
{
    let v = chars_of(value);
    contains_str(v.as_slice(), "manhwa") || contains_str(v.as_slice(), "manhua")
        || contains_str(v.as_slice(), "webtoon") || contains_str(v.as_slice(), "webcomic")
}

/// Some string of `tags`, in ASCII lowercase, satisfies the predicate.
pub open spec fn any_lower_webtoonish(tags: Seq<Seq<char>>) -> bool {
    exists|i: int| 0 <= i < tags.len() && webtoonish(lower(#[trigger] tags[i]))
}

/// The reading mode: a vertical strip when the type or one of the tags names
/// a webtoon-like kind, right to left otherwise.
pub open spec fn reader_of(type_value: Option<Seq<char>>, tags: Option<Seq<Seq<char>>>) -> Reader {
    if type_value matches Some(t) && webtoonish(lower(t)) {
        Reader::Webtoon
    } else if tags matches Some(ts) && any_lower_webtoonish(ts) {
        Reader::Webtoon
    } else {
        Reader::RightToLeft
    }
}

/// Some string of `tags`, in ASCII lowercase, names a webtoon-like kind.
fn tags_webtoonish(tags: &Vec<String>) -> (r: bool)
    ensures
        r == any_lower_webtoonish(strs_view(tags@)),
{
    for i in 0..tags.len()
        invariant
            forall|j: int| 0 <= j < i ==> !webtoonish(lower(#[trigger] strs_view(tags@)[j])),
    {
        let c = chars_of(tags[i].as_str());
        let l = to_lower(c.as_slice());
        let ls = string_of(l.as_slice());
        if is_webtoonish(ls.as_str()) {
            assert(strs_view(tags@)[i as int] == tags@[i as int]@);
            return true;
        }
    }
    false
}

/// The reading mode of a manga from its type and tags.
pub fn viewer_from_metadata(type_value: Option<&str>, tags: Option<&Vec<String>>) -> (r: Reader)
    ensures
        r == reader_of(
            match type_value {
                Some(t) => Some(t@),
                None => None,
            },
            match tags {
                Some(ts) => Some(strs_view(ts@)),
                None => None,
            },
        ),
{
    if let Some(t) = type_value {
        let c = chars_of(t);
        let l = to_lower(c.as_slice());
        let ls = string_of(l.as_slice());
        if is_webtoonish(ls.as_str()) {
            return Reader::Webtoon;
        }
    }
    if let Some(ts) = tags {
        if tags_webtoonish(ts) {
            return Reader::Webtoon;
        }
    }
    Reader::RightToLeft
}

/// A lowercase tag that marks suggestive content.
pub open spec fn suggestive_tag(tag: Seq<char>) -> bool {
    contains(tag, "ecchi"@) || contains(tag, "harem"@) || contains(tag, "mature"@) || contains(
        tag,
        "smut"@,
    ) || contains(tag, "yaoi"@) || contains(tag, "yuri"@)
}

/// Some tag, in ASCII lowercase, mentions a suggestive genre.
pub open spec fn any_suggestive(ts: Seq<Seq<char>>) -> bool {
    exists|i: int| 0 <= i < ts.len() && suggestive_tag(lower(#[trigger] ts[i]))
}

/// The content rating from the tags: suggestive when a tag, in ASCII
/// lowercase, mentions a suggestive genre; safe otherwise.
pub open spec fn rating_of(tags: Option<Seq<Seq<char>>>) -> Rating {
    match tags {
        Some(ts) => if any_suggestive(ts) {
            Rating::Suggestive
        } else {
            Rating::Safe
        },
        None => Rating::Safe,
    }
}

/// The content rating of a manga from its tags.
pub fn content_rating_from_tags(tags: Option<&Vec<String>>) -> (r: Rating)
    ensures
        r == rating_of(
            match tags {
                Some(ts) => Some(strs_view(ts@)),
                None => None,
            },
        ),
{
    let ts = match tags {
        Some(ts) => ts,
        None => {
            return Rating::Safe;
        },
    };
    for i in 0..ts.len()
        invariant
            tags == Some(ts),
            forall|j: int|
                0 <= j < i ==> !suggestive_tag(lower(#[trigger] strs_view(ts@)[j])),
    {
        let c = chars_of(ts[i].as_str());
        let l = to_lower(c.as_slice());
        assert(strs_view(ts@)[i as int] == ts@[i as int]@);
        if contains_str(l.as_slice(), "ecchi") || contains_str(l.as_slice(), "harem")
            || contains_str(l.as_slice(), "mature") || contains_str(l.as_slice(), "smut")
            || contains_str(l.as_slice(), "yaoi") || contains_str(l.as_slice(), "yuri") {
            assert(suggestive_tag(lower(strs_view(ts@)[i as int])));
            return Rating::Suggestive;
        }
    }
    Rating::Safe
}

// ---------------------------------------------------------------------------
// Manga cards of a listing page
// ---------------------------------------------------------------------------

/// What a listing card's `<img>` holds.
pub struct CardImage {
    pub alt: Option<String>,
    pub abs_data_src: Option<String>,
    pub abs_src: Option<String>,
    pub data_src: Option<String>,
    pub src: Option<String>,
}

/// What a listing card (a link to a manga) holds.
pub struct Card {
    /// The link's absolute `href`.
    pub url: Option<String>,
    /// The link's `title` attribute.
    pub title_attr: Option<String>,
    /// The text of the card's `.tt` element.
    pub title_text: Option<String>,
    /// The card's first `<img>`.
    pub image: Option<CardImage>,
    /// The `class` attribute of the card's `.type` badge.
    pub type_class: Option<String>,
}

/// A card's image, as text.
pub struct CardImageView {
    pub alt: Option<Seq<char>>,
    pub abs_data_src: Option<Seq<char>>,
    pub abs_src: Option<Seq<char>>,
    pub data_src: Option<Seq<char>>,
    pub src: Option<Seq<char>>,
}

impl View for CardImage {
    type V = CardImageView;

    open spec fn view(&self) -> CardImageView {
        CardImageView {
            alt: opt_view(self.alt),
            abs_data_src: opt_view(self.abs_data_src),
            abs_src: opt_view(self.abs_src),
            data_src: opt_view(self.data_src),
            src: opt_view(self.src),
        }
    }
}

/// A card, as text.
pub struct CardView {
    pub url: Option<Seq<char>>,
    pub title_attr: Option<Seq<char>>,
    pub title_text: Option<Seq<char>>,
    pub image: Option<CardImageView>,
    pub type_class: Option<Seq<char>>,
}

impl View for Card {
    type V = CardView;

    open spec fn view(&self) -> CardView {
        CardView {
            url: opt_view(self.url),
            title_attr: opt_view(self.title_attr),
            title_text: opt_view(self.title_text),
            image: match self.image {
                Some(i) => Some(i@),
                None => None,
            },
            type_class: opt_view(self.type_class),
        }
    }
}

/// The title of a card: the decoded `title` attribute, else the `.tt`
/// text, either of them cleaned, else the decoded `alt` of the image, else
/// a title made from the key.
pub open spec fn card_title(c: CardView, key: Seq<char>) -> Seq<char> {
    let from_attr = match c.title_attr {
        Some(v) => clean_text(decode_entities(v)),
        None => None,
    };
    let picked = if from_attr is Some {
        from_attr
    } else {
        c.title_text
    };
    let cleaned = match picked {
        Some(v) => clean_text(v),
        None => None,
    };
    let with_alt = if cleaned is Some {
        cleaned
    } else {
        match c.image {
            Some(img) => match img.alt {
                Some(a) => clean_text(decode_entities(a)),
                None => None,
            },
            None => None,
        }
    };
    match with_alt {
        Some(t) => t,
        None => key_title(key),
    }
}

/// The manga of a card, when the card links to a manga's page.
pub open spec fn card_manga(c: CardView) -> Option<MangaView> {
    match c.url {
        None => None,
        Some(url) => match manga_key(url) {
            None => None,
            Some(key) => {
                let cover = match c.image {
                    Some(img) => image_url_of(img.abs_data_src, img.abs_src, img.data_src, img.src),
                    None => None,
                };
                let kind = match c.type_class {
                    Some(class) => class_type(class),
                    None => None,
                };
                let tags = match kind {
                    Some(k) => Some(seq![k]),
                    None => None,
                };
                Some(
                    MangaView {
                        key: key,
                        title: card_title(c, key),
                        cover: cover,
                        authors: None,
                        artists: None,
                        description: None,
                        url: Some(url),
                        tags: tags,
                        status: Status::Unknown,
                        rating: Rating::Safe,
                        reader: reader_of(kind, tags),
                        chapters: None,
                    },
                )
            },
        },
    }
}

/// The keys of the mangas.
pub open spec fn keys_of(ms: Seq<MangaView>) -> Seq<Seq<char>> {
    ms.map_values(|m: MangaView| m.key)
}

/// The mangas of the cards, in order, each key kept at its first card only.
pub open spec fn cards_mangas(cards: Seq<CardView>) -> Seq<MangaView>
    decreases cards.len(),
{
    if cards.len() == 0 {
        Seq::empty()
    } else {
        let prev = cards_mangas(cards.drop_last());
        match card_manga(cards.last()) {
            Some(m) => if keys_of(prev).contains(m.key) {
                prev
            } else {
                prev.push(m)
            },
            None => prev,
        }
    }
}

/// The cards, as text.
pub open spec fn cards_view(cards: Seq<Card>) -> Seq<CardView> {
    cards.map_values(|c: Card| c@)
}

fn clean_decoded(value: &Option<String>) -> (r: Option<String>)
    ensures
        opt_view(r) == match opt_view(*value) {
            Some(v) => clean_text(decode_entities(v)),
            None => None,
        },
{
    match value {
        Some(v) => {
            let d = decode_html_entities(v.as_str());
            non_empty_text(d.as_str())
        },
        None => None,
    }
}

fn clone_opt(o: &Option<String>) -> (r: Option<String>)
    ensures
        opt_view(r) == opt_view(*o),
{
    match o {
        Some(s) => Some(s.clone()),
        None => None,
    }
}

/// The manga that a listing card links to.
pub fn manga_from_card(card: &Card) -> (r: Option<MangaEntry>)
    ensures
        match r {
            Some(m) => card_manga(card@) == Some(m@),
            None => card_manga(card@) is None,
        },
        r matches Some(m) ==> m@.title.len() > 0,
{
    let url = match &card.url {
        Some(url) => url.clone(),
        None => {
            return None;
        },
    };
    let key = match manga_key_from_url(url.as_str()) {
        Some(key) => key,
        None => {
            return None;
        },
    };
    let from_attr = clean_decoded(&card.title_attr);
    let picked = if from_attr.is_some() {
        from_attr
    } else {
        clone_opt(&card.title_text)
    };
    let cleaned = match picked {
        Some(v) => non_empty_text(v.as_str()),
        None => None,
    };
    let with_alt = if cleaned.is_some() {
        cleaned
    } else {
        match &card.image {
            Some(img) => clean_decoded(&img.alt),
            None => None,
        }
    };
    let title = match with_alt {
        Some(t) => t,
        None => key_to_title(key.as_str()),
    };
    let cover = match &card.image {
        Some(img) => image_url(
            clone_opt(&img.abs_data_src),
            clone_opt(&img.abs_src),
            clone_opt(&img.data_src),
            clone_opt(&img.src),
        ),
        None => None,
    };
    let kind = match &card.type_class {
        Some(class) => type_from_class(class.as_str()),
        None => None,
    };
    let tags = match &kind {
        Some(k) => {
            let v = vec![k.clone()];
            assert(strs_view(v@) =~= seq![k@]);
            Some(v)
        },
        None => None,
    };
    let reader = viewer_from_metadata(
        match &kind {
            Some(k) => Some(k.as_str()),
            None => None,
        },
        match &tags {
            Some(t) => Some(t),
            None => None,
        },
    );
    Some(
        MangaEntry {
            key,
            title,
            cover,
            authors: None,
            artists: None,
            description: None,
            url: Some(url),
            tags,
            status: Status::Unknown,
            rating: Rating::Safe,
            reader,
            chapters: None,
        },
    )
}

/// Some manga of `entries` has the key `key`.
fn has_key(entries: &Vec<MangaEntry>, key: &String) -> (r: bool)
    ensures
        r == keys_of(mangas_view(entries@)).contains(key@),
{
    for i in 0..entries.len()
        invariant
            forall|j: int| 0 <= j < i ==> entries@[j].key@ != key@,
    {
        if entries[i].key == *key {
            assert(keys_of(mangas_view(entries@))[i as int] == key@);
            return true;
        }
    }
    assert(!keys_of(mangas_view(entries@)).contains(key@)) by {
        if keys_of(mangas_view(entries@)).contains(key@) {
            let j = choose|j: int|
                0 <= j < keys_of(mangas_view(entries@)).len() && keys_of(mangas_view(entries@))[j]
                    == key@;
            assert(entries@[j].key@ == key@);
        }
    }
    false
}

/// Adds `manga` to `entries` unless a manga with its key is there already.
pub fn push_unique_manga(entries: &mut Vec<MangaEntry>, manga: MangaEntry)
    ensures
        mangas_view(final(entries)@) == if keys_of(mangas_view(old(entries)@)).contains(
            manga.key@,
        ) {
            mangas_view(old(entries)@)
        } else {
            mangas_view(old(entries)@).push(manga@)
        },
{
    if !has_key(entries, &manga.key) {
        let ghost before = entries@;
        let ghost m = manga@;
        entries.push(manga);
        assert(mangas_view(entries@) =~= mangas_view(before).push(m));
    }
}

/// The mangas of the cards of a listing page, without repeated keys.
pub fn parse_manga_cards(cards: &Vec<Card>) -> (r: Vec<MangaEntry>)
    ensures
        mangas_view(r@) == cards_mangas(cards_view(cards@)),
        forall|j: int| 0 <= j < r@.len() ==> (#[trigger] r@[j])@.title.len() > 0,
{
    let mut entries: Vec<MangaEntry> = Vec::new();
    for i in 0..cards.len()
        invariant
            mangas_view(entries@) == cards_mangas(cards_view(cards@.take(i as int))),
            forall|j: int|
                0 <= j < mangas_view(entries@).len() ==> (#[trigger] mangas_view(entries@)[j]).title.len()
                    > 0,
    {
        let ghost t = cards_view(cards@.take(i + 1));
        assert(t.drop_last() =~= cards_view(cards@.take(i as int)));
        assert(t.last() == cards@[i as int]@);
        if let Some(m) = manga_from_card(&cards[i]) {
            push_unique_manga(&mut entries, m);
        }
    }
    assert(cards@.take(cards@.len() as int) =~= cards@);
    assert forall|j: int| 0 <= j < entries@.len() implies (#[trigger] entries@[j])@.title.len() > 0 by {
        assert(mangas_view(entries@)[j] == entries@[j]@);
    }
    entries
}

/// No two mangas that `parse_manga_cards` gives have the same key.
pub proof fn law_cards_unique_keys(cards: Seq<CardView>)
    ensures
        keys_of(cards_mangas(cards)).no_duplicates(),
    decreases cards.len(),
{
    if cards.len() > 0 {
        law_cards_unique_keys(cards.drop_last());
        let prev = cards_mangas(cards.drop_last());
        if let Some(m) = card_manga(cards.last()) {
            if !keys_of(prev).contains(m.key) {
                assert(keys_of(prev.push(m)) =~= keys_of(prev).push(m.key));
            }
        }
    }
}

// ---------------------------------------------------------------------------
// Chapters
// ---------------------------------------------------------------------------

/// One character of input to the reader of a chapter number: digits are
/// taken, and once a digit has been read a `.` or `,` is taken as `.`;
/// reading stops at any other character after the first digit.
pub open spec fn number_step(st: (Seq<char>, bool, bool), c: char) -> (Seq<char>, bool, bool) {
    let (text, started, stopped) = st;
    if stopped {
        st
    } else if is_digit(c) {
        (text.push(c), true, false)
    } else if started && (c == '.' || c == ',') {
        (text.push('.'), true, false)
    } else if started {
        (text, true, true)
    } else {
        st
    }
}

/// The state of the reader of a chapter number after `s`: the text read,
/// whether a digit was read, whether reading stopped.
pub open spec fn number_state(s: Seq<char>) -> (Seq<char>, bool, bool)
    decreases s.len(),
{
    if s.len() == 0 {
        (Seq::empty(), false, false)
    } else {
        number_step(number_state(s.drop_last()), s.last())
    }
}

/// The text of the first number in a chapter label, with `,` read as `.`
/// (`Chapitre 12,5 - Titre` gives `12.5`); empty when there is no digit.
pub fn chapter_number_text(value: &str) -> (r: String)
    ensures
        r@ == number_state(value@).0,
{
    let v = chars_of(value);
    let mut text: Vec<char> = Vec::new();
    let mut started = false;
    let mut i: usize = 0;
    while i < v.len()
        invariant
            v@ == value@,
            i <= v@.len(),
            number_state(v@.take(i as int)) == (text@, started, false),
        decreases v.len() - i,
    {
        let c = v[i];
        assert(v@.take(i + 1).drop_last() =~= v@.take(i as int));
        if '0' <= c && c <= '9' {
            started = true;
            text.push(c);
        } else if started && (c == '.' || c == ',') {
            text.push('.');
        } else if started {
            // reading stops: the rest of the label changes nothing
            assert(number_state(v@.take(i + 1)) == (text@, true, true));
            proof {
                lemma_number_stopped(v@, i + 1);
            }
            return string_of(text.as_slice());
        }
        i = i + 1;
    }
    assert(v@.take(v@.len() as int) =~= v@);
    string_of(text.as_slice())
}

proof fn lemma_number_stopped(s: Seq<char>, k: int)
    requires
        0 <= k <= s.len(),
        number_state(s.take(k)).2,
    ensures
        number_state(s) == number_state(s.take(k)),
    decreases s.len() - k,
{
    if k < s.len() {
        assert(s.drop_last().take(k) =~= s.take(k));
        lemma_number_stopped(s.drop_last(), k);
        lemma_number_stays_stopped(s.drop_last(), k);
    } else {
        assert(s.take(k) =~= s);
    }
}

proof fn lemma_number_stays_stopped(s: Seq<char>, k: int)
    requires
        0 <= k <= s.len(),
        number_state(s.take(k)).2,
    ensures
        number_state(s).2,
    decreases s.len() - k,
{
    if k < s.len() {
        assert(s.drop_last().take(k) =~= s.take(k));
        lemma_number_stays_stopped(s.drop_last(), k);
    } else {
        assert(s.take(k) =~= s);
    }
}

/// The text of a number as `f32` shows it, without a trailing `.0`.
pub open spec fn number_without_zero(value: Seq<char>) -> Seq<char> {
    if has_suffix(value, ".0"@) {
        value.take(value.len() - 2)
    } else {
        value
    }
}

/// Removes a trailing `.0` from the text of a number.
pub fn trim_number_suffix(value: &str) -> (r: String)
    ensures
        r@ == number_without_zero(value@),
{
    let v = chars_of(value);
    let suffix = chars_of(".0");
    proof {
        reveal_strlit(".0");
    }
    if crate::text::ends_with(v.as_slice(), suffix.as_slice()) {
        let t = slice_copy(v.as_slice(), 0, v.len() - 2);
        string_of(t.as_slice())
    } else {
        string_of(v.as_slice())
    }
}

/// `s` without its prefix `p` and then trimmed, when `s` starts with `p`.
pub open spec fn after_prefix(s: Seq<char>, p: Seq<char>) -> Seq<char> {
    if has_prefix(s, p) {
        trim(s.skip(p.len() as int))
    } else {
        s
    }
}

/// The title of a chapter from its label, given the text of its number: the
/// trimmed label without a leading `Chapter` or `Chapitre`, then without the
/// number, cleaned; none when the label does not go on with the number.
/// Without a number, the cleaned label.
pub open spec fn chapter_title_of(label: Seq<char>, number: Option<Seq<char>>) -> Option<
    Seq<char>,
> {
    match number {
        None => clean_text(label),
        Some(n) => {
            let l = trim(label);
            let l = if has_prefix(l, "Chapter"@) {
                trim(l.skip(7))
            } else if has_prefix(l, "Chapitre"@) {
                trim(l.skip(8))
            } else {
                l
            };
            let nt = number_without_zero(n);
            if has_prefix(l, nt) {
                clean_text(trim(l.skip(nt.len() as int)))
            } else {
                None
            }
        },
    }
}

/// The title of a chapter from its label; `number` is the chapter number
/// as `f32` writes it.
pub fn chapter_title(label: &str, number: Option<&str>) -> (r: Option<String>)
    ensures
        opt_view(r) == chapter_title_of(
            label@,
            match number {
                Some(n) => Some(n@),
                None => None,
            },
        ),
{
    let n = match number {
        Some(n) => n,
        None => {
            return non_empty_text(label);
        },
    };
    let lv = chars_of(label);
    let mut l = trim_chars(lv.as_slice());
    proof {
        reveal_strlit("Chapter");
        reveal_strlit("Chapitre");
    }
    if starts_with_str(l.as_slice(), "Chapter") {
        let rest = slice_copy(l.as_slice(), 7, l.len());
        assert(rest@ =~= l@.skip(7));
        l = trim_chars(rest.as_slice());
    } else if starts_with_str(l.as_slice(), "Chapitre") {
        let rest = slice_copy(l.as_slice(), 8, l.len());
        assert(rest@ =~= l@.skip(8));
        l = trim_chars(rest.as_slice());
    }
    let nt = trim_number_suffix(n);
    let ntv = chars_of(nt.as_str());
    if crate::text::starts_with(l.as_slice(), ntv.as_slice()) {
        let rest = slice_copy(l.as_slice(), ntv.len(), l.len());
        assert(rest@ =~= l@.skip(ntv@.len() as int));
        let t = trim_chars(rest.as_slice());
        let t = string_of(t.as_slice());
        non_empty_text(t.as_str())
    } else {
        None
    }
}

/// The number of an English month name.
pub open spec fn month_of(name: Seq<char>) -> Option<int> {
    if name == "January"@ {
        Some(1)
    } else if name == "February"@ {
        Some(2)
    } else if name == "March"@ {
        Some(3)
    } else if name == "April"@ {
        Some(4)
    } else if name == "May"@ {
        Some(5)
    } else if name == "June"@ {
        Some(6)
    } else if name == "July"@ {
        Some(7)
    } else if name == "August"@ {
        Some(8)
    } else if name == "September"@ {
        Some(9)
    } else if name == "October"@ {
        Some(10)
    } else if name == "November"@ {
        Some(11)
    } else if name == "December"@ {
        Some(12)
    } else {
        None
    }
}

/// The number of an English month name.
pub fn month_number(value: &str) -> (r: Option<i64>)
    ensures
        r matches Some(m) ==> month_of(value@) == Some(m as int),
        r is None ==> month_of(value@) is None,
{
    let v = chars_of(value);
    let v = v.as_slice();
    if literal_is(v, "January") {
        Some(1)
    } else if literal_is(v, "February") {
        Some(2)
    } else if literal_is(v, "March") {
        Some(3)
    } else if literal_is(v, "April") {
        Some(4)
    } else if literal_is(v, "May") {
        Some(5)
    } else if literal_is(v, "June") {
        Some(6)
    } else if literal_is(v, "July") {
        Some(7)
    } else if literal_is(v, "August") {
        Some(8)
    } else if literal_is(v, "September") {
        Some(9)
    } else if literal_is(v, "October") {
        Some(10)
    } else if literal_is(v, "November") {
        Some(11)
    } else if literal_is(v, "December") {
        Some(12)
    } else {
        None
    }
}

/// Month, day and year of a date written `Month day, year`: the commas are
/// removed, then the first three words are the month's English name and
/// two integers.
pub open spec fn english_date_fields(value: Seq<char>) -> Option<(int, int, int)> {
    let parts = words(replace(value, ","@, ""@));
    if parts.len() < 1 {
        None
    } else {
        match month_of(parts[0]) {
            None => None,
            Some(month) => if parts.len() < 2 {
                None
            } else {
                match parse_i64_text(parts[1]) {
                    None => None,
                    Some(day) => if parts.len() < 3 {
                        None
                    } else {
                        match parse_i64_text(parts[2]) {
                            None => None,
                            Some(year) => Some((month, day, year)),
                        }
                    },
                }
            },
        }
    }
}

/// The time of the date, when it reads as one, is computed in `i64`
/// arithmetic without overflow: its day count, and that count times 86400.
pub open spec fn english_date_fits(value: Seq<char>) -> bool {
    english_date_fields(value) matches Some(f) ==> {
        &&& civil_fits(f.2, f.0, f.1)
        &&& (days_from_civil_spec(f.2, f.0, f.1) matches Some(days) ==> i64::MIN <= days
            * 86400 <= i64::MAX)
    }
}

/// The time, in seconds since 1970-01-01 00:00, of the start of the day of a
/// date written `Month day, year`.
pub open spec fn english_date(value: Seq<char>) -> Option<int> {
    match english_date_fields(value) {
        None => None,
        Some((month, day, year)) => match days_from_civil_spec(year, month, day) {
            Some(days) => Some(days * 86400),
            None => None,
        },
    }
}

/// The fields of a date written `Month day, year`.
fn english_date_parts(value: &str) -> (r: Option<(i64, i64, i64)>)
    ensures
        r matches Some(f) ==> english_date_fields(value@) == Some(
            (f.0 as int, f.1 as int, f.2 as int),
        ),
        r is None ==> english_date_fields(value@) is None,
{
    let v = chars_of(value);
    let cleaned = replace_str(v.as_slice(), ",", "");
    let parts = words_exec(cleaned.as_slice());
    if parts.len() < 1 {
        return None;
    }
    let first = string_of(parts[0].as_slice());
    let month = match month_number(first.as_str()) {
        Some(m) => m,
        None => {
            return None;
        },
    };
    if parts.len() < 2 {
        return None;
    }
    let day = match parse_i64_chars(parts[1].as_slice()) {
        Some(d) => d,
        None => {
            return None;
        },
    };
    if parts.len() < 3 {
        return None;
    }
    let year = match parse_i64_chars(parts[2].as_slice()) {
        Some(y) => y,
        None => {
            return None;
        },
    };
    Some((month, day, year))
}

/// Whether `parse_english_date` can take `value`: the time of its date,
/// when it reads as one, fits in an `i64`.
pub fn english_date_in_range(value: &str) -> (r: bool)
    ensures
        r == english_date_fits(value@),
{
    match english_date_parts(value) {
        Some((month, day, year)) => {
            if !civil_in_range(year, month, day) {
                return false;
            }
            match days_from_civil(year, month, day) {
                Some(days) => {
                    let t: i128 = days as i128 * 86400;
                    i64::MIN as i128 <= t && t <= i64::MAX as i128
                },
                None => true,
            }
        },
        None => true,
    }
}

/// The upload time of a chapter dated `Month day, year`, in seconds since
/// 1970-01-01 00:00 UTC.
pub fn parse_english_date(value: &str) -> (r: Option<i64>)
    requires
        english_date_fits(value@),
    ensures
        r matches Some(t) ==> english_date(value@) == Some(t as int),
        r is None ==> english_date(value@) is None,
{
    let (month, day, year) = match english_date_parts(value) {
        Some(f) => f,
        None => {
            return None;
        },
    };
    let days = match days_from_civil(year, month, day) {
        Some(d) => d,
        None => {
            return None;
        },
    };
    Some(days * 86_400)
}

/// What a row of a manga page's chapter list holds.
pub struct ChapterRow {
    /// The absolute `href` of the row's link.
    pub url: Option<String>,
    /// The text of the link's `.chapternum`.
    pub label: Option<String>,
    /// The text of the link's `.chapterdate`.
    pub date: Option<String>,
    /// The chapter number read from the label's number text, as `f32`
    /// writes it; none when that text is not a number.
    pub number_display: Option<String>,
}

/// A chapter row, as text.
pub struct ChapterRowView {
    pub url: Option<Seq<char>>,
    pub label: Option<Seq<char>>,
    pub date: Option<Seq<char>>,
    pub number_display: Option<Seq<char>>,
}

impl View for ChapterRow {
    type V = ChapterRowView;

    open spec fn view(&self) -> ChapterRowView {
        ChapterRowView {
            url: opt_view(self.url),
            label: opt_view(self.label),
            date: opt_view(self.date),
            number_display: opt_view(self.number_display),
        }
    }
}

/// The chapter of a row, when its link is a chapter's: the key from the
/// URL, the cleaned label's number text and title, the date.
pub open spec fn row_chapter(row: ChapterRowView) -> Option<ChapterView> {
    match row.url {
        None => None,
        Some(url) => match chapter_key(url) {
            None => None,
            Some(key) => {
                let label = match row.label {
                    Some(l) => clean_text(l),
                    None => None,
                };
                Some(
                    ChapterView {
                        key: key,
                        title: match label {
                            Some(l) => chapter_title_of(l, row.number_display),
                            None => None,
                        },
                        number_text: match label {
                            Some(l) => Some(number_state(l).0),
                            None => None,
                        },
                        volume_text: None,
                        date_uploaded: match row.date {
                            Some(d) => english_date(d),
                            None => None,
                        },
                        scanlators: None,
                        url: Some(url),
                        language: Some("fr"@),
                    },
                )
            },
        },
    }
}

/// The rows of a list, as text.
pub open spec fn rows_view(rows: Seq<ChapterRow>) -> Seq<ChapterRowView> {
    rows.map_values(|r: ChapterRow| r@)
}

/// The chapters of the rows that are chapters', in order.
pub open spec fn rows_chapters(rows: Seq<ChapterRowView>) -> Seq<ChapterView>
    decreases rows.len(),
{
    if rows.len() == 0 {
        Seq::empty()
    } else {
        let prev = rows_chapters(rows.drop_last());
        match row_chapter(rows.last()) {
            Some(c) => prev.push(c),
            None => prev,
        }
    }
}

/// The row gives a chapter: its link has an address that names a chapter.
pub open spec fn row_has_chapter(row: ChapterRowView) -> bool {
    row.url matches Some(u) && chapter_key(u) is Some
}

/// The row's date, when the row gives a chapter and has a date, can be
/// converted; the dates of other rows are never read.
pub open spec fn row_date_fits(row: ChapterRowView) -> bool {
    row_has_chapter(row) ==> (row.date matches Some(d) ==> english_date_fits(d))
}

/// Whether `chapter_from_row` can take `row`: the row gives no chapter, or
/// has no date, or its date converts.
pub fn row_date_in_range(row: &ChapterRow) -> (r: bool)
    ensures
        r == row_date_fits(row@),
{
    let url = match &row.url {
        Some(u) => u,
        None => {
            return true;
        },
    };
    if chapter_key_from_url(url.as_str()).is_none() {
        return true;
    }
    match &row.date {
        Some(d) => english_date_in_range(d.as_str()),
        None => true,
    }
}

/// The chapter of a row of a manga page's chapter list.
pub fn chapter_from_row(row: &ChapterRow) -> (r: Option<ChapterEntry>)
    requires
        row_date_fits(row@),
    ensures
        match r {
            Some(c) => row_chapter(row@) == Some(c@),
            None => row_chapter(row@) is None,
        },
{
    let url = match &row.url {
        Some(u) => u.clone(),
        None => {
            return None;
        },
    };
    let key = match chapter_key_from_url(url.as_str()) {
        Some(k) => k,
        None => {
            return None;
        },
    };
    let label = match &row.label {
        Some(l) => non_empty_text(l.as_str()),
        None => None,
    };
    let number_display = match &row.number_display {
        Some(n) => Some(n.as_str()),
        None => None,
    };
    let title = match &label {
        Some(l) => chapter_title(l.as_str(), number_display),
        None => None,
    };
    let number_text = match &label {
        Some(l) => Some(chapter_number_text(l.as_str())),
        None => None,
    };
    let date_uploaded = match &row.date {
        Some(d) => parse_english_date(d.as_str()),
        None => None,
    };
    let r = ChapterEntry {
        key,
        title,
        number_text,
        volume_text: None,
        date_uploaded,
        scanlators: None,
        url: Some(url),
        language: Some("fr".to_owned()),
    };
    Some(r)
}

/// The chapters of a manga page's chapter list, in the list's order.
pub fn fetch_chapters(rows: &Vec<ChapterRow>) -> (r: Vec<ChapterEntry>)
    requires
        forall|i: int| 0 <= i < rows@.len() ==> row_date_fits(#[trigger] rows@[i]@),
    ensures
        chapters_view(r@) == rows_chapters(rows_view(rows@)),
{
    let mut chapters: Vec<ChapterEntry> = Vec::new();
    for i in 0..rows.len()
        invariant
            forall|i: int| 0 <= i < rows@.len() ==> row_date_fits(#[trigger] rows@[i]@),
            chapters_view(chapters@) == rows_chapters(rows_view(rows@.take(i as int))),
    {
        let ghost t = rows_view(rows@.take(i + 1));
        assert(t.drop_last() =~= rows_view(rows@.take(i as int)));
        assert(t.last() == rows@[i as int]@);
        if let Some(c) = chapter_from_row(&rows[i]) {
            let ghost before = chapters@;
            let ghost cv = c@;
            chapters.push(c);
            assert(chapters_view(chapters@) =~= chapters_view(before).push(cv));
        }
    }
    assert(rows@.take(rows@.len() as int) =~= rows@);
    chapters
}

// ---------------------------------------------------------------------------
// Search and listings
// ---------------------------------------------------------------------------

/// The parameter of one value of the filter `id`: `genre[]` for genres,
/// the filter's own name for status, type and order, none for the others.
pub open spec fn filter_param(id: Seq<char>, value: Seq<char>) -> Seq<ParamView> {
    if id == "genre"@ {
        query_param("genre[]"@, value)
    } else if id == "status"@ || id == "type"@ || id == "order"@ {
        query_param(id, value)
    } else {
        Seq::empty()
    }
}

/// The parameters of the values of the filter `id`, in order.
pub open spec fn values_params(id: Seq<char>, values: Seq<Seq<char>>) -> Seq<ParamView>
    decreases values.len(),
{
    if values.len() == 0 {
        Seq::empty()
    } else {
        values_params(id, values.drop_last()) + filter_param(id, values.last())
    }
}

/// The parameters of the filters, in order.
pub open spec fn filters_params(fs: Seq<FilterView>) -> Seq<ParamView>
    decreases fs.len(),
{
    if fs.len() == 0 {
        Seq::empty()
    } else {
        filters_params(fs.drop_last()) + match fs.last() {
            FilterView::Select { id, value } => filter_param(id, value),
            FilterView::MultiSelect { id, included } => values_params(id, included),
            FilterView::Other => Seq::empty(),
        }
    }
}

/// The `page` parameter, for pages after the first.
pub open spec fn page_param(page: int) -> Seq<ParamView> {
    if page > 1 {
        query_param("page"@, decimal(page))
    } else {
        Seq::empty()
    }
}

/// The parameters of a search, and whether it is a text search (made on
/// the site's root) rather than a browse of `/manga`. A query that is not
/// blank gives a text search with `s` and the page; otherwise the filters,
/// the forced order and the page. Pages below 1 count as 1.
pub open spec fn search_query(
    query: Option<Seq<char>>,
    page: int,
    filters: Seq<FilterView>,
    order: Option<Seq<char>>,
) -> (Seq<ParamView>, bool) {
    let page = if page < 1 {
        1
    } else {
        page
    };
    let text = match query {
        Some(q) => if trim(q).len() > 0 {
            Some(q)
        } else {
            None
        },
        None => None,
    };
    match text {
        Some(q) => (query_param("s"@, q) + page_param(page), true),
        None => (
            filters_params(filters) + match order {
                Some(o) => query_param("order"@, o),
                None => Seq::empty(),
            } + page_param(page),
            false,
        ),
    }
}

/// Adds the parameter of one value of the filter `id`.
pub fn push_filter_param(params: &mut Vec<QueryParam>, id: &str, value: &str)
    ensures
        params_view(final(params)@) == params_view(old(params)@) + filter_param(id@, value@),
{
    let i = chars_of(id);
    if literal_is(i.as_slice(), "genre") {
        push_query_param(params, "genre[]", value);
    } else if literal_is(i.as_slice(), "status") || literal_is(i.as_slice(), "type")
        || literal_is(i.as_slice(), "order") {
        push_query_param(params, id, value);
    } else {
        assert(params_view(params@) =~= params_view(params@) + Seq::<ParamView>::empty());
    }
}

/// Adds the parameter of `page` when it is after the first.
fn push_page_param(params: &mut Vec<QueryParam>, page: i32)
    ensures
        params_view(final(params)@) == params_view(old(params)@) + page_param(page as int),
{
    if page > 1 {
        let d = decimal_exec(page as i64);
        let ds = string_of(d.as_slice());
        push_query_param(params, "page", ds.as_str());
    } else {
        assert(params_view(params@) =~= params_view(params@) + Seq::<ParamView>::empty());
    }
}

/// Adds the parameters of the filters.
pub fn push_filters_params(params: &mut Vec<QueryParam>, filters: &Vec<Filter>)
    ensures
        params_view(final(params)@) == params_view(old(params)@) + filters_params(
            filters_view(filters@),
        ),
{
    let ghost start = params_view(params@);
    for i in 0..filters.len()
        invariant
            params_view(params@) == start + filters_params(filters_view(filters@.take(i as int))),
    {
        let ghost t = filters_view(filters@.take(i + 1));
        assert(t.drop_last() =~= filters_view(filters@.take(i as int)));
        assert(t.last() == filters@[i as int]@);
        let ghost mid = params_view(params@);
        match &filters[i] {
            Filter::Select { id, value } => {
                push_filter_param(params, id.as_str(), value.as_str());
            },
            Filter::MultiSelect { id, included } => {
                let ghost vs = strs_view(included@);
                for j in 0..included.len()
                    invariant
                        params_view(params@) == mid + values_params(id@, strs_view(included@.take(j as int))),
                {
                    let ghost u = strs_view(included@.take(j + 1));
                    assert(u.drop_last() =~= strs_view(included@.take(j as int)));
                    assert(u.last() == included@[j as int]@);
                    push_filter_param(params, id.as_str(), included[j].as_str());
                }
                assert(included@.take(included@.len() as int) =~= included@);
            },
            Filter::Other => {},
        }
        assert(params_view(params@) =~= start + filters_params(t));
    }
    assert(filters@.take(filters@.len() as int) =~= filters@);
}

/// The parameters of a search and whether it is a text search.
pub fn search_params(
    query: Option<String>,
    page: i32,
    filters: &Vec<Filter>,
    forced_order: Option<&str>,
) -> (r: (Vec<QueryParam>, bool))
    ensures
        (params_view(r.0@), r.1) == search_query(
            opt_view(query),
            page as int,
            filters_view(filters@),
            match forced_order {
                Some(o) => Some(o@),
                None => None,
            },
        ),
{
    let page = if page < 1 {
        1
    } else {
        page
    };
    let mut params: Vec<QueryParam> = Vec::new();
    if let Some(q) = &query {
        let t = trim_str(q.as_str());
        if t.len() > 0 {
            push_query_param(&mut params, "s", q.as_str());
            push_page_param(&mut params, page);
            return (params, true);
        }
    }
    push_filters_params(&mut params, filters);
    if let Some(order) = forced_order {
        push_query_param(&mut params, "order", order);
    } else {
        assert(params_view(params@) =~= params_view(params@) + Seq::<ParamView>::empty());
    }
    push_page_param(&mut params, page);
    (params, false)
}

/// The address of a search from its written parameters: on the site's root
/// for a text search, on `/manga` otherwise.
pub open spec fn search_address(rendered: Seq<Seq<char>>, by_query: bool) -> Seq<char> {
    if by_query {
        BASE_URL@ + "?"@ + join(rendered, "&"@)
    } else {
        with_query(BASE_URL@ + "/manga"@, rendered)
    }
}

/// The address of a search from its parameters written as `key=value`.
pub fn search_url(rendered: &Vec<String>, by_query: bool) -> (r: String)
    ensures
        r@ == search_address(strs_view(rendered@), by_query),
{
    if by_query {
        let mut out = chars_of(BASE_URL);
        append_str(&mut out, "?");
        let j = join_exec(rendered, "&");
        append(&mut out, j.as_slice());
        string_of(out.as_slice())
    } else {
        let mut path = chars_of(BASE_URL);
        append_str(&mut path, "/manga");
        let path = string_of(path.as_slice());
        url_with_query(path.as_str(), rendered)
    }
}

/// The sort order of a listing: `popular` by popularity, `new` by date of
/// addition, `latest` by update; none for other listings.
pub open spec fn listing_order_of(id: Seq<char>) -> Option<Seq<char>> {
    if id == "popular"@ {
        Some("popular"@)
    } else if id == "new"@ {
        Some("latest"@)
    } else if id == "latest"@ {
        Some("update"@)
    } else {
        None
    }
}

/// The sort order of the listing `id`.
pub fn listing_order(id: &str) -> (r: Option<&'static str>)
    ensures
        match r {
            Some(o) => listing_order_of(id@) == Some(o@),
            None => listing_order_of(id@) is None,
        },
{
    let i = chars_of(id);
    if literal_is(i.as_slice(), "popular") {
        Some("popular")
    } else if literal_is(i.as_slice(), "new") {
        Some("latest")
    } else if literal_is(i.as_slice(), "latest") {
        Some("update")
    } else {
        None
    }
}

// ---------------------------------------------------------------------------
// Manga page
// ---------------------------------------------------------------------------

/// What a manga's page holds.
pub struct DetailsPage {
    /// The text of `h1.entry-title`.
    pub title: Option<String>,
    /// The image of `.thumb img`.
    pub cover: Option<CardImage>,
    /// The text of the description.
    pub description: Option<String>,
    /// The texts of the genre links (`.mgen a`).
    pub tag_texts: Vec<Option<String>>,
    /// The texts of the metadata rows (`.imptdt`).
    pub metadata_rows: Vec<Option<String>>,
}

/// The details of a manga read from its page.
pub struct Details {
    /// The new title, when the page has one.
    pub title: Option<String>,
    pub cover: Option<String>,
    pub description: Option<String>,
    pub tags: Option<Vec<String>>,
    pub status: Status,
    pub url: String,
    pub rating: Rating,
    pub reader: Reader,
}

/// The details, as text.
pub struct DetailsView {
    pub title: Option<Seq<char>>,
    pub cover: Option<Seq<char>>,
    pub description: Option<Seq<char>>,
    pub tags: Option<Seq<Seq<char>>>,
    pub status: Status,
    pub url: Seq<char>,
    pub rating: Rating,
    pub reader: Reader,
}

impl View for Details {
    type V = DetailsView;

    open spec fn view(&self) -> DetailsView {
        DetailsView {
            title: opt_view(self.title),
            cover: opt_view(self.cover),
            description: opt_view(self.description),
            tags: opt_strs_view(self.tags),
            status: self.status,
            url: self.url@,
            rating: self.rating,
            reader: self.reader,
        }
    }
}

/// The details of the manga `key` from what its page holds: the cleaned
/// title and description, the cover, the tags, the status and type rows,
/// and from them the rating and reading mode.
pub open spec fn page_details(
    key: Seq<char>,
    title: Option<Seq<char>>,
    cover: Option<CardImageView>,
    description: Option<Seq<char>>,
    tag_texts: Seq<Option<Seq<char>>>,
    rows: Seq<Option<Seq<char>>>,
) -> DetailsView {
    let tags = page_tags(tag_texts);
    DetailsView {
        title: match title {
            Some(t) => clean_text(t),
            None => None,
        },
        cover: match cover {
            Some(img) => image_url_of(img.abs_data_src, img.abs_src, img.data_src, img.src),
            None => None,
        },
        description: match description {
            Some(d) => clean_text(d),
            None => None,
        },
        tags: tags,
        status: status_of(metadata_from(rows, "Status"@)),
        url: manga_page(key),
        rating: rating_of(tags),
        reader: reader_of(metadata_from(rows, "Type"@), tags),
    }
}

/// The details of the manga `key` read from its page.
pub fn manga_details(key: &str, page: &DetailsPage) -> (r: Details)
    ensures
        r@ == page_details(
            key@,
            opt_view(page.title),
            match page.cover {
                Some(i) => Some(i@),
                None => None,
            },
            opt_view(page.description),
            opts_view(page.tag_texts@),
            opts_view(page.metadata_rows@),
        ),
{
    let title = match &page.title {
        Some(t) => non_empty_text(t.as_str()),
        None => None,
    };
    let cover = match &page.cover {
        Some(img) => image_url(
            clone_opt(&img.abs_data_src),
            clone_opt(&img.abs_src),
            clone_opt(&img.data_src),
            clone_opt(&img.src),
        ),
        None => None,
    };
    let description = match &page.description {
        Some(d) => non_empty_text(d.as_str()),
        None => None,
    };
    let tags = parse_tags(&page.tag_texts);
    let status_row = metadata_value(&page.metadata_rows, "Status");
    let status = manga_status(
        match &status_row {
            Some(s) => Some(s.as_str()),
            None => None,
        },
    );
    let type_row = metadata_value(&page.metadata_rows, "Type");
    let tags_ref = match &tags {
        Some(t) => Some(t),
        None => None,
    };
    let rating = content_rating_from_tags(tags_ref);
    let reader = viewer_from_metadata(
        match &type_row {
            Some(t) => Some(t.as_str()),
            None => None,
        },
        tags_ref,
    );
    Details {
        title,
        cover,
        description,
        tags,
        status,
        url: manga_url(key),
        rating,
        reader,
    }
}

/// `m` updated with the details of its page: the page's title when it has
/// one, and its cover, description, tags, status, address, rating and
/// reading mode; the key, authors, artists and chapters stay.
pub open spec fn with_details(m: MangaView, d: DetailsView) -> MangaView {
    MangaView {
        key: m.key,
        title: match d.title {
            Some(t) => t,
            None => m.title,
        },
        cover: d.cover,
        authors: m.authors,
        artists: m.artists,
        description: d.description,
        url: Some(d.url),
        tags: d.tags,
        status: d.status,
        rating: d.rating,
        reader: d.reader,
        chapters: m.chapters,
    }
}

/// Updates `manga` with the details read from its page.
pub fn apply_details(manga: &mut MangaEntry, details: Details)
    ensures
        final(manga)@ == with_details(old(manga)@, details@),
{
    let Details { title, cover, description, tags, status, url, rating, reader } = details;
    if let Some(t) = title {
        manga.title = t;
    }
    manga.cover = cover;
    manga.description = description;
    manga.tags = tags;
    manga.status = status;
    manga.url = Some(url);
    manga.rating = rating;
    manga.reader = reader;
}

// ---------------------------------------------------------------------------
// Laws
// ---------------------------------------------------------------------------

/// A manga is read as a vertical strip exactly when its type, or one of its
/// tags, mentions in ASCII lowercase a manhwa, a manhua, a webtoon or a
/// webcomic (`Manhua` and `Manhwa` types are strips); otherwise right to
/// left.
pub proof fn law_vertical_strip_kinds(type_value: Option<Seq<char>>, tags: Option<Seq<Seq<char>>>)
    ensures
        (reader_of(type_value, tags) == Reader::Webtoon) == ((type_value matches Some(t) && (
        contains(lower(t), "manhwa"@) || contains(lower(t), "manhua"@) || contains(
            lower(t),
            "webtoon"@,
        ) || contains(lower(t), "webcomic"@))) || (tags matches Some(ts) && exists|i: int|
            0 <= i < ts.len() && (contains(lower(#[trigger] ts[i]), "manhwa"@) || contains(
                lower(ts[i]),
                "manhua"@,
            ) || contains(lower(ts[i]), "webtoon"@) || contains(lower(ts[i]), "webcomic"@)))),
{
}

/// Adding a tag never changes a vertical strip back to right to left, and
/// a tag that mentions a strip kind makes the manga one.
pub proof fn law_strip_tag_added(type_value: Option<Seq<char>>, ts: Seq<Seq<char>>, tag: Seq<char>)
    ensures
        reader_of(type_value, Some(ts)) == Reader::Webtoon ==> reader_of(
            type_value,
            Some(ts.push(tag)),
        ) == Reader::Webtoon,
        (contains(lower(tag), "manhwa"@) || contains(lower(tag), "manhua"@) || contains(
            lower(tag),
            "webtoon"@,
        ) || contains(lower(tag), "webcomic"@)) ==> reader_of(type_value, Some(ts.push(tag)))
            == Reader::Webtoon,
{
    let all = ts.push(tag);
    if any_lower_webtoonish(ts) {
        let i = choose|i: int| 0 <= i < ts.len() && webtoonish(lower(#[trigger] ts[i]));
        assert(all[i] == ts[i]);
    }
    assert(all[ts.len() as int] == tag);
}

/// A manga is suggestive exactly when one of its tags mentions, in ASCII
/// lowercase, ecchi, harem, mature, smut, yaoi or yuri; safe otherwise.
pub proof fn law_suggestive_genres(tags: Option<Seq<Seq<char>>>)
    ensures
        rating_of(tags) == Rating::Suggestive || rating_of(tags) == Rating::Safe,
        (rating_of(tags) == Rating::Suggestive) == (tags matches Some(ts) && exists|i: int|
            0 <= i < ts.len() && (contains(lower(#[trigger] ts[i]), "ecchi"@) || contains(
                lower(ts[i]),
                "harem"@,
            ) || contains(lower(ts[i]), "mature"@) || contains(lower(ts[i]), "smut"@)
                || contains(lower(ts[i]), "yaoi"@) || contains(lower(ts[i]), "yuri"@))),
{
}

/// The status row is read, in ASCII lowercase, as ongoing when it mentions
/// `ongoing`, else completed when it mentions `completed`, else on hiatus
/// when it mentions `hiatus`; anything else, or no row, is unknown.
pub proof fn law_status_words(status: Option<Seq<char>>)
    ensures
        (status matches Some(v) && contains(lower(v), "ongoing"@)) ==> status_of(status)
            == Status::Ongoing,
        (status matches Some(v) && !contains(lower(v), "ongoing"@) && contains(
            lower(v),
            "completed"@,
        )) ==> status_of(status) == Status::Completed,
        (status matches Some(v) && !contains(lower(v), "ongoing"@) && !contains(
            lower(v),
            "completed"@,
        ) && contains(lower(v), "hiatus"@)) ==> status_of(status) == Status::Hiatus,
        (status matches Some(v) && !contains(lower(v), "ongoing"@) && !contains(
            lower(v),
            "completed"@,
        ) && !contains(lower(v), "hiatus"@)) ==> status_of(status) == Status::Unknown,
        status is None ==> status_of(status) == Status::Unknown,
{
}

/// The type of a card is the class word that names a kind of comic
/// (`manga`, `manhwa`, `manhua`, `comic`, `novel`) written with a capital
/// first letter: each such word names a type, and the type read back in
/// lowercase is the word.
pub proof fn law_kind_names(w: Seq<char>)
    ensures
        (w == "manga"@ || w == "manhwa"@ || w == "manhua"@ || w == "comic"@ || w == "novel"@)
            == (kind_name(w) is Some),
        kind_name(w) matches Some(n) ==> n.len() > 0 && 'A' <= n[0] <= 'Z' && lower(n) == w,
{
    reveal_strlit("manga");
    reveal_strlit("Manga");
    reveal_strlit("manhwa");
    reveal_strlit("Manhwa");
    reveal_strlit("manhua");
    reveal_strlit("Manhua");
    reveal_strlit("comic");
    reveal_strlit("Comic");
    reveal_strlit("novel");
    reveal_strlit("Novel");
    assert(lower("Manga"@) =~= "manga"@);
    assert(lower("Manhwa"@) =~= "manhwa"@);
    assert(lower("Manhua"@) =~= "manhua"@);
    assert(lower("Comic"@) =~= "comic"@);
    assert(lower("Novel"@) =~= "novel"@);
}

/// The English month names, in calendar order.
pub open spec fn english_months() -> Seq<Seq<char>> {
    seq![
        "January"@, "February"@, "March"@, "April"@, "May"@, "June"@, "July"@, "August"@,
        "September"@, "October"@, "November"@, "December"@,
    ]
}

/// The month names are read as the months of the calendar, in order:
/// `January` is 1, ..., `June` 6, `July` 7, ..., `December` 12, and no
/// other text is read as a month.
pub proof fn law_month_names(name: Seq<char>)
    ensures
        forall|m: int| 1 <= m <= 12 ==> month_of(#[trigger] english_months()[m - 1]) == Some(m),
        month_of(name) matches Some(m) ==> 1 <= m <= 12 && name == english_months()[m - 1],
{
    reveal_strlit("January");
    reveal_strlit("February");
    reveal_strlit("March");
    reveal_strlit("April");
    reveal_strlit("May");
    reveal_strlit("June");
    reveal_strlit("July");
    reveal_strlit("August");
    reveal_strlit("September");
    reveal_strlit("October");
    reveal_strlit("November");
    reveal_strlit("December");
    assert("January"@.len() == 7);
    assert("February"@.len() == 8);
    assert("March"@.len() == 5);
    assert("April"@.len() == 5);
    assert("May"@.len() == 3);
    assert("June"@.len() == 4);
    assert("July"@.len() == 4);
    assert("August"@.len() == 6);
    assert("September"@.len() == 9);
    assert("October"@.len() == 7);
    assert("November"@.len() == 8);
    assert("December"@.len() == 8);
    assert("January"@[0] != "October"@[0]);
    assert("February"@[0] != "November"@[0]);
    assert("February"@[0] != "December"@[0]);
    assert("November"@[0] != "December"@[0]);
    assert("March"@[0] != "April"@[0]);
    assert("June"@[2] != "July"@[2]);
    let ms = english_months();
    assert forall|m: int| 1 <= m <= 12 implies month_of(#[trigger] english_months()[m - 1]) == Some(
        m,
    ) by {
        assert(ms[m - 1] == english_months()[m - 1]);
    }
}

/// The text `Month day, year` of a date: an English month name, the day
/// and the year in decimal.
pub open spec fn english_date_text(m: int, day: nat, year: nat) -> Seq<char> {
    english_months()[m - 1] + seq![' '] + digits(day) + seq![',', ' '] + digits(year)
}

/// The month names are ASCII letters.
proof fn lemma_month_name_letters(m: int)
    requires
        1 <= m <= 12,
    ensures
        forall|i: int|
            0 <= i < english_months()[m - 1].len() ==> 'A' <= #[trigger] english_months()[m
                - 1][i] <= 'z',
        english_months()[m - 1].len() > 0,
{
    reveal_strlit("January");
    reveal_strlit("February");
    reveal_strlit("March");
    reveal_strlit("April");
    reveal_strlit("May");
    reveal_strlit("June");
    reveal_strlit("July");
    reveal_strlit("August");
    reveal_strlit("September");
    reveal_strlit("October");
    reveal_strlit("November");
    reveal_strlit("December");
}

/// A date written `Month day, year` is read as that day of the calendar:
/// its time is the calendar's day count of the year, of the month numbered
/// by the name's place in the calendar (`June` 6, `July` 7) and of the day,
/// in seconds; none where the calendar has no such day.
pub proof fn law_english_date_calendar(m: int, day: nat, year: nat)
    requires
        1 <= m <= 12,
        day <= i64::MAX,
        year <= i64::MAX,
    ensures
        english_date(english_date_text(m, day, year)) == match days_from_civil_spec(
            year as int,
            m,
            day as int,
        ) {
            Some(d) => Some(d * 86400),
            None => None,
        },
{
    let name = english_months()[m - 1];
    let dd = digits(day);
    let yy = digits(year);
    lemma_month_name_letters(m);
    law_month_names(name);
    crate::text::lemma_digits_read_back(day);
    crate::text::lemma_digits_read_back(year);
    let sp = seq![' '];
    let cs = seq![',', ' '];
    let comma = seq![','];
    let none = Seq::<char>::empty();
    assert(!name.contains(',')) by {
        if name.contains(',') {
            let i = choose|i: int| 0 <= i < name.len() && name[i] == ',';
            assert('A' <= name[i] <= 'z');
        }
    }
    assert(!dd.contains(',')) by {
        if dd.contains(',') {
            let i = choose|i: int| 0 <= i < dd.len() && dd[i] == ',';
            assert(is_digit(dd[i]));
        }
    }
    assert(!yy.contains(',')) by {
        if yy.contains(',') {
            let i = choose|i: int| 0 <= i < yy.len() && yy[i] == ',';
            assert(is_digit(yy[i]));
        }
    }
    assert(!sp.contains(',')) by {
        if sp.contains(',') {
            let i = choose|i: int| 0 <= i < sp.len() && sp[i] == ',';
        }
    }
    crate::text::lemma_replace_absent(name, comma, none);
    crate::text::lemma_replace_absent(dd, comma, none);
    crate::text::lemma_replace_absent(yy, comma, none);
    crate::text::lemma_replace_absent(sp, comma, none);
    assert(replace(cs, comma, none) == sp) by {
        assert(cs.take(1) =~= comma);
        assert(cs.skip(1) =~= sp);
        assert(none + sp =~= sp);
    }
    let v1 = name + sp;
    let v2 = v1 + dd;
    let v3 = v2 + cs;
    let v4 = v3 + yy;
    assert(english_date_text(m, day, year) == v4);
    crate::text::lemma_replace_char_concat(name, sp, ',', none);
    crate::text::lemma_replace_char_concat(v1, dd, ',', none);
    crate::text::lemma_replace_char_concat(v2, cs, ',', none);
    crate::text::lemma_replace_char_concat(v3, yy, ',', none);
    let cleaned = name + sp + dd + sp + yy;
    assert(replace(v4, comma, none) == cleaned);
    assert(cleaned =~= (name.push(' ') + dd).push(' ') + yy);
    crate::text::lemma_words_space_concat(name.push(' ') + dd, yy);
    crate::text::lemma_words_space_concat(name, dd);
    assert forall|i: int| 0 <= i < name.len() implies !is_ws(#[trigger] name[i]) by {
        assert('A' <= name[i] <= 'z');
    }
    assert forall|i: int| 0 <= i < dd.len() implies !is_ws(#[trigger] dd[i]) by {
        assert(is_digit(dd[i]));
    }
    assert forall|i: int| 0 <= i < yy.len() implies !is_ws(#[trigger] yy[i]) by {
        assert(is_digit(yy[i]));
    }
    crate::text::lemma_words_one(name);
    crate::text::lemma_words_one(dd);
    crate::text::lemma_words_one(yy);
    let parts = words(cleaned);
    assert(parts =~= seq![name, dd, yy]);
    assert(is_digit(dd[0]));
    assert(is_digit(yy[0]));
    assert(parse_i64_text(dd) == Some(day as int));
    assert(parse_i64_text(yy) == Some(year as int));
    reveal_strlit(",");
    reveal_strlit("");
    assert(","@ =~= comma);
    assert(""@ =~= none);
    assert(english_date_fields(v4) == Some((m, day as int, year as int)));
}

/// The firsts of two months that follow each other in a year, written
/// `Month 1, year`, are read the first month's length apart: June 1 and
/// July 1 thirty days, July 1 and August 1 thirty-one.
pub proof fn law_months_follow(m: int, year: nat)
    requires
        1 <= m < 12,
        year <= i64::MAX,
    ensures
        english_date(english_date_text(m, 1, year)) is Some,
        english_date(english_date_text(m + 1, 1, year)) is Some,
        english_date(english_date_text(m + 1, 1, year)).unwrap() - english_date(
            english_date_text(m, 1, year),
        ).unwrap() == days_in_month(year as int, m) * 86400,
{
    law_english_date_calendar(m, 1, year);
    law_english_date_calendar(m + 1, 1, year);
    crate::civil::law_next_month(year as int, m);
}


/// The key of a manga is read back from the address of its page, for a
/// key that is not empty, holds no `/` or `?`, and is not `list-mode`.
pub proof fn law_manga_key_of_manga_url(key: Seq<char>)
    requires
        key.len() > 0,
        !key.contains('/'),
        !key.contains('?'),
        key != "list-mode"@,
    ensures
        manga_key(manga_page(key)) == Some(key),
{
    reveal_strlit("https://www.lelmanga.com");
    reveal_strlit("/manga/");
    let url = manga_page(key);
    let base = BASE_URL@;
    let marker = "/manga/"@;
    assert(base.len() == 24);
    assert(!url.contains('?')) by {
        if url.contains('?') {
            let i = choose|i: int| 0 <= i < url.len() && url[i] == '?';
            if i >= 31 {
                assert(key[i - 31] == '?');
            }
        }
    }
    crate::text::lemma_before_char_absent(url, '?');
    assert(url.subrange(24, 31) =~= marker);
    assert forall|j: int| 0 <= j < 24 implies !matches_at(url, marker, j) by {
        if matches_at(url, marker, j) {
            assert(url.subrange(j, j + 7)[0] == url[j]);
            assert(url.subrange(j, j + 7)[1] == url[j + 1]);
            assert(url[j] == '/' && url[j + 1] == 'm');
        }
    }
    crate::text::lemma_find_first(url, marker, 24);
    assert(url.skip(24 + marker.len() as int) =~= key);
    crate::text::lemma_before_char_absent(key, '/');
}

/// The key of a chapter is read back from the address that
/// `chapter_page_url` gives it, for a key that is not empty, holds no `/`
/// or `?`, is not `#` or `#!` and does not start with `manga`.
pub proof fn law_chapter_key_of_chapter_url(key: Seq<char>)
    requires
        key.len() > 0,
        !key.contains('/'),
        !key.contains('?'),
        key != "#"@,
        key != "#!"@,
        !has_prefix(key, "manga"@),
    ensures
        chapter_key(BASE_URL@ + "/"@ + key) == Some(key),
{
    reveal_strlit("https://www.lelmanga.com");
    reveal_strlit("/");
    let url = BASE_URL@ + "/"@ + key;
    let base = BASE_URL@;
    assert(!url.contains('?')) by {
        if url.contains('?') {
            let i = choose|i: int| 0 <= i < url.len() && url[i] == '?';
            if i >= 25 {
                assert(key[i - 25] == '?');
            }
        }
    }
    crate::text::lemma_before_char_absent(url, '?');
    assert(url.subrange(0, 24) =~= base);
    let rest = url.skip(24);
    assert(rest =~= seq!['/'] + key);
    assert(!has_prefix(rest, base)) by {
        if has_prefix(rest, base) {
            assert(rest.subrange(0, 24)[0] == rest[0]);
        }
    }
    assert(strip_prefix_all(rest, base) == rest);
    assert(strip_prefix_all(url, base) == rest);
    assert(rest.drop_first() =~= key);
    assert(key[0] != '/') by {
        assert(key.contains(key[0]));
    }
    assert(strip_start_char(key, '/') == key);
    assert(strip_start_char(rest, '/') == key);
    crate::text::lemma_before_char_absent(key, '/');
}

/// Normalizing a URL twice gives what normalizing it once gives.
pub proof fn law_normalize_idempotent(url: Seq<char>)
    ensures
        normalized_url(normalized_url(url)) == normalized_url(url),
{
    reveal_strlit("//");
    reveal_strlit("https:");
    let t = trim(url);
    crate::text::lemma_trim_ends(url);
    let n = normalized_url(url);
    if has_prefix(t, "//"@) {
        assert(n =~= "https:"@ + t);
        assert(n[0] == 'h');
        assert(n.last() == t.last());
        crate::text::lemma_trim_noop(n);
        assert(!has_prefix(n, "//"@)) by {
            assert(n.subrange(0, 2)[0] == n[0]);
        }
    } else {
        crate::text::lemma_trim_idem(url);
    }
}

/// Reading `a` then `b` is reading `a + b`.
pub proof fn lemma_quoted_run_concat(st: QuotedState, a: Seq<char>, b: Seq<char>)
    ensures
        quoted_run(st, a + b) == quoted_run(quoted_run(st, a), b),
    decreases b.len(),
{
    if b.len() == 0 {
        assert(a + b =~= a);
    } else {
        lemma_quoted_run_concat(st, a, b.drop_last());
        assert((a + b).drop_last() =~= a + b.drop_last());
        assert((a + b).last() == b.last());
    }
}

/// Reading one character is one step.
proof fn lemma_quoted_run_one(st: QuotedState, c: char)
    ensures
        quoted_run(st, seq![c]) == quoted_step(st, c),
{
    assert(seq![c].drop_last() =~= Seq::<char>::empty());
    assert(quoted_run(st, seq![c].drop_last()) == st);
    assert(seq![c].last() == c);
    assert(seq![c].len() == 1);
}

/// Inside quotes, characters other than `"` and `\` are taken as they are.
proof fn lemma_quoted_plain(st: QuotedState, s: Seq<char>)
    requires
        st.mode == 1,
        !s.contains('"'),
        !s.contains('\\'),
    ensures
        quoted_run(st, s) == (QuotedState { current: st.current + s, ..st }),
    decreases s.len(),
{
    if s.len() == 0 {
        assert(st.current + s =~= st.current);
    } else {
        assert(!s.drop_last().contains('"')) by {
            if s.drop_last().contains('"') {
                let i = choose|i: int| 0 <= i < s.drop_last().len() && s.drop_last()[i] == '"';
                assert(s[i] == '"');
            }
        }
        assert(!s.drop_last().contains('\\')) by {
            if s.drop_last().contains('\\') {
                let i = choose|i: int| 0 <= i < s.drop_last().len() && s.drop_last()[i] == '\\';
                assert(s[i] == '\\');
            }
        }
        lemma_quoted_plain(st, s.drop_last());
        assert(s.contains(s.last()));
        assert((st.current + s.drop_last()).push(s.last()) =~= st.current + s);
    }
}

/// A string in double quotes, with no `"` or `\` inside.
pub open spec fn quoted(s: Seq<char>) -> Seq<char> {
    seq!['"'] + s + seq!['"']
}

/// The strings, each in double quotes, separated by commas.
pub open spec fn quoted_list(xs: Seq<Seq<char>>) -> Seq<char>
    decreases xs.len(),
{
    if xs.len() == 0 {
        Seq::empty()
    } else if xs.len() == 1 {
        quoted(xs[0])
    } else {
        quoted_list(xs.drop_last()) + seq![','] + quoted(xs.last())
    }
}

/// Strings without `"` or `\` written as a comma-separated list of quoted
/// strings are read back by `parse_quoted_strings`, in order.
pub proof fn law_quoted_list_roundtrip(xs: Seq<Seq<char>>)
    requires
        forall|i: int|
            0 <= i < xs.len() ==> !(#[trigger] xs[i]).contains('"') && !xs[i].contains('\\'),
    ensures
        quoted_strings(quoted_list(xs)) == xs,
        quoted_state(quoted_list(xs)).mode == 0,
    decreases xs.len(),
{
    if xs.len() == 0 {
    } else {
        let x = xs.last();
        assert(!x.contains('"') && !x.contains('\\'));
        let prefix = if xs.len() == 1 {
            Seq::<char>::empty()
        } else {
            quoted_list(xs.drop_last()) + seq![',']
        };
        let st0 = quoted_state(prefix);
        if xs.len() == 1 {
            assert(xs.drop_last() =~= Seq::<Seq<char>>::empty());
            assert(quoted_list(xs) =~= prefix + quoted(x));
            assert(st0 == quoted_start());
        } else {
            law_quoted_list_roundtrip(xs.drop_last());
            lemma_quoted_run_concat(quoted_start(), quoted_list(xs.drop_last()), seq![',']);
            lemma_quoted_run_one(quoted_state(quoted_list(xs.drop_last())), ',');
        }
        assert(st0.mode == 0 && st0.strings == xs.drop_last());
        // the opening quote, the plain characters, the closing quote
        lemma_quoted_run_concat(quoted_start(), prefix, quoted(x));
        lemma_quoted_run_concat(st0, seq!['"'] + x, seq!['"']);
        lemma_quoted_run_concat(st0, seq!['"'], x);
        lemma_quoted_run_one(st0, '"');
        let st1 = quoted_run(st0, seq!['"']);
        assert(st1 == QuotedState { current: Seq::empty(), mode: 1, ..st0 });
        lemma_quoted_plain(st1, x);
        let st2 = quoted_run(st1, x);
        lemma_quoted_run_one(st2, '"');
        assert(Seq::<char>::empty() + x =~= x);
        assert(quoted_list(xs) =~= prefix + (seq!['"'] + x + seq!['"']));
        assert(xs.drop_last().push(x) =~= xs);
    }
}

/// Text without `&` holds no entity, and decoding leaves it as it is.
pub proof fn law_decode_plain_text(s: Seq<char>)
    requires
        !s.contains('&'),
    ensures
        decode_entities(s) == s,
{
    reveal_strlit("&amp;");
    reveal_strlit("&#038;");
    reveal_strlit("&quot;");
    reveal_strlit("&#8217;");
    reveal_strlit("&#8211;");
    reveal_strlit("&#8212;");
    reveal_strlit("&nbsp;");
    reveal_strlit("&lt;");
    reveal_strlit("&gt;");
    crate::text::lemma_replace_absent(s, "&amp;"@, "&"@);
    crate::text::lemma_replace_absent(s, "&#038;"@, "&"@);
    crate::text::lemma_replace_absent(s, "&quot;"@, "\""@);
    crate::text::lemma_replace_absent(s, "&#8217;"@, "'"@);
    crate::text::lemma_replace_absent(s, "&#8211;"@, "-"@);
    crate::text::lemma_replace_absent(s, "&#8212;"@, "-"@);
    crate::text::lemma_replace_absent(s, "&nbsp;"@, " "@);
    crate::text::lemma_replace_absent(s, "&lt;"@, "<"@);
    crate::text::lemma_replace_absent(s, "&gt;"@, ">"@);
}

/// The page images of a chapter hold no URL twice.
pub proof fn law_page_images_distinct(html: Seq<char>)
    ensures
        page_images(html).no_duplicates(),
{
    if let Some(start) = find(html, "id=\"readerarea\""@) {
        let segment = html.skip(start);
        let end = match find(segment, "</noscript>"@) {
            Some(e) => e,
            None => segment.len() as int,
        };
        let segment = segment.take(end);
        crate::lists::law_dedupe(
            attr_urls_from(segment, "src=\""@, 0) + attr_urls_from(segment, "data-src=\""@, 0),
        );
    }
    if let Some(start) = find(html, "\"images\":["@) {
        let rest = html.skip(start + "\"images\":["@.len());
        if let Some(end) = find(rest, seq![']']) {
            crate::lists::law_dedupe(valid_normalized(quoted_strings(rest.take(end))));
        }
    }
}

/// The tags read from a manga page hold no tag twice.
pub proof fn law_page_tags_distinct(texts: Seq<Option<Seq<char>>>)
    ensures
        page_tags(texts) matches Some(tags) ==> tags.no_duplicates(),
{
    crate::lists::law_dedupe(clean_all(texts));
}

} // verus!
