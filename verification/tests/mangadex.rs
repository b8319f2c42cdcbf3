use aidoku_sources::mangadex::{
    api_path, at_home_path, chapter_from_entity, chapter_title, content_rating, cover_url,
    external_page_text, feed_or_placeholder, feed_params, feed_path, has_next_page,
    is_external_chapter, listing_order, localized_alt_title, localized_value,
    manga_from_entity, manga_list_params, manga_list_path, manga_status, next_feed_offset,
    digits_in_range, non_empty, page_urls, parse_i64, parse_rfc3339_timestamp, placeholder_page_text,
    push_chapter, relationship_names, tags_from_attributes, ChapterData, MangaData,
    Relationship, SearchOrder, NO_FRENCH_KEY,
};
use aidoku_sources::model::{ChapterEntry, Filter, QueryParam, Rating, Reader, Status};
use aidoku_sources::query::render_params;

fn s(v: &str) -> String {
    v.to_string()
}

fn render_plain(params: &Vec<QueryParam>) -> Vec<String> {
    let encoded: Vec<(String, String)> =
        params.iter().map(|p| (p.key.clone(), p.value.clone())).collect();
    render_params(params, &encoded)
}

fn pairs(v: &[(&str, &str)]) -> Vec<(String, String)> {
    v.iter().map(|(a, b)| (s(a), s(b))).collect()
}

fn rel(kind: &str, file: Option<&str>, name: Option<&str>) -> Relationship {
    Relationship { kind: s(kind), file_name: file.map(s), name: name.map(s) }
}

#[test]
fn default_list_path() {
    let params = manga_list_params(None, 1, &vec![], SearchOrder::LatestUploadedChapter);
    let path = manga_list_path(&render_plain(&params));
    assert_eq!(
        path,
        "/manga?limit=20&offset=0&availableTranslatedLanguage[]=fr&hasAvailableChapters=true&includes[]=cover_art&includes[]=author&includes[]=artist&contentRating[]=safe&contentRating[]=suggestive&contentRating[]=erotica&order[latestUploadedChapter]=desc"
    );
}

#[test]
fn filtered_list_params() {
    let filters = vec![
        Filter::MultiSelect { id: s("status"), included: vec![s("ongoing")] },
        Filter::MultiSelect { id: s("rating"), included: vec![s("safe")] },
        Filter::Select { id: s("status"), value: s("completed") },
        Filter::MultiSelect { id: s("demographic"), included: vec![s("seinen"), s(" ")] },
    ];
    let params = manga_list_params(Some(s(" Berserk ")), 3, &filters, SearchOrder::FollowedCount);
    assert_eq!(
        render_plain(&params),
        vec![
            s("limit=20"),
            s("offset=40"),
            s("availableTranslatedLanguage[]=fr"),
            s("hasAvailableChapters=true"),
            s("includes[]=cover_art"),
            s("includes[]=author"),
            s("includes[]=artist"),
            s("title=Berserk"),
            s("status[]=ongoing"),
            s("contentRating[]=safe"),
            s("publicationDemographic[]=seinen"),
            s("order[followedCount]=desc"),
        ]
    );
    // a rating filter without values leaves the default ratings
    let filters = vec![Filter::MultiSelect { id: s("rating"), included: vec![] }];
    let params = manga_list_params(Some(s("  ")), -2, &filters, SearchOrder::CreatedAt);
    let rendered = render_plain(&params);
    assert_eq!(rendered[1], "offset=0");
    assert_eq!(rendered.len(), 11);
    assert_eq!(rendered[7], "contentRating[]=safe");
    assert_eq!(rendered[10], "order[createdAt]=desc");
}

#[test]
fn feed_paths() {
    let params = feed_params(500);
    let path = feed_path("abc", &render_plain(&params));
    assert_eq!(
        path,
        "/manga/abc/feed?limit=500&offset=500&translatedLanguage[]=fr&includeFutureUpdates=0&includeEmptyPages=1&includeExternalUrl=1&includes[]=scanlation_group&contentRating[]=safe&contentRating[]=suggestive&contentRating[]=erotica&order[volume]=desc&order[chapter]=desc"
    );
    assert_eq!(api_path("/manga/x", &vec![]), "/manga/x");
    assert_eq!(at_home_path("ch1"), "/at-home/server/ch1");
}

#[test]
fn listing_orders_of_ids() {
    assert_eq!(listing_order("popular"), SearchOrder::FollowedCount);
    assert_eq!(listing_order("new"), SearchOrder::CreatedAt);
    assert_eq!(listing_order("latest"), SearchOrder::LatestUploadedChapter);
}

#[test]
fn paging() {
    assert!(has_next_page(0, 20, 20, 45));
    assert!(!has_next_page(40, 20, 5, 45));
    assert!(!has_next_page(20, 0, 25, 45));
    assert_eq!(next_feed_offset(500, 0, 500, 1200), Some(500));
    assert_eq!(next_feed_offset(499, 0, 500, 1200), None);
    assert_eq!(next_feed_offset(0, 0, 500, 1200), None);
    assert_eq!(next_feed_offset(500, 500, 500, 1000), None);
}

#[test]
fn timestamps() {
    assert_eq!(parse_rfc3339_timestamp("1970-01-01T00:00:00Z"), Some(0));
    assert_eq!(parse_rfc3339_timestamp("2024-05-01T12:30:00+02:00"), Some(1714559400));
    assert_eq!(parse_rfc3339_timestamp("2024-05-01T12:30:00-02:00"), Some(1714573800));
    assert_eq!(
        parse_rfc3339_timestamp("2024-05-01T10:30:00Z"),
        parse_rfc3339_timestamp("2024-05-01T10:30:00+00:00")
    );
    assert_eq!(parse_rfc3339_timestamp("2024-05-01T12:30:00.000Z"), None);
    assert_eq!(parse_rfc3339_timestamp("2024-05-01"), None);
    assert_eq!(parse_rfc3339_timestamp("2024-13-01T12:30:00Z"), None);
    assert_eq!(parse_rfc3339_timestamp("2024-05-01T12:30:00+02"), None);
    assert_eq!(parse_i64(b"0042"), Some(42));
    assert_eq!(parse_i64(b""), Some(0));
    assert_eq!(parse_i64(b"4a"), None);
    assert_eq!(parse_i64(b"9223372036854775807"), Some(i64::MAX));
    assert!(digits_in_range(b"9223372036854775807"));
    assert!(!digits_in_range(b"9223372036854775808"));
    assert!(!digits_in_range(b"92233720368547758070x"));
    assert!(digits_in_range(b"12x99999999999999999999"));
}

#[test]
fn localized_texts() {
    assert_eq!(localized_value(&pairs(&[("en", " Title "), ("fr", "  ")])), Some(s("Title")));
    assert_eq!(localized_value(&pairs(&[("ja", "J"), ("fr", "F")])), Some(s("F")));
    assert_eq!(localized_value(&pairs(&[("de", " "), ("ko", "K")])), Some(s("K")));
    assert_eq!(localized_value(&pairs(&[])), None);
    let alts = vec![pairs(&[("ja", "x")]), pairs(&[("en", "y")])];
    assert_eq!(localized_alt_title(&alts), Some(s("y")));
    assert_eq!(localized_alt_title(&vec![pairs(&[("de", "z")])]), Some(s("z")));
    assert_eq!(localized_alt_title(&vec![]), None);
    assert_eq!(non_empty(Some(&s(" a "))), Some(s("a")));
    assert_eq!(non_empty(Some(&s("  "))), None);
}

#[test]
fn relationships() {
    let rels = vec![
        rel("author", None, Some(" Miura ")),
        rel("cover_art", None, None),
        rel("cover_art", Some("f.jpg"), None),
        rel("author", None, Some("  ")),
        rel("artist", None, Some("Miura")),
    ];
    assert_eq!(
        cover_url("id1", &rels),
        Some(s("https://uploads.mangadex.org/covers/id1/f.jpg.512.jpg"))
    );
    assert_eq!(relationship_names(&rels, "author"), Some(vec![s("Miura")]));
    assert_eq!(relationship_names(&rels, "scanlation_group"), None);
    let tags = vec![pairs(&[("en", "Action")]), pairs(&[]), pairs(&[("fr", "Drame"), ("en", "Drama")])];
    assert_eq!(tags_from_attributes(&tags), Some(vec![s("Action"), s("Drame")]));
    assert_eq!(manga_status(Some("cancelled")), Status::Cancelled);
    assert_eq!(manga_status(Some("Ongoing")), Status::Unknown);
    assert_eq!(content_rating(Some("pornographic")), Rating::Nsfw);
    assert_eq!(content_rating(Some("erotica")), Rating::Nsfw);
    assert_eq!(content_rating(None), Rating::Unknown);
}

#[test]
fn mangas_from_entities() {
    let e = MangaData {
        id: s("m1"),
        title: pairs(&[("ja", " "), ("en", "")]),
        alt_titles: vec![pairs(&[("fr", "Titre")])],
        description: pairs(&[("fr", " Desc ")]),
        status: Some(s("hiatus")),
        content_rating: Some(s("suggestive")),
        tags: vec![],
        relationships: vec![rel("artist", None, Some("A"))],
    };
    let m = manga_from_entity(&e);
    assert_eq!(m.key, "m1");
    assert_eq!(m.title, "Titre");
    assert_eq!(m.description, Some(s("Desc")));
    assert_eq!(m.url, Some(s("https://mangadex.org/title/m1")));
    assert_eq!(m.artists, Some(vec![s("A")]));
    assert_eq!(m.authors, None);
    assert_eq!(m.tags, None);
    assert_eq!(m.cover, None);
    assert_eq!(m.status, Status::Hiatus);
    assert_eq!(m.rating, Rating::Suggestive);
    assert_eq!(m.reader, Reader::RightToLeft);
    let bare = MangaData { title: vec![], alt_titles: vec![], ..e };
    assert_eq!(manga_from_entity(&bare).title, "m1");
}

fn chapter_data(id: &str, chapter: Option<&str>, pages: Option<i32>, external: Option<&str>) -> ChapterData {
    ChapterData {
        id: s(id),
        volume: Some(s(" 3 ")),
        chapter: chapter.map(s),
        title: None,
        translated_language: Some(s("fr")),
        external_url: external.map(s),
        pages,
        publish_at: Some(s("1970-01-02T00:00:00Z")),
        relationships: vec![rel("scanlation_group", None, Some("Team"))],
    }
}

#[test]
fn chapters_from_entities() {
    assert!(chapter_from_entity(&chapter_data("c0", Some("1"), Some(0), None)).is_none());
    assert!(chapter_from_entity(&chapter_data("c0", Some("1"), None, Some("  "))).is_none());
    let c = chapter_from_entity(&chapter_data("c1", Some(" 12.5 "), Some(20), None)).unwrap();
    assert_eq!(c.key, "c1");
    assert_eq!(c.title, Some(s("Chapitre 12.5")));
    assert_eq!(c.number_text, Some(s("12.5")));
    assert_eq!(c.volume_text, Some(s("3")));
    assert_eq!(c.date_uploaded, Some(86400));
    assert_eq!(c.scanlators, Some(vec![s("Team")]));
    assert_eq!(c.url, Some(s("https://mangadex.org/chapter/c1")));
    assert_eq!(c.language, Some(s("fr")));
    assert!(!is_external_chapter(&c));
    let e = chapter_from_entity(&chapter_data("c2", None, Some(0), Some(" https://mangaplus.shueisha.co.jp/viewer/1 "))).unwrap();
    assert_eq!(e.title, Some(s("One-shot")));
    assert_eq!(e.url, Some(s("https://mangaplus.shueisha.co.jp/viewer/1")));
    assert!(is_external_chapter(&e));
    assert_eq!(chapter_title(&Some(s(" Le départ ")), &Some(s("1"))), Some(s("Le départ")));
}

fn entry(key: &str, url: &str) -> ChapterEntry {
    ChapterEntry {
        key: s(key),
        title: None,
        number_text: None,
        volume_text: None,
        date_uploaded: None,
        scanlators: None,
        url: Some(s(url)),
        language: None,
    }
}

#[test]
fn chapters_replace_external_ones() {
    let mut chapters = vec![entry("a", "https://mangaplus/x"), entry("b", "https://mangadex.org/chapter/b")];
    push_chapter(&mut chapters, entry("a2", "https://mangadex.org/chapter/a2"), Some(0));
    assert_eq!(chapters[0].key, "a2");
    push_chapter(&mut chapters, entry("b2", "https://mangaplus/y"), Some(1));
    assert_eq!(chapters[1].key, "b");
    push_chapter(&mut chapters, entry("c", "https://mangadex.org/chapter/c"), None);
    assert_eq!(chapters.len(), 3);
}

#[test]
fn page_texts_and_urls() {
    let t = external_page_text(Some("https://mangaplus.shueisha.co.jp/viewer/1")).unwrap();
    assert_eq!(
        t,
        "Chapitre externe\n\nCe chapitre est heberge hors MangaDex et ne fournit pas de pages MangaDex@Home.\n\n[Ouvrir le chapitre](https://mangaplus.shueisha.co.jp/viewer/1)"
    );
    assert_eq!(external_page_text(Some("https://mangadex.org/chapter/x")), None);
    assert_eq!(external_page_text(None), None);
    let urls = page_urls("https://node", "h", &vec![], &vec![s("1.jpg"), s("2.jpg")]);
    assert_eq!(urls, vec![s("https://node/data-saver/h/1.jpg"), s("https://node/data-saver/h/2.jpg")]);
    let urls = page_urls("https://node", "h", &vec![s("1.png")], &vec![s("1.jpg")]);
    assert_eq!(urls, vec![s("https://node/data/h/1.png")]);
}

#[test]
fn titles_without_french_chapters() {
    let chapters = feed_or_placeholder(vec![], "m1");
    assert_eq!(chapters.len(), 1);
    assert_eq!(chapters[0].key, NO_FRENCH_KEY);
    assert_eq!(chapters[0].url, Some(s("https://mangadex.org/title/m1")));
    assert!(placeholder_page_text(NO_FRENCH_KEY).is_some());
    assert!(placeholder_page_text("c1").is_none());
    let kept = feed_or_placeholder(vec![entry("a", "u")], "m1");
    assert_eq!(kept[0].key, "a");
}

#[test]
fn other_filters_leave_list_unchanged() {
    let status = || Filter::MultiSelect {
        id: s("status"),
        included: vec![s(" ongoing "), s(""), s("hiatus")],
    };
    let base = vec![status()];
    let mut more = vec![status()];
    more.push(Filter::Select { id: s("status"), value: s("completed") });
    more.push(Filter::MultiSelect { id: s("genre"), included: vec![s("action")] });
    more.push(Filter::Other);
    let a = render_plain(&manga_list_params(None, 2, &base, SearchOrder::CreatedAt));
    let b = render_plain(&manga_list_params(None, 2, &more, SearchOrder::CreatedAt));
    assert_eq!(a, b);
    assert!(a.contains(&s("status[]=ongoing")));
    assert!(a.contains(&s("status[]=hiatus")));
    assert_eq!(a.iter().filter(|p| p.starts_with("status[]=")).count(), 2);
}
