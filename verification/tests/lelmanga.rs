use aidoku_sources::civil::{civil_in_range, days_from_civil};
use aidoku_sources::lelmanga::{
    apply_details, capitalize, chapter_from_row, chapter_key_from_url, chapter_number_text, chapter_page_url,
    chapter_title, content_rating_from_tags, decode_html_entities, english_date_in_range,
    extract_attr_urls, fetch_chapters, image_url, is_valid_image_url, is_webtoonish,
    key_to_title, listing_order, manga_details, manga_from_card, manga_key_from_url,
    manga_status, manga_url, metadata_value, month_number, non_empty_text, normalize_url,
    page_image_urls, parse_english_date, parse_manga_cards, parse_quoted_strings,
    parse_readerarea_images, parse_tags, parse_ts_reader_images, push_filter_param,
    push_unique_manga, row_date_in_range, search_params, search_url, trim_number_suffix, type_from_class,
    viewer_from_metadata, Card, CardImage, ChapterRow, DetailsPage,
};
use aidoku_sources::model::{Filter, MangaEntry, QueryParam, Rating, Reader, Status};
use aidoku_sources::query::render_params;

fn s(v: &str) -> String {
    v.to_string()
}

fn render_plain(params: &Vec<QueryParam>) -> Vec<String> {
    let encoded: Vec<(String, String)> =
        params.iter().map(|p| (p.key.clone(), p.value.clone())).collect();
    render_params(params, &encoded)
}

#[test]
fn decodes_the_site_entities() {
    assert_eq!(
        decode_html_entities("Tom &amp; Jerry&#8217;s &lt;b&gt; &quot;x&quot; &#8211; &#8212;&nbsp;&#038;"),
        "Tom & Jerry's <b> \"x\" - - &"
    );
    assert_eq!(decode_html_entities("&amp;amp;"), "&amp;");
    assert_eq!(decode_html_entities("plain text"), "plain text");
}

#[test]
fn cleans_text() {
    assert_eq!(non_empty_text("  One \n\t Piece  "), Some(s("One Piece")));
    assert_eq!(non_empty_text("  &nbsp; \n"), None);
    assert_eq!(non_empty_text(""), None);
    assert_eq!(non_empty_text("a&nbsp;&nbsp;b"), Some(s("a b")));
}

#[test]
fn normalizes_urls() {
    assert_eq!(normalize_url("  //cdn.site/a.jpg \n"), "https://cdn.site/a.jpg");
    assert_eq!(normalize_url(" https://x/y.png "), "https://x/y.png");
    let once = normalize_url(" //a/b ");
    assert_eq!(normalize_url(&once), once);
}

#[test]
fn validates_image_urls() {
    assert!(is_valid_image_url("https://cdn/a.jpg"));
    assert!(is_valid_image_url("HTTP://cdn/a.jpg"));
    assert!(!is_valid_image_url("ftp://cdn/a.jpg"));
    assert!(!is_valid_image_url("//cdn/a.jpg"));
    assert!(!is_valid_image_url("https://x/wp-content/themes/mangastream/readerarea.svg"));
    assert!(!is_valid_image_url("https://x/btn_close.gif"));
    assert!(!is_valid_image_url("https://x/THEMES/a.png"));
}

#[test]
fn picks_the_first_image_attribute() {
    assert_eq!(
        image_url(None, Some(s(" //a/b.jpg ")), Some(s("https://c/d.jpg")), None),
        Some(s("https://a/b.jpg"))
    );
    assert_eq!(image_url(Some(s("data:image/gif")), Some(s("https://a/b.jpg")), None, None), None);
    assert_eq!(image_url(None, None, None, None), None);
}

#[test]
fn reads_quoted_strings() {
    let v = parse_quoted_strings(r#""https:\/\/a\/1.jpg","b\u0026c","d\u0041e", "q\"x\\y", "open"#);
    assert_eq!(v, vec![s("https://a/1.jpg"), s("b&c"), s("de"), s("q\"x\\y")]);
    assert!(parse_quoted_strings("no quotes").is_empty());
}

#[test]
fn quoted_list_roundtrip() {
    let v = parse_quoted_strings(r#""one","two","three""#);
    assert_eq!(v, vec![s("one"), s("two"), s("three")]);
}

#[test]
fn extracts_attribute_urls() {
    let seg = r#"<img src=" //a/1.jpg "><img src="https://x/themes/t.png"><img src="https://a/2.jpg?x=1&amp;y=2"><img src="unclosed"#;
    assert_eq!(
        extract_attr_urls(seg, "src=\""),
        vec![s("https://a/1.jpg"), s("https://a/2.jpg?x=1&y=2")]
    );
}

#[test]
fn reads_reader_area_images() {
    let html = r#"<img src="https://a/outside.jpg"><div id="readerarea"><img data-src="https://a/2.jpg" src="https://a/1.jpg"><img src="https://a/1.jpg"></div><noscript><img src="https://a/3.jpg"></noscript><img src="https://a/4.jpg">"#;
    assert_eq!(
        parse_readerarea_images(html),
        vec![s("https://a/2.jpg"), s("https://a/1.jpg"), s("https://a/3.jpg")]
    );
    assert!(parse_readerarea_images("<div></div>").is_empty());
}

#[test]
fn reads_script_images() {
    let html = r#"ts_reader.run({"images":["https:\/\/x\/1.jpg","https:\/\/x\/1.jpg","\/\/y\/2.png","https:\/\/x\/themes\/z.png"]});"#;
    assert_eq!(parse_ts_reader_images(html), vec![s("https://x/1.jpg"), s("https://y/2.png")]);
    assert!(parse_ts_reader_images(r#""images":["https://x/1.jpg""#).is_empty());
}

#[test]
fn falls_back_to_script_images() {
    let html = r#"<div id="readerarea"></div><script>({"images":["https:\/\/x\/1.jpg"]})</script>"#;
    assert_eq!(page_image_urls(html), vec![s("https://x/1.jpg")]);
}

#[test]
fn builds_chapter_page_urls() {
    assert_eq!(chapter_page_url(None, "one-piece-1"), "https://www.lelmanga.com/one-piece-1");
    assert_eq!(chapter_page_url(Some(s("https://x/y")), "k"), "https://x/y");
}

#[test]
fn manga_keys_roundtrip() {
    let url = manga_url("one-piece");
    assert_eq!(url, "https://www.lelmanga.com/manga/one-piece");
    assert_eq!(manga_key_from_url(&url), Some(s("one-piece")));
    assert_eq!(manga_key_from_url("https://www.lelmanga.com/manga/naruto/?x=1"), Some(s("naruto")));
    assert_eq!(manga_key_from_url("https://www.lelmanga.com/manga/list-mode/"), None);
    assert_eq!(manga_key_from_url("https://www.lelmanga.com/manga/"), None);
    assert_eq!(manga_key_from_url("https://www.lelmanga.com/?manga/x/"), None);
}

#[test]
fn chapter_keys() {
    assert_eq!(
        chapter_key_from_url("https://www.lelmanga.com/one-piece-1000/"),
        Some(s("one-piece-1000"))
    );
    assert_eq!(chapter_key_from_url(&chapter_page_url(None, "x-1")), Some(s("x-1")));
    assert_eq!(chapter_key_from_url("https://www.lelmanga.com/manga/one-piece/"), None);
    assert_eq!(chapter_key_from_url("https://www.lelmanga.com/#"), None);
    assert_eq!(chapter_key_from_url("https://www.lelmanga.com/#!"), None);
    assert_eq!(chapter_key_from_url("/relative-1/?p=2"), Some(s("relative-1")));
}

#[test]
fn titles_from_keys() {
    assert_eq!(key_to_title("one-piece"), "One Piece");
    assert_eq!(key_to_title("a--b"), "A  B");
    assert_eq!(key_to_title(""), "");
    assert_eq!(key_to_title("élan-ßx"), "Élan SSx");
    assert_eq!(capitalize("élan"), "Élan");
    assert_eq!(capitalize(""), "");
}

#[test]
fn types_from_classes() {
    assert_eq!(type_from_class("type Manhwa"), Some(s("Manhwa")));
    assert_eq!(type_from_class("  type\tNOVEL extra"), Some(s("Novel")));
    assert_eq!(type_from_class("type"), None);
    assert_eq!(type_from_class(""), None);
}

#[test]
fn tags_without_repeats() {
    let texts = vec![Some(s(" Action ")), None, Some(s("Action")), Some(s("  ")), Some(s("Drame"))];
    assert_eq!(parse_tags(&texts), Some(vec![s("Action"), s("Drame")]));
    assert_eq!(parse_tags(&vec![None, Some(s(" "))]), None);
}

#[test]
fn metadata_rows() {
    let rows = vec![None, Some(s("Type  Manhwa")), Some(s("status Ongoing ")), Some(s("Status Completed"))];
    assert_eq!(metadata_value(&rows, "Status"), Some(s("Ongoing")));
    assert_eq!(metadata_value(&rows, "Type"), Some(s("Manhwa")));
    assert_eq!(metadata_value(&rows, "Author"), None);
    assert_eq!(metadata_value(&vec![Some(s("Status"))], "Status"), None);
}

#[test]
fn statuses() {
    assert_eq!(manga_status(Some("OnGoing")), Status::Ongoing);
    assert_eq!(manga_status(Some("Completed")), Status::Completed);
    assert_eq!(manga_status(Some("on hiatus")), Status::Hiatus);
    assert_eq!(manga_status(Some("dropped")), Status::Unknown);
    assert_eq!(manga_status(None), Status::Unknown);
}

#[test]
fn readers_and_ratings() {
    assert!(is_webtoonish("korean manhwa"));
    assert!(!is_webtoonish("Manhwa"));
    assert_eq!(viewer_from_metadata(Some("Manhwa"), None), Reader::Webtoon);
    assert_eq!(viewer_from_metadata(Some("Manga"), Some(&vec![s("WebComic")])), Reader::Webtoon);
    assert_eq!(viewer_from_metadata(Some("Manga"), Some(&vec![s("Action")])), Reader::RightToLeft);
    assert_eq!(viewer_from_metadata(None, None), Reader::RightToLeft);
    assert_eq!(content_rating_from_tags(Some(&vec![s("Action"), s("ECCHI")])), Rating::Suggestive);
    assert_eq!(content_rating_from_tags(Some(&vec![s("Action")])), Rating::Safe);
    assert_eq!(content_rating_from_tags(None), Rating::Safe);
}

fn card(url: &str, title: Option<&str>, tt: Option<&str>, alt: Option<&str>, class: Option<&str>) -> Card {
    Card {
        url: Some(s(url)),
        title_attr: title.map(s),
        title_text: tt.map(s),
        image: Some(CardImage {
            alt: alt.map(s),
            abs_data_src: None,
            abs_src: Some(s("https://cdn/c.jpg")),
            data_src: None,
            src: None,
        }),
        type_class: class.map(s),
    }
}

#[test]
fn cards_make_mangas() {
    let m = manga_from_card(&card(
        "https://www.lelmanga.com/manga/solo-leveling/",
        Some("Solo &amp; Leveling"),
        None,
        None,
        Some("type Manhwa"),
    ))
    .unwrap();
    assert_eq!(m.key, "solo-leveling");
    assert_eq!(m.title, "Solo & Leveling");
    assert_eq!(m.cover, Some(s("https://cdn/c.jpg")));
    assert_eq!(m.tags, Some(vec![s("Manhwa")]));
    assert_eq!(m.reader, Reader::Webtoon);
    assert_eq!(m.rating, Rating::Safe);
    assert_eq!(m.url, Some(s("https://www.lelmanga.com/manga/solo-leveling/")));

    let m = manga_from_card(&card("https://www.lelmanga.com/manga/one-piece/", None, Some(" One  Piece "), None, None)).unwrap();
    assert_eq!(m.title, "One Piece");
    assert_eq!(m.reader, Reader::RightToLeft);
    assert_eq!(m.tags, None);
    let m = manga_from_card(&card("https://www.lelmanga.com/manga/x-y/", Some("  "), None, Some("Alt"), None)).unwrap();
    assert_eq!(m.title, "Alt");
    let m = manga_from_card(&card("https://www.lelmanga.com/manga/x-y/", None, None, None, None)).unwrap();
    assert_eq!(m.title, "X Y");
    assert!(manga_from_card(&card("https://www.lelmanga.com/manga/list-mode/", None, None, None, None)).is_none());
}

#[test]
fn cards_without_repeated_keys() {
    let cards = vec![
        card("https://www.lelmanga.com/manga/a/", Some("A"), None, None, None),
        card("https://www.lelmanga.com/other", Some("B"), None, None, None),
        card("https://www.lelmanga.com/manga/a/?x", Some("A2"), None, None, None),
        card("https://www.lelmanga.com/manga/c/", Some("C"), None, None, None),
    ];
    let entries = parse_manga_cards(&cards);
    let keys: Vec<&str> = entries.iter().map(|m| m.key.as_str()).collect();
    assert_eq!(keys, vec!["a", "c"]);
    assert_eq!(entries[0].title, "A");
}

#[test]
fn push_unique_manga_keeps_first() {
    let mk = |k: &str, t: &str| MangaEntry {
        key: s(k),
        title: s(t),
        cover: None,
        authors: None,
        artists: None,
        description: None,
        url: None,
        tags: None,
        status: Status::Unknown,
        rating: Rating::Safe,
        reader: Reader::RightToLeft,
        chapters: None,
    };
    let mut v = vec![mk("a", "first")];
    push_unique_manga(&mut v, mk("a", "second"));
    push_unique_manga(&mut v, mk("b", "b"));
    assert_eq!(v.len(), 2);
    assert_eq!(v[0].title, "first");
}

#[test]
fn chapter_numbers_and_titles() {
    assert_eq!(chapter_number_text("Chapitre 12,5 - Fin"), "12.5");
    assert_eq!(chapter_number_text("Chapter 3"), "3");
    assert_eq!(chapter_number_text("Vol 2 Ch 3"), "2");
    assert_eq!(chapter_number_text("none"), "");
    assert_eq!(trim_number_suffix("12.0"), "12");
    assert_eq!(trim_number_suffix("12.5"), "12.5");
    assert_eq!(chapter_title("Chapitre 12.5 Le retour", Some("12.5")), Some(s("Le retour")));
    assert_eq!(chapter_title("Chapter 3", Some("3.0")), None);
    assert_eq!(chapter_title("Bonus", None), Some(s("Bonus")));
    assert_eq!(chapter_title("Bonus", Some("4")), None);
}

#[test]
fn english_dates() {
    assert_eq!(month_number("March"), Some(3));
    assert_eq!(month_number("march"), None);
    assert_eq!(parse_english_date("January 1, 1970"), Some(0));
    assert_eq!(parse_english_date("March 5, 2024"), Some(1709596800));
    assert_eq!(parse_english_date("Mars 5, 2024"), None);
    assert_eq!(parse_english_date("March 32, 2024"), None);
    assert_eq!(parse_english_date("March 5"), None);
    assert_eq!(parse_english_date("March +5, 2024"), Some(1709596800));
    assert!(english_date_in_range("March 5, 2024"));
    assert!(!english_date_in_range("March 5, 9000000000000000000"));
    assert!(english_date_in_range("January 1, 200000000000"));
    assert_eq!(
        parse_english_date("January 1, 200000000000"),
        Some(6311390337832780800)
    );
    assert!(english_date_in_range("December 4, 292277026596"));
    assert_eq!(
        parse_english_date("December 4, 292277026596"),
        Some(9223372036854720000)
    );
    assert!(!english_date_in_range("December 31, 292277026596"));
    assert!(!english_date_in_range("January 1, 292277026597"));
    assert!(english_date_in_range("Mars 5, 99999999999999999"));
}

#[test]
fn civil_days() {
    assert_eq!(days_from_civil(1970, 1, 1), Some(0));
    assert_eq!(days_from_civil(25_000_000_000_000_000, 6, 1), Some(9131062499999280624));
    assert!(civil_in_range(25_252_734_927_000_000, 6, 1));
    assert!(!civil_in_range(25_252_734_928_000_000, 6, 1));
    assert!(civil_in_range(-25_252_734_927_000_000, 6, 1));
    assert!(!civil_in_range(-25_252_734_928_000_000, 6, 1));
    assert!(!civil_in_range(i64::MIN, 1, 1));
    assert!(civil_in_range(i64::MIN, 13, 1));
    assert_eq!(days_from_civil(1969, 12, 31), Some(-1));
    assert_eq!(days_from_civil(2000, 2, 29), Some(11016));
    assert_eq!(days_from_civil(1600, 3, 1), Some(-135080));
    assert_eq!(days_from_civil(2024, 13, 1), None);
    assert_eq!(days_from_civil(2024, 1, 0), None);
    // a day past the end of February counts on into March
    assert_eq!(days_from_civil(2023, 2, 29), days_from_civil(2023, 3, 1));
}

#[test]
fn chapters_from_rows() {
    let rows = vec![
        ChapterRow {
            url: Some(s("https://www.lelmanga.com/one-piece-1100/")),
            label: Some(s("Chapitre 1100 La fin")),
            date: Some(s("March 5, 2024")),
            number_display: Some(s("1100")),
        },
        ChapterRow { url: None, label: None, date: None, number_display: None },
        ChapterRow {
            url: Some(s("https://www.lelmanga.com/manga/one-piece/")),
            label: None,
            date: None,
            number_display: None,
        },
        ChapterRow {
            url: Some(s("https://www.lelmanga.com/one-piece-1099/")),
            label: Some(s("Bonus")),
            date: Some(s("soon")),
            number_display: None,
        },
    ];
    let c = fetch_chapters(&rows);
    assert_eq!(c.len(), 2);
    assert_eq!(c[0].key, "one-piece-1100");
    assert_eq!(c[0].title, Some(s("La fin")));
    assert_eq!(c[0].number_text, Some(s("1100")));
    assert_eq!(c[0].date_uploaded, Some(1709596800));
    assert_eq!(c[0].language, Some(s("fr")));
    assert_eq!(c[1].title, Some(s("Bonus")));
    assert_eq!(c[1].number_text, Some(s("")));
    assert_eq!(c[1].date_uploaded, None);
    assert!(chapter_from_row(&rows[1]).is_none());
}

#[test]
fn far_dates_of_rows_without_chapters() {
    let far = s("January 1, 292277026597");
    let rows = vec![
        ChapterRow { url: None, label: None, date: Some(far.clone()), number_display: None },
        ChapterRow {
            url: Some(s("https://www.lelmanga.com/manga/one-piece/")),
            label: None,
            date: Some(far.clone()),
            number_display: None,
        },
        ChapterRow {
            url: Some(s("https://www.lelmanga.com/one-piece-7/")),
            label: None,
            date: Some(s("December 4, 292277026596")),
            number_display: None,
        },
    ];
    assert!(row_date_in_range(&rows[0]));
    assert!(row_date_in_range(&rows[1]));
    assert!(row_date_in_range(&rows[2]));
    let c = fetch_chapters(&rows);
    assert_eq!(c.len(), 1);
    assert_eq!(c[0].key, "one-piece-7");
    assert_eq!(c[0].date_uploaded, Some(9223372036854720000));
    let bad = ChapterRow {
        url: Some(s("https://www.lelmanga.com/one-piece-8/")),
        label: None,
        date: Some(far),
        number_display: None,
    };
    assert!(!row_date_in_range(&bad));
}

#[test]
fn text_search_urls() {
    let (params, by_query) = search_params(Some(s(" naruto ")), 2, &vec![], None);
    assert!(by_query);
    let url = search_url(&render_plain(&params), by_query);
    assert_eq!(url, "https://www.lelmanga.com?s=naruto&page=2");
}

#[test]
fn browse_urls() {
    let filters = vec![
        Filter::MultiSelect { id: s("genre"), included: vec![s("action"), s(" "), s("drame")] },
        Filter::Select { id: s("status"), value: s("ongoing") },
        Filter::Select { id: s("unknown"), value: s("x") },
        Filter::Other,
    ];
    let (params, by_query) = search_params(Some(s("   ")), 0, &filters, Some("popular"));
    assert!(!by_query);
    let url = search_url(&render_plain(&params), by_query);
    assert_eq!(
        url,
        "https://www.lelmanga.com/manga?genre[]=action&genre[]=drame&status=ongoing&order=popular"
    );
    let (params, by_query) = search_params(None, 1, &vec![], None);
    assert_eq!(search_url(&render_plain(&params), by_query), "https://www.lelmanga.com/manga");
    let (params, _) = search_params(None, 3, &vec![], None);
    assert_eq!(render_plain(&params), vec![s("page=3")]);
}

#[test]
fn filter_params_of_ids() {
    let mut params = Vec::new();
    push_filter_param(&mut params, "order", " update ");
    push_filter_param(&mut params, "type", "");
    push_filter_param(&mut params, "author", "x");
    assert_eq!(render_plain(&params), vec![s("order=update")]);
}

#[test]
fn listing_orders() {
    assert_eq!(listing_order("popular"), Some("popular"));
    assert_eq!(listing_order("new"), Some("latest"));
    assert_eq!(listing_order("latest"), Some("update"));
    assert_eq!(listing_order("other"), None);
}

#[test]
fn manga_page_details() {
    let page = DetailsPage {
        title: Some(s(" Solo   Leveling ")),
        cover: Some(CardImage {
            alt: None,
            abs_data_src: Some(s("//cdn/cover.jpg")),
            abs_src: None,
            data_src: None,
            src: None,
        }),
        description: Some(s("  ")),
        tag_texts: vec![Some(s("Action")), Some(s("Mature"))],
        metadata_rows: vec![Some(s("Status Completed")), Some(s("Type Manhwa"))],
    };
    let d = manga_details("solo-leveling", &page);
    assert_eq!(d.title, Some(s("Solo Leveling")));
    assert_eq!(d.cover, Some(s("https://cdn/cover.jpg")));
    assert_eq!(d.description, None);
    assert_eq!(d.tags, Some(vec![s("Action"), s("Mature")]));
    assert_eq!(d.status, Status::Completed);
    assert_eq!(d.url, "https://www.lelmanga.com/manga/solo-leveling");
    assert_eq!(d.rating, Rating::Suggestive);
    assert_eq!(d.reader, Reader::Webtoon);
}

#[test]
fn manga_update_from_details() {
    let mut manga = MangaEntry {
        key: s("solo-leveling"),
        title: s("Old"),
        cover: Some(s("old.jpg")),
        authors: Some(vec![s("Chugong")]),
        artists: None,
        description: Some(s("old")),
        url: None,
        tags: None,
        status: Status::Unknown,
        rating: Rating::Safe,
        reader: Reader::RightToLeft,
        chapters: None,
    };
    let page = DetailsPage {
        title: None,
        cover: None,
        description: Some(s("Hunters")),
        tag_texts: vec![Some(s("Action"))],
        metadata_rows: vec![Some(s("Status Ongoing")), Some(s("Type Manhwa"))],
    };
    apply_details(&mut manga, manga_details("solo-leveling", &page));
    assert_eq!(manga.title, "Old");
    assert_eq!(manga.cover, None);
    assert_eq!(manga.authors, Some(vec![s("Chugong")]));
    assert_eq!(manga.description, Some(s("Hunters")));
    assert_eq!(manga.tags, Some(vec![s("Action")]));
    assert_eq!(manga.status, Status::Ongoing);
    assert_eq!(manga.url, Some(s("https://www.lelmanga.com/manga/solo-leveling")));
    assert_eq!(manga.rating, Rating::Safe);
    assert_eq!(manga.reader, Reader::Webtoon);
    let page2 = DetailsPage {
        title: Some(s("Solo Leveling")),
        cover: None,
        description: None,
        tag_texts: vec![],
        metadata_rows: vec![],
    };
    apply_details(&mut manga, manga_details("solo-leveling", &page2));
    assert_eq!(manga.title, "Solo Leveling");
}

#[test]
fn card_titles_never_empty() {
    let card = Card {
        url: Some(s("https://www.lelmanga.com/manga/\u{df}/")),
        title_attr: None,
        title_text: None,
        image: None,
        type_class: None,
    };
    let entries = parse_manga_cards(&vec![card]);
    assert_eq!(entries.len(), 1);
    assert!(!entries[0].title.is_empty());
    assert_eq!(key_to_title("\u{df}"), "SS");
}
