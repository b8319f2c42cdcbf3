use aidoku_sources::lelscanfr::{
    apply_details, find_section_by_heading, Heading, append_chapter_links, append_chapters, home_listing_has_page, recent_chapters_page, chapter_key_from_url, chapter_link_selector,
    chapter_page_url, clean_tag, content_rating_from_tags, home_url, listing_kind,
    manga_details, manga_from_card, manga_key_from_url, manga_url, metadata_value,
    next_chapter_page, next_page_selector, page_urls, parse_chapter_links, parse_manga_cards,
    parse_status, parse_tags_from_links, push_filter_param, search_params, search_url, Card,
    CardContainer, CardImage, DetailsPage, ListingKind,
};
use aidoku_sources::model::{Filter, MangaEntry, QueryParam, Rating, Reader, Status};
use aidoku_sources::query::render_params;

fn s(v: &str) -> String {
    v.to_string()
}

fn render_plain(params: &Vec<QueryParam>) -> Vec<String> {
    let encoded: Vec<(String, String)> =
        params.iter().map(|p| (p.key.clone(), p.value.clone())).collect();
    render_params(params, &encoded)
}

#[test]
fn scan_addresses() {
    assert_eq!(manga_url("one-piece", 1), "https://www.lelscanfr.com/manga/one-piece");
    assert_eq!(manga_url("one-piece", -4), "https://www.lelscanfr.com/manga/one-piece");
    assert_eq!(manga_url("one-piece", 3), "https://www.lelscanfr.com/manga/one-piece?page=3");
    assert_eq!(home_url(1), "https://www.lelscanfr.com");
    assert_eq!(home_url(2), "https://www.lelscanfr.com?page=2");
    assert_eq!(chapter_page_url(None, "op", "1100"), "https://www.lelscanfr.com/manga/op/1100");
    assert_eq!(chapter_page_url(Some(s("u")), "op", "1100"), "u");
    assert_eq!(chapter_link_selector("op"), "a[href*='/manga/op/']");
    assert_eq!(next_page_selector(1), "li.pagination-link[onclick*='page=2']");
}

#[test]
fn scan_manga_keys() {
    assert_eq!(manga_key_from_url(&manga_url("naruto", 4)), Some(s("naruto")));
    assert_eq!(manga_key_from_url("https://www.lelscanfr.com/manga/random"), None);
    assert_eq!(manga_key_from_url("https://www.lelscanfr.com/manga/"), None);
    assert_eq!(manga_key_from_url("https://www.lelscanfr.com/"), None);
}

#[test]
fn scan_chapter_keys() {
    let url = chapter_page_url(None, "one-piece", "1100");
    assert_eq!(chapter_key_from_url("one-piece", &url), Some(s("1100")));
    assert_eq!(chapter_key_from_url("one-piece", "https://www.lelscanfr.com/manga/one-piece/12.5?x=1"), Some(s("12.5")));
    assert_eq!(chapter_key_from_url("one-piece", "https://www.lelscanfr.com/manga/one-piece/"), None);
    assert_eq!(chapter_key_from_url("naruto", &url), None);
}

#[test]
fn chapter_pages_stop() {
    assert_eq!(next_chapter_page(1, true), Some(2));
    assert_eq!(next_chapter_page(24, true), Some(25));
    assert_eq!(next_chapter_page(25, true), None);
    assert_eq!(next_chapter_page(3, false), None);
}

#[test]
fn scan_search_urls() {
    let filters = vec![
        Filter::MultiSelect { id: s("genre"), included: vec![s("Action"), s("Drame")] },
        Filter::Select { id: s("type"), value: s(" manhwa ") },
        Filter::Select { id: s("order"), value: s("views") },
    ];
    let params = search_params(Some(s(" one piece ")), 2, &filters);
    assert_eq!(
        render_plain(&params),
        vec![s("title=one piece"), s("genre[]=Action"), s("genre[]=Drame"), s("type=manhwa"), s("page=2")]
    );
    assert!(!params.last().unwrap().encode);
    assert_eq!(search_url(&vec![s("page=2")]), "https://www.lelscanfr.com/manga?page=2");
    assert_eq!(search_url(&render_plain(&search_params(None, 1, &vec![]))), "https://www.lelscanfr.com/manga");
    let mut p = Vec::new();
    push_filter_param(&mut p, "status", "en-cours");
    assert_eq!(render_plain(&p), vec![s("status=en-cours")]);
}

#[test]
fn scan_listings() {
    assert_eq!(listing_kind("popular"), ListingKind::Popular);
    assert_eq!(listing_kind("latest"), ListingKind::Latest);
    assert_eq!(listing_kind("recent_chapters"), ListingKind::RecentChapters);
    assert_eq!(listing_kind("all"), ListingKind::All);
    assert_eq!(listing_kind("anything"), ListingKind::All);
}

#[test]
fn scan_metadata() {
    let rows = vec![Some(s("Auteur")), Some(s("Auteur :: Oda ")), Some(s("Statut: En cours"))];
    assert_eq!(metadata_value(&rows, "Auteur"), Some(s("Oda")));
    assert_eq!(metadata_value(&rows, "Statut"), Some(s("En cours")));
    assert_eq!(metadata_value(&vec![None, Some(s("Statut: En cours"))], "Statut"), None);
    assert_eq!(metadata_value(&rows, "Artiste"), None);
}

#[test]
fn scan_statuses() {
    assert_eq!(parse_status(Some(s("En Cours"))), Status::Ongoing);
    assert_eq!(parse_status(Some(s("TERMINÉ"))), Status::Completed);
    assert_eq!(parse_status(Some(s("Completed"))), Status::Completed);
    assert_eq!(parse_status(Some(s("En pause"))), Status::Hiatus);
    assert_eq!(parse_status(Some(s("Abandonné"))), Status::Unknown);
    assert_eq!(parse_status(None), Status::Unknown);
}

#[test]
fn scan_tags() {
    assert_eq!(clean_tag(s(" Action,, ")), Some(s("Action")));
    assert_eq!(clean_tag(s(" , ")), None);
    assert_eq!(
        parse_tags_from_links(Some(vec![Some(s("Action,")), None, Some(s(" Action")), Some(s("Gore"))])),
        Some(vec![s("Action"), s("Gore")])
    );
    assert_eq!(parse_tags_from_links(Some(vec![Some(s(","))])), None);
    assert_eq!(parse_tags_from_links(None), None);
}

#[test]
fn scan_ratings() {
    assert_eq!(content_rating_from_tags(Some(&vec![s("Gore"), s("Smut")])), Rating::Nsfw);
    assert_eq!(content_rating_from_tags(Some(&vec![s("ÉROTIQUE")])), Rating::Safe);
    assert_eq!(content_rating_from_tags(Some(&vec![s("Erotique")])), Rating::Nsfw);
    assert_eq!(content_rating_from_tags(Some(&vec![s("Action"), s("Violence")])), Rating::Suggestive);
    assert_eq!(content_rating_from_tags(Some(&vec![s("Mature content")])), Rating::Safe);
    assert_eq!(content_rating_from_tags(None), Rating::Safe);
}

#[test]
fn scan_chapter_links() {
    let links = vec![
        Some(s("https://www.lelscanfr.com/manga/op/1100")),
        Some(s("https://www.lelscanfr.com/manga/op/1100?x")),
        None,
        Some(s("https://www.lelscanfr.com/manga/other/3")),
        Some(s("https://www.lelscanfr.com/manga/op/1099.5")),
    ];
    let mut chapters = Vec::new();
    append_chapter_links("op", &links, &mut chapters);
    assert_eq!(chapters.len(), 2);
    assert_eq!(chapters[0].key, "1100");
    assert_eq!(chapters[0].title, Some(s("Chapitre 1100")));
    assert_eq!(chapters[0].number_text, Some(s("1100")));
    assert_eq!(chapters[0].url, Some(s("https://www.lelscanfr.com/manga/op/1100")));
    assert_eq!(chapters[0].language, Some(s("fr")));
    assert_eq!(chapters[1].key, "1099.5");
    append_chapters("op", &Some(links.clone()), &mut chapters);
    assert_eq!(chapters.len(), 2);
    append_chapters("op", &None, &mut chapters);
    assert_eq!(chapters.len(), 2);
    assert!(parse_chapter_links("op", &Some(vec![None])).is_none());
    assert_eq!(parse_chapter_links("op", &Some(links)).unwrap().len(), 2);
}

#[test]
fn scan_cards() {
    let card = Card {
        url: Some(s("https://www.lelscanfr.com/manga/one-piece")),
        image: Some(CardImage { alt: None, abs_data_src: None, abs_src: Some(s("https://c/1.jpg")) }),
        heading: Some(s("One Piece")),
        container: Some(CardContainer {
            tag_links: Some(vec![Some(s("Ecchi"))]),
            chapter_links: Some(vec![Some(s("https://www.lelscanfr.com/manga/one-piece/1100"))]),
        }),
    };
    let m = manga_from_card(&card, true).unwrap();
    assert_eq!(m.key, "one-piece");
    assert_eq!(m.title, "One Piece");
    assert_eq!(m.cover, Some(s("https://c/1.jpg")));
    assert_eq!(m.tags, Some(vec![s("Ecchi")]));
    assert_eq!(m.rating, Rating::Suggestive);
    assert_eq!(m.reader, Reader::RightToLeft);
    assert_eq!(m.chapters.as_ref().unwrap()[0].key, "1100");
    assert!(manga_from_card(&card, false).unwrap().chapters.is_none());
    let bare = Card { url: Some(s("https://www.lelscanfr.com/manga/dr-stone")), image: None, heading: None, container: None };
    assert_eq!(manga_from_card(&bare, true).unwrap().title, "Dr Stone");
    let none = Card { url: Some(s("https://www.lelscanfr.com/manga/random")), image: None, heading: None, container: None };
    assert_eq!(parse_manga_cards(&vec![card, none, bare], false).len(), 2);
}

#[test]
fn scan_details() {
    let page = DetailsPage {
        cover_src: Some(s("https://www.lelscanfr.com/storage/covers/op.jpg")),
        cover_alt: Some(s("One Piece")),
        description: Some(s(" Pirates ")),
        paragraphs: Some(vec![Some(s("Auteur : Oda")), Some(s("Statut : Terminé"))]),
        tag_links: Some(vec![Some(s("Action,")), Some(s("Gore"))]),
    };
    let d = manga_details("one-piece", true, &page);
    assert_eq!(d.title, Some(s("One Piece")));
    assert_eq!(d.cover, Some(s("https://www.lelscanfr.com/storage/covers/op.jpg")));
    assert_eq!(d.description, Some(s(" Pirates ")));
    assert_eq!(d.authors, Some(vec![s("Oda")]));
    assert_eq!(d.artists, None);
    assert_eq!(d.tags, Some(vec![s("Action"), s("Gore")]));
    assert_eq!(d.status, Status::Completed);
    assert_eq!(d.url, "https://www.lelscanfr.com/manga/one-piece");
    assert_eq!(d.rating, Rating::Suggestive);
    assert_eq!(manga_details("one-piece", false, &page).title, None);
}

#[test]
fn scan_page_urls() {
    let images = vec![
        (Some(s("https://a/1.jpg")), Some(s("https://a/x.jpg"))),
        (None, Some(s("https://a/2.jpg"))),
        (None, None),
    ];
    assert_eq!(page_urls(&images), vec![s("https://a/1.jpg"), s("https://a/2.jpg")]);
}

#[test]
fn home_listing_pages() {
    assert!(home_listing_has_page(1));
    assert!(home_listing_has_page(-3));
    assert!(!home_listing_has_page(2));
    assert_eq!(recent_chapters_page(0), 1);
    assert_eq!(recent_chapters_page(4), 4);
}

#[test]
fn section_of_heading() {
    let h = |text: Option<&str>, tags: &[&str]| Heading {
        text: text.map(s),
        tags: tags.iter().map(|t| Some(s(t))).collect(),
    };
    let headings = vec![
        h(Some("Populaires"), &["h2", "div", "section", "main"]),
        h(None, &["h2", "section"]),
        h(Some("  Chapitres récents "), &["h2", "div", "div", "section", "main", "body"]),
        h(Some("Chapitres récents"), &["h2", "section"]),
    ];
    assert_eq!(find_section_by_heading(&headings, "Chapitres récents"), Some((2, 3)));
    assert_eq!(find_section_by_heading(&headings, "Populaires"), Some((0, 2)));
    assert_eq!(find_section_by_heading(&headings, "Absent"), None);
    let outside = vec![
        h(Some("Chapitres récents"), &["h2", "div", "main"]),
        h(Some("Chapitres récents"), &["h2", "section"]),
    ];
    assert_eq!(find_section_by_heading(&outside, "Chapitres récents"), None);
    let itself = vec![h(Some("X"), &["section"])];
    assert_eq!(find_section_by_heading(&itself, "X"), Some((0, 0)));
}

#[test]
fn scan_manga_update_from_details() {
    let mut manga = MangaEntry {
        key: s("one-piece"),
        title: s(""),
        cover: Some(s("old.jpg")),
        authors: Some(vec![s("X")]),
        artists: Some(vec![s("Y")]),
        description: Some(s("old")),
        url: None,
        tags: None,
        status: Status::Unknown,
        rating: Rating::Unknown,
        reader: Reader::Webtoon,
        chapters: None,
    };
    let page = DetailsPage {
        cover_src: None,
        cover_alt: Some(s("One Piece")),
        description: None,
        paragraphs: Some(vec![Some(s("Auteur : Oda"))]),
        tag_links: Some(vec![Some(s("Action"))]),
    };
    let d = manga_details("one-piece", manga.title.is_empty(), &page);
    apply_details(&mut manga, d);
    assert_eq!(manga.title, "One Piece");
    assert_eq!(manga.cover, Some(s("old.jpg")));
    assert_eq!(manga.description, None);
    assert_eq!(manga.authors, Some(vec![s("Oda")]));
    assert_eq!(manga.artists, None);
    assert_eq!(manga.tags, Some(vec![s("Action")]));
    assert_eq!(manga.url, Some(s("https://www.lelscanfr.com/manga/one-piece")));
    assert_eq!(manga.rating, Rating::Safe);
    assert_eq!(manga.reader, Reader::RightToLeft);
    let page2 = DetailsPage {
        cover_src: Some(s("https://www.lelscanfr.com/storage/covers/op.jpg")),
        cover_alt: Some(s("Other")),
        description: None,
        paragraphs: None,
        tag_links: None,
    };
    let d2 = manga_details("one-piece", manga.title.is_empty(), &page2);
    apply_details(&mut manga, d2);
    assert_eq!(manga.title, "One Piece");
    assert_eq!(manga.cover, Some(s("https://www.lelscanfr.com/storage/covers/op.jpg")));
}
