//! The values that the sources produce and take: manga and chapter entries,
//! their classifications, search filters and query parameters.
use vstd::prelude::*;

verus! {

/// Publication status of a manga.
#[derive(PartialEq, Eq, Structural, Clone, Copy, Debug)]
pub enum Status {
    Unknown,
    Ongoing,
    Completed,
    Cancelled,
    Hiatus,
}

/// Content rating of a manga.
#[derive(PartialEq, Eq, Structural, Clone, Copy, Debug)]
pub enum Rating {
    Unknown,
    Safe,
    Suggestive,
    Nsfw,
}

/// Reading mode of a manga.
#[derive(PartialEq, Eq, Structural, Clone, Copy, Debug)]
pub enum Reader {
    RightToLeft,
    Webtoon,
}

/// A filter value chosen by the user.
pub enum Filter {
    /// A single choice `value` of the filter `id`.
    Select { id: String, value: String },
    /// The values `included` of the multiple-choice filter `id`.
    MultiSelect { id: String, included: Vec<String> },
    /// Any other kind of filter, which the sources ignore.
    Other,
}

/// A query parameter before it is written into a URL: `key=value`, where
/// both sides are percent-encoded when `encode` holds.
pub struct QueryParam {
    pub key: String,
    pub value: String,
    pub encode: bool,
}

/// A chapter of a manga.
pub struct ChapterEntry {
    pub key: String,
    pub title: Option<String>,
    /// The text from which the chapter number is read as a decimal number.
    pub number_text: Option<String>,
    /// The text from which the volume number is read as a decimal number.
    pub volume_text: Option<String>,
    /// Upload time, in seconds since 1970-01-01 00:00 UTC.
    pub date_uploaded: Option<i64>,
    pub scanlators: Option<Vec<String>>,
    pub url: Option<String>,
    pub language: Option<String>,
}

/// A manga with the details a source knows of it.
pub struct MangaEntry {
    pub key: String,
    pub title: String,
    pub cover: Option<String>,
    pub authors: Option<Vec<String>>,
    pub artists: Option<Vec<String>>,
    pub description: Option<String>,
    pub url: Option<String>,
    pub tags: Option<Vec<String>>,
    pub status: Status,
    pub rating: Rating,
    pub reader: Reader,
    pub chapters: Option<Vec<ChapterEntry>>,
}

/// The characters of each string.
pub open spec fn strs_view(v: Seq<String>) -> Seq<Seq<char>> {
    v.map_values(|s: String| s@)
}

/// The characters of an optional string.
pub open spec fn opt_view(o: Option<String>) -> Option<Seq<char>> {
    match o {
        Some(s) => Some(s@),
        None => None,
    }
}

/// The characters of each string of an optional list.
pub open spec fn opt_strs_view(o: Option<Vec<String>>) -> Option<Seq<Seq<char>>> {
    match o {
        Some(v) => Some(strs_view(v@)),
        None => None,
    }
}

/// The characters of each optional string.
pub open spec fn opts_view(v: Seq<Option<String>>) -> Seq<Option<Seq<char>>> {
    v.map_values(|o: Option<String>| opt_view(o))
}

/// A chapter, as text.
pub struct ChapterView {
    pub key: Seq<char>,
    pub title: Option<Seq<char>>,
    pub number_text: Option<Seq<char>>,
    pub volume_text: Option<Seq<char>>,
    pub date_uploaded: Option<int>,
    pub scanlators: Option<Seq<Seq<char>>>,
    pub url: Option<Seq<char>>,
    pub language: Option<Seq<char>>,
}

impl View for ChapterEntry {
    type V = ChapterView;

    open spec fn view(&self) -> ChapterView {
        ChapterView {
            key: self.key@,
            title: opt_view(self.title),
            number_text: opt_view(self.number_text),
            volume_text: opt_view(self.volume_text),
            date_uploaded: match self.date_uploaded {
                Some(d) => Some(d as int),
                None => None,
            },
            scanlators: opt_strs_view(self.scanlators),
            url: opt_view(self.url),
            language: opt_view(self.language),
        }
    }
}

/// The chapters of a list, as text.
pub open spec fn chapters_view(v: Seq<ChapterEntry>) -> Seq<ChapterView> {
    v.map_values(|c: ChapterEntry| c@)
}

/// A manga, as text.
pub struct MangaView {
    pub key: Seq<char>,
    pub title: Seq<char>,
    pub cover: Option<Seq<char>>,
    pub authors: Option<Seq<Seq<char>>>,
    pub artists: Option<Seq<Seq<char>>>,
    pub description: Option<Seq<char>>,
    pub url: Option<Seq<char>>,
    pub tags: Option<Seq<Seq<char>>>,
    pub status: Status,
    pub rating: Rating,
    pub reader: Reader,
    pub chapters: Option<Seq<ChapterView>>,
}

impl View for MangaEntry {
    type V = MangaView;

    open spec fn view(&self) -> MangaView {
        MangaView {
            key: self.key@,
            title: self.title@,
            cover: opt_view(self.cover),
            authors: opt_strs_view(self.authors),
            artists: opt_strs_view(self.artists),
            description: opt_view(self.description),
            url: opt_view(self.url),
            tags: opt_strs_view(self.tags),
            status: self.status,
            rating: self.rating,
            reader: self.reader,
            chapters: match self.chapters {
                Some(c) => Some(chapters_view(c@)),
                None => None,
            },
        }
    }
}

/// The mangas of a list, as text.
pub open spec fn mangas_view(v: Seq<MangaEntry>) -> Seq<MangaView> {
    v.map_values(|m: MangaEntry| m@)
}

/// A query parameter, as text.
pub struct ParamView {
    pub key: Seq<char>,
    pub value: Seq<char>,
    pub encode: bool,
}

impl View for QueryParam {
    type V = ParamView;

    open spec fn view(&self) -> ParamView {
        ParamView { key: self.key@, value: self.value@, encode: self.encode }
    }
}

/// The parameters of a list, as text.
pub open spec fn params_view(v: Seq<QueryParam>) -> Seq<ParamView> {
    v.map_values(|p: QueryParam| p@)
}

/// A filter, as text.
pub enum FilterView {
    Select { id: Seq<char>, value: Seq<char> },
    MultiSelect { id: Seq<char>, included: Seq<Seq<char>> },
    Other,
}

impl View for Filter {
    type V = FilterView;

    open spec fn view(&self) -> FilterView {
        match self {
            Filter::Select { id, value } => FilterView::Select { id: id@, value: value@ },
            Filter::MultiSelect { id, included } => FilterView::MultiSelect {
                id: id@,
                included: strs_view(included@),
            },
            Filter::Other => FilterView::Other,
        }
    }
}

/// The filters of a list, as text.
pub open spec fn filters_view(v: Seq<Filter>) -> Seq<FilterView> {
    v.map_values(|f: Filter| f@)
}

} // verus!
