//! From a page of search results to work records.
//!
//! The work is done in two steps. `read_listings` asks the selector engine what each work
//! listing of the page holds, and keeps the answers as plain values. `listings_to_works`
//! decides what those values mean: which fields must be there, which may be missing, and
//! which work record they make.
use vstd::prelude::*;
use scraper::{ElementRef, Selector};
use crate::date::{parse_date, parsed_date, Date};
use crate::dom::{
    attribute, compile_selector, document_matches, document_of, element_attr, element_matches,
    element_text, first_text, parse_document, select_all, select_within, selector_of,
};
use crate::text::{count_of, decimal, has_prefix, parse_count, push_decimal, strip_prefix};

verus! {

/// Where the archive is served.
pub const ENDPOINT_AO3: &'static str = "https://archiveofourown.org";

/// The query up to the page number.
pub const QUERY_PAGE: &'static str = "/works/search?commit=Search&page=";

/// The query between the page number and the creators.
pub const QUERY_CREATORS: &'static str =
    "&utf8=✓&work_search[bookmarks_count]=&work_search[character_names]=&work_search[comments_count]=&work_search[complete]=&work_search[creators]=";

/// The query between the creators and the fandom.
pub const QUERY_FANDOM: &'static str = "&work_search[crossover]=&work_search[fandom_names]=";

/// The query behind the fandom: oldest works first.
pub const QUERY_ORDER: &'static str =
    "&work_search[freeform_names]=&work_search[hits]=&work_search[kudos_count]=&work_search[language_id]=&work_search[query]=&work_search[rating_ids]=&work_search[relationship_names]=&work_search[revised_at]=&work_search[single_chapter]=0&work_search[sort_column]=created_at&work_search[sort_direction]=asc&work_search[title]=&work_search[word_count]";

/// Selects the work listings of a page.
pub const SELECTOR_WORK: &'static str = "li.work";

/// Selects, within a listing, the link to the work and after it the link to its author.
pub const SELECTOR_TITLE_AUTHOR: &'static str = "h4.heading > a";

/// Selects the relationship tags of a listing.
pub const SELECTOR_RELATIONSHIP: &'static str = "li.relationships > a.tag";

/// Selects the character tags of a listing.
pub const SELECTOR_CHARACTER: &'static str = "li.characters > a.tag";

/// Selects the freeform tags of a listing.
pub const SELECTOR_FREEFORM: &'static str = "li.freeforms > a.tag";

/// Selects the date of a listing.
pub const SELECTOR_DATE: &'static str = "p.datetime";

/// Selects the language of a listing.
pub const SELECTOR_LANGUAGE: &'static str = "dl.stats > dd.language";

/// Selects the word count of a listing.
pub const SELECTOR_WORDS: &'static str = "dl.stats > dd.words";

/// Selects the kudos count of a listing.
pub const SELECTOR_KUDOS: &'static str = "dl.stats > dd.kudos";

/// Selects the hit count of a listing.
pub const SELECTOR_HITS: &'static str = "dl.stats > dd.hits";

/// The attribute of a listing that holds the work's identifier.
pub const ID_ATTRIBUTE: &'static str = "id";

/// What stands before the identifier in that attribute.
pub const ID_PREFIX: &'static str = "work_";

/// How a listing writes its date: day, abbreviated month, year, as in `05 Dec 2020`.
pub const DATE_FORMAT: &'static str = "%d %b %Y";

/// The address of one page of search results: the works of `fandom` by `creators`, in the
/// order in which they were created. The arguments are put in as they are, unescaped.
pub open spec fn search_url(
    endpoint: Seq<char>,
    number: nat,
    fandom: Seq<char>,
    creators: Seq<char>,
) -> Seq<char> {
    endpoint + QUERY_PAGE@ + decimal(number) + QUERY_CREATORS@ + creators + QUERY_FANDOM@ + fandom
        + QUERY_ORDER@
}

/// The address of page `number` of the search for `fandom` and `creators` at `endpoint`.
pub fn page_url(endpoint: &str, number: u32, fandom: &str, creators: &str) -> (r: String)
    ensures
        r@ == search_url(endpoint@, number as nat, fandom@, creators@),
{
    let mut out = String::from_str(endpoint);
    out.append(QUERY_PAGE);
    push_decimal(&mut out, number);
    out.append(QUERY_CREATORS);
    out.append(creators);
    out.append(QUERY_FANDOM);
    out.append(fandom);
    out.append(QUERY_ORDER);
    out
}

/// A field of a work record whose extraction can fail.
#[derive(Debug, Clone, Copy, PartialEq, Eq, Structural)]
pub enum Field {
    Id,
    Title,
    Relationships,
    Characters,
    Freeforms,
    Date,
    Words,
    Kudos,
    Hits,
}

/// Why a page gave no work records.
#[derive(Debug, Clone, Copy, PartialEq, Eq, Structural)]
pub enum ExtractError {
    /// The selector engine refused one of the selectors above.
    Selector,
    /// A field that every work has is missing or malformed: the identifier, the title or
    /// the date; or a tag is there and has no text.
    Structure(Field),
    /// A statistic is there and is no number.
    FieldParse(Field),
}

/// What the selectors found in one work listing: no more than was on the page.
#[derive(Debug, Clone, PartialEq, Eq)]
pub struct Listing {
    /// The listing's `id` attribute.
    pub id_attr: Option<String>,
    /// The text of the first heading link.
    pub title: Option<String>,
    /// The text of the second heading link.
    pub author: Option<String>,
    /// For each relationship tag, its text.
    pub relationships: Vec<Option<String>>,
    /// For each character tag, its text.
    pub characters: Vec<Option<String>>,
    /// For each freeform tag, its text.
    pub freeforms: Vec<Option<String>>,
    /// The date that the text of the date element denotes.
    pub date: Option<Date>,
    /// The text of the language element.
    pub language: Option<String>,
    /// The text of the word count.
    pub words: Option<String>,
    /// The text of the kudos count.
    pub kudos: Option<String>,
    /// The text of the hit count.
    pub hits: Option<String>,
}

/// A listing, with its texts as sequences of characters.
pub ghost struct ListingView {
    pub id_attr: Option<Seq<char>>,
    pub title: Option<Seq<char>>,
    pub author: Option<Seq<char>>,
    pub relationships: Seq<Option<Seq<char>>>,
    pub characters: Seq<Option<Seq<char>>>,
    pub freeforms: Seq<Option<Seq<char>>>,
    pub date: Option<Date>,
    pub language: Option<Seq<char>>,
    pub words: Option<Seq<char>>,
    pub kudos: Option<Seq<char>>,
    pub hits: Option<Seq<char>>,
}

impl View for Listing {
    type V = ListingView;

    open spec fn view(&self) -> ListingView {
        ListingView {
            id_attr: self.id_attr.deep_view(),
            title: self.title.deep_view(),
            author: self.author.deep_view(),
            relationships: self.relationships.deep_view(),
            characters: self.characters.deep_view(),
            freeforms: self.freeforms.deep_view(),
            date: self.date,
            language: self.language.deep_view(),
            words: self.words.deep_view(),
            kudos: self.kudos.deep_view(),
            hits: self.hits.deep_view(),
        }
    }
}

impl DeepView for Listing {
    type V = ListingView;

    open spec fn deep_view(&self) -> ListingView {
        self@
    }
}

/// The metadata of one work.
#[derive(Debug, Clone, PartialEq, Eq)]
pub struct Work {
    pub id: String,
    pub title: String,
    pub author: Option<String>,
    pub relationships: Vec<String>,
    pub characters: Vec<String>,
    pub freeforms: Vec<String>,
    pub date: Date,
    pub language: String,
    pub words: u32,
    pub kudos: u32,
    pub hits: u32,
}

/// A work record, with its texts as sequences of characters.
pub ghost struct WorkView {
    pub id: Seq<char>,
    pub title: Seq<char>,
    pub author: Option<Seq<char>>,
    pub relationships: Seq<Seq<char>>,
    pub characters: Seq<Seq<char>>,
    pub freeforms: Seq<Seq<char>>,
    pub date: Date,
    pub language: Seq<char>,
    pub words: u32,
    pub kudos: u32,
    pub hits: u32,
}

impl View for Work {
    type V = WorkView;

    open spec fn view(&self) -> WorkView {
        WorkView {
            id: self.id@,
            title: self.title@,
            author: self.author.deep_view(),
            relationships: self.relationships.deep_view(),
            characters: self.characters.deep_view(),
            freeforms: self.freeforms.deep_view(),
            date: self.date,
            language: self.language@,
            words: self.words,
            kudos: self.kudos,
            hits: self.hits,
        }
    }
}

impl DeepView for Work {
    type V = WorkView;

    open spec fn deep_view(&self) -> WorkView {
        self@
    }
}

impl WorkView {
    /// What every extracted record holds: a title, and a date within a calendar's bounds.
    pub open spec fn wf(self) -> bool {
        self.title.len() > 0 && self.date.in_range()
    }
}

/// The identifier in a listing's `id` attribute: what follows the prefix. There is none
/// where the attribute is missing or begins otherwise.
pub open spec fn work_id(id_attr: Option<Seq<char>>) -> Option<Seq<char>> {
    match id_attr {
        Some(value) => if has_prefix(value, ID_PREFIX@) {
            Some(value.skip(ID_PREFIX@.len() as int))
        } else {
            None
        },
        None => None,
    }
}

/// Whether every tag of a list has a text.
pub open spec fn texts_complete(texts: Seq<Option<Seq<char>>>) -> bool {
    forall|i: int| 0 <= i < texts.len() ==> (#[trigger] texts[i]) is Some
}

/// The texts of a list of tags, in page order.
pub open spec fn texts_values(texts: Seq<Option<Seq<char>>>) -> Seq<Seq<char>> {
    Seq::new(texts.len(), |i: int| texts[i].unwrap())
}

/// The count that a statistic denotes: zero where the page has none, no count where its
/// text is no number.
pub open spec fn count_field(text: Option<Seq<char>>) -> Option<u32> {
    match text {
        Some(t) => count_of(t),
        None => Some(0),
    }
}

/// The work record that a listing makes, or the first field, in the order of the record,
/// that keeps it from making one.
pub open spec fn extract(listing: ListingView) -> Result<WorkView, ExtractError> {
    if work_id(listing.id_attr) is None {
        Err(ExtractError::Structure(Field::Id))
    } else if listing.title is None || listing.title.unwrap().len() == 0 {
        Err(ExtractError::Structure(Field::Title))
    } else if !texts_complete(listing.relationships) {
        Err(ExtractError::Structure(Field::Relationships))
    } else if !texts_complete(listing.characters) {
        Err(ExtractError::Structure(Field::Characters))
    } else if !texts_complete(listing.freeforms) {
        Err(ExtractError::Structure(Field::Freeforms))
    } else if listing.date is None || !listing.date.unwrap().in_range() {
        Err(ExtractError::Structure(Field::Date))
    } else if count_field(listing.words) is None {
        Err(ExtractError::FieldParse(Field::Words))
    } else if count_field(listing.kudos) is None {
        Err(ExtractError::FieldParse(Field::Kudos))
    } else if count_field(listing.hits) is None {
        Err(ExtractError::FieldParse(Field::Hits))
    } else {
        Ok(
            WorkView {
                id: work_id(listing.id_attr).unwrap(),
                title: listing.title.unwrap(),
                author: listing.author,
                relationships: texts_values(listing.relationships),
                characters: texts_values(listing.characters),
                freeforms: texts_values(listing.freeforms),
                date: listing.date.unwrap(),
                language: match listing.language {
                    Some(t) => t,
                    None => Seq::empty(),
                },
                words: count_field(listing.words).unwrap(),
                kudos: count_field(listing.kudos).unwrap(),
                hits: count_field(listing.hits).unwrap(),
            },
        )
    }
}

/// The work records that the listings of a page make, in page order, or the error of the
/// first listing that makes none.
pub open spec fn extract_all(listings: Seq<ListingView>) -> Result<Seq<WorkView>, ExtractError>
    decreases listings.len(),
{
    if listings.len() == 0 {
        Ok(Seq::empty())
    } else {
        match extract_all(listings.drop_last()) {
            Err(e) => Err(e),
            Ok(works) => match extract(listings.last()) {
                Err(e) => Err(e),
                Ok(work) => Ok(works.push(work)),
            },
        }
    }
}

/// The texts of a list of tags, if each tag has one.
pub fn collect_texts(texts: &Vec<Option<String>>) -> (r: Option<Vec<String>>)
    ensures
        match r {
            Some(values) => texts_complete(texts.deep_view()) && values.deep_view() == texts_values(
                texts.deep_view(),
            ),
            None => !texts_complete(texts.deep_view()),
        },
{
    let mut out: Vec<String> = Vec::new();
    let mut i: usize = 0;
    while i < texts.len()
        invariant
            i <= texts.len(),
            out.len() == i,
            forall|j: int| 0 <= j < i ==> (#[trigger] texts.deep_view()[j]) is Some,
            forall|j: int| 0 <= j < i ==> (#[trigger] out[j])@ == texts.deep_view()[j].unwrap(),
        decreases texts.len() - i,
    {
        assert(texts.deep_view()[i as int] == texts[i as int].deep_view());
        match &texts[i] {
            Some(text) => {
                out.push(text.clone());
            },
            None => {
                return None;
            },
        }
        i += 1;
    }
    assert(out.deep_view() =~= texts_values(texts.deep_view()));
    Some(out)
}

/// The count that a statistic denotes: zero where the page has none.
pub fn next_number(text: &Option<String>) -> (r: Option<u32>)
    ensures
        r == count_field(text.deep_view()),
{
    match text {
        Some(t) => parse_count(t.as_str()),
        None => Some(0),
    }
}

/// Makes a work record of what was found in one listing. The identifier, the title and
/// the date must be there; a tag that is there must have a text; a statistic that is
/// there must be a number. The author may be missing; a missing language is the empty
/// text; a missing statistic is zero.
pub fn listing_to_work(listing: &Listing) -> (r: Result<Work, ExtractError>)
    ensures
        match r {
            Ok(work) => extract(listing@) == Ok::<WorkView, ExtractError>(work@) && work@.wf(),
            Err(e) => extract(listing@) == Err::<WorkView, ExtractError>(e),
        },
{
    let id = match &listing.id_attr {
        Some(value) => match strip_prefix(value.as_str(), ID_PREFIX) {
            Some(id) => id,
            None => {
                return Err(ExtractError::Structure(Field::Id));
            },
        },
        None => {
            return Err(ExtractError::Structure(Field::Id));
        },
    };
    let title = match &listing.title {
        Some(title) => {
            if title.as_str().unicode_len() == 0 {
                return Err(ExtractError::Structure(Field::Title));
            }
            title.clone()
        },
        None => {
            return Err(ExtractError::Structure(Field::Title));
        },
    };
    let author = match &listing.author {
        Some(author) => Some(author.clone()),
        None => None,
    };
    let relationships = match collect_texts(&listing.relationships) {
        Some(texts) => texts,
        None => {
            return Err(ExtractError::Structure(Field::Relationships));
        },
    };
    let characters = match collect_texts(&listing.characters) {
        Some(texts) => texts,
        None => {
            return Err(ExtractError::Structure(Field::Characters));
        },
    };
    let freeforms = match collect_texts(&listing.freeforms) {
        Some(texts) => texts,
        None => {
            return Err(ExtractError::Structure(Field::Freeforms));
        },
    };
    let date = match listing.date {
        Some(date) => {
            if date.month < 1 || date.month > 12 || date.day < 1 || date.day > 31 {
                return Err(ExtractError::Structure(Field::Date));
            }
            date
        },
        None => {
            return Err(ExtractError::Structure(Field::Date));
        },
    };
    let language = match &listing.language {
        Some(language) => language.clone(),
        None => String::new(),
    };
    let words = match next_number(&listing.words) {
        Some(n) => n,
        None => {
            return Err(ExtractError::FieldParse(Field::Words));
        },
    };
    let kudos = match next_number(&listing.kudos) {
        Some(n) => n,
        None => {
            return Err(ExtractError::FieldParse(Field::Kudos));
        },
    };
    let hits = match next_number(&listing.hits) {
        Some(n) => n,
        None => {
            return Err(ExtractError::FieldParse(Field::Hits));
        },
    };
    Ok(
        Work {
            id,
            title,
            author,
            relationships,
            characters,
            freeforms,
            date,
            language,
            words,
            kudos,
            hits,
        },
    )
}

/// Makes the work records of a page's listings, in page order. The first listing that
/// makes none ends the work: its error is the result, and no record is returned.
pub fn listings_to_works(listings: &Vec<Listing>) -> (r: Result<Vec<Work>, ExtractError>)
    ensures
        match r {
            Ok(works) => extract_all(listings.deep_view()) == Ok::<Seq<WorkView>, ExtractError>(
                works.deep_view(),
            ),
            Err(e) => extract_all(listings.deep_view()) == Err::<Seq<WorkView>, ExtractError>(e),
        },
        listings.len() == 0 ==> (r matches Ok(works) && works.len() == 0),
{
    let mut works: Vec<Work> = Vec::new();
    let mut i: usize = 0;
    assert(listings.deep_view().take(0) =~= Seq::empty());
    assert(works.deep_view() =~= Seq::empty());
    while i < listings.len()
        invariant
            i <= listings.len(),
            extract_all(listings.deep_view().take(i as int)) == Ok::<Seq<WorkView>, ExtractError>(
                works.deep_view(),
            ),
        decreases listings.len() - i,
    {
        proof {
            let next = listings.deep_view().take(i + 1);
            assert(next.drop_last() =~= listings.deep_view().take(i as int));
            assert(next.last() == listings[i as int]@);
            lemma_extract_all_prefix(listings.deep_view(), i + 1);
        }
        match listing_to_work(&listings[i]) {
            Ok(work) => {
                let ghost before = works.deep_view();
                works.push(work);
                assert(works.deep_view() =~= before.push(work@));
            },
            Err(e) => {
                return Err(e);
            },
        }
        i += 1;
    }
    assert(listings.deep_view().take(listings.len() as int) =~= listings.deep_view());
    Ok(works)
}

/// An error among the first `k` listings is the error of the whole page.
pub proof fn lemma_extract_all_prefix(listings: Seq<ListingView>, k: int)
    requires
        0 <= k <= listings.len(),
    ensures
        extract_all(listings.take(k)) is Err ==> extract_all(listings) == extract_all(
            listings.take(k),
        ),
    decreases listings.len(),
{
    if k == listings.len() {
        assert(listings.take(k) =~= listings);
    } else {
        lemma_extract_all_prefix(listings.drop_last(), k);
        assert(listings.drop_last().take(k) =~= listings.take(k));
    }
}

/// A listing without an identifier makes no work, whatever else it holds, and the error
/// names the identifier.
pub proof fn lemma_missing_id(listing: ListingView)
    requires
        work_id(listing.id_attr) is None,
    ensures
        extract(listing) == Err::<WorkView, ExtractError>(ExtractError::Structure(Field::Id)),
{
}

/// The first listing of a page that makes no work fails the page, with its own error.
pub proof fn lemma_first_failure(listings: Seq<ListingView>, k: int)
    requires
        0 <= k < listings.len(),
        extract(listings[k]) is Err,
        forall|i: int| 0 <= i < k ==> extract(#[trigger] listings[i]) is Ok,
    ensures
        extract_all(listings) == Err::<Seq<WorkView>, ExtractError>(extract(listings[k])->Err_0),
{
    lemma_all_ok(listings.take(k));
    assert(listings.take(k + 1).drop_last() == listings.take(k));
    assert(listings.take(k + 1).last() == listings[k]);
    lemma_extract_all_prefix(listings, k + 1);
}

/// Listings that each make a work make a page of works: one for each, in their order.
pub proof fn lemma_all_ok(listings: Seq<ListingView>)
    requires
        forall|i: int| 0 <= i < listings.len() ==> extract(#[trigger] listings[i]) is Ok,
    ensures
        extract_all(listings) matches Ok(works) && works.len() == listings.len() && forall|i: int|
            0 <= i < listings.len() ==> extract(listings[i]) == Ok::<WorkView, ExtractError>(
                #[trigger] works[i],
            ),
    decreases listings.len(),
{
    if listings.len() > 0 {
        let rest = listings.drop_last();
        assert forall|i: int| 0 <= i < rest.len() implies extract(#[trigger] rest[i]) is Ok by {
            assert(rest[i] == listings[i]);
        }
        lemma_all_ok(rest);
        assert(listings[listings.len() - 1] == listings.last());
        let works = extract_all(listings)->Ok_0;
        assert forall|i: int| 0 <= i < listings.len() implies extract(listings[i]) == Ok::<
            WorkView,
            ExtractError,
        >(#[trigger] works[i]) by {
            if i < rest.len() {
                assert(rest[i] == listings[i]);
            }
        }
    }
}

/// What a listing may lack: without author the work has none, without language its
/// language is the empty text, and a statistic that the listing lacks is zero.
pub proof fn lemma_defaults(listing: ListingView)
    requires
        extract(listing) is Ok,
    ensures
        listing.author is None ==> extract(listing)->Ok_0.author is None,
        listing.language is None ==> extract(listing)->Ok_0.language.len() == 0,
        listing.words is None ==> extract(listing)->Ok_0.words == 0,
        listing.kudos is None ==> extract(listing)->Ok_0.kudos == 0,
        listing.hits is None ==> extract(listing)->Ok_0.hits == 0,
{
}

/// A page without listings makes no works, and no error.
pub proof fn lemma_no_listings()
    ensures
        extract_all(Seq::<ListingView>::empty()) == Ok::<Seq<WorkView>, ExtractError>(Seq::empty()),
{
}

/// Whether the selector engine accepts each selector that a listing is read with.
pub open spec fn selectors_accepted() -> bool {
    &&& selector_of(SELECTOR_WORK@) is Some
    &&& selector_of(SELECTOR_TITLE_AUTHOR@) is Some
    &&& selector_of(SELECTOR_RELATIONSHIP@) is Some
    &&& selector_of(SELECTOR_CHARACTER@) is Some
    &&& selector_of(SELECTOR_FREEFORM@) is Some
    &&& selector_of(SELECTOR_DATE@) is Some
    &&& selector_of(SELECTOR_LANGUAGE@) is Some
    &&& selector_of(SELECTOR_WORDS@) is Some
    &&& selector_of(SELECTOR_KUDOS@) is Some
    &&& selector_of(SELECTOR_HITS@) is Some
}

/// The elements below `scope` that the selector `css` picks, in page order.
pub open spec fn matches_of(scope: ElementRef<'static>, css: Seq<char>) -> Seq<ElementRef<'static>> {
    element_matches(scope, selector_of(css).unwrap())
}

/// For each of `elements`, its first text.
pub open spec fn texts_of(elements: Seq<ElementRef<'static>>) -> Seq<Option<Seq<char>>> {
    Seq::new(elements.len(), |i: int| element_text(elements[i]))
}

/// The first text of the element at `index`; none where there are not so many elements.
pub open spec fn text_at(elements: Seq<ElementRef<'static>>, index: int) -> Option<Seq<char>> {
    if 0 <= index < elements.len() {
        element_text(elements[index])
    } else {
        None
    }
}

/// The date that a listing's date text denotes, where there is such a text.
pub open spec fn date_of(text: Option<Seq<char>>) -> Option<Date> {
    match text {
        Some(t) => parsed_date(t, DATE_FORMAT@),
        None => None,
    }
}

/// What the selectors find in the listing `element`.
pub open spec fn listing_of(element: ElementRef<'static>) -> ListingView {
    ListingView {
        id_attr: element_attr(element, ID_ATTRIBUTE@),
        title: text_at(matches_of(element, SELECTOR_TITLE_AUTHOR@), 0),
        author: text_at(matches_of(element, SELECTOR_TITLE_AUTHOR@), 1),
        relationships: texts_of(matches_of(element, SELECTOR_RELATIONSHIP@)),
        characters: texts_of(matches_of(element, SELECTOR_CHARACTER@)),
        freeforms: texts_of(matches_of(element, SELECTOR_FREEFORM@)),
        date: date_of(text_at(matches_of(element, SELECTOR_DATE@), 0)),
        language: text_at(matches_of(element, SELECTOR_LANGUAGE@), 0),
        words: text_at(matches_of(element, SELECTOR_WORDS@), 0),
        kudos: text_at(matches_of(element, SELECTOR_KUDOS@), 0),
        hits: text_at(matches_of(element, SELECTOR_HITS@), 0),
    }
}

/// The work listings of the page `body`, in page order.
pub open spec fn page_listings(body: Seq<char>) -> Seq<ListingView> {
    let elements = document_matches(document_of(body), selector_of(SELECTOR_WORK@).unwrap());
    Seq::new(elements.len(), |i: int| listing_of(elements[i]))
}

/// The selectors that a listing is read with, compiled.
struct Selectors {
    work: Selector,
    title_author: Selector,
    relationship: Selector,
    character: Selector,
    freeform: Selector,
    date: Selector,
    language: Selector,
    words: Selector,
    kudos: Selector,
    hits: Selector,
}

impl Selectors {
    /// Each selector is what the engine makes of its text.
    spec fn wf(&self) -> bool {
        &&& selector_of(SELECTOR_WORK@) == Some(self.work)
        &&& selector_of(SELECTOR_TITLE_AUTHOR@) == Some(self.title_author)
        &&& selector_of(SELECTOR_RELATIONSHIP@) == Some(self.relationship)
        &&& selector_of(SELECTOR_CHARACTER@) == Some(self.character)
        &&& selector_of(SELECTOR_FREEFORM@) == Some(self.freeform)
        &&& selector_of(SELECTOR_DATE@) == Some(self.date)
        &&& selector_of(SELECTOR_LANGUAGE@) == Some(self.language)
        &&& selector_of(SELECTOR_WORDS@) == Some(self.words)
        &&& selector_of(SELECTOR_KUDOS@) == Some(self.kudos)
        &&& selector_of(SELECTOR_HITS@) == Some(self.hits)
    }

    fn compile() -> (r: Option<Selectors>)
        ensures
            match r {
                Some(selectors) => selectors.wf() && selectors_accepted(),
                None => !selectors_accepted(),
            },
    {
        let work = compile_selector(SELECTOR_WORK)?;
        let title_author = compile_selector(SELECTOR_TITLE_AUTHOR)?;
        let relationship = compile_selector(SELECTOR_RELATIONSHIP)?;
        let character = compile_selector(SELECTOR_CHARACTER)?;
        let freeform = compile_selector(SELECTOR_FREEFORM)?;
        let date = compile_selector(SELECTOR_DATE)?;
        let language = compile_selector(SELECTOR_LANGUAGE)?;
        let words = compile_selector(SELECTOR_WORDS)?;
        let kudos = compile_selector(SELECTOR_KUDOS)?;
        let hits = compile_selector(SELECTOR_HITS)?;
        Some(
            Selectors {
                work,
                title_author,
                relationship,
                character,
                freeform,
                date,
                language,
                words,
                kudos,
                hits,
            },
        )
    }
}

/// The first text of the element at `index`, where there is such an element.
fn next_text(elements: &Vec<ElementRef>, index: usize) -> (r: Option<String>)
    ensures
        r.deep_view() == text_at(elements@, index as int),
{
    if index < elements.len() {
        first_text(&elements[index])
    } else {
        None
    }
}

/// For each of `elements`, its first text.
fn element_texts(elements: &Vec<ElementRef>) -> (r: Vec<Option<String>>)
    ensures
        r.deep_view() == texts_of(elements@),
{
    let mut out: Vec<Option<String>> = Vec::new();
    let mut i: usize = 0;
    while i < elements.len()
        invariant
            i <= elements.len(),
            out.len() == i,
            forall|j: int| 0 <= j < i ==> (#[trigger] out[j]).deep_view() == element_text(elements[j]),
        decreases elements.len() - i,
    {
        let text = first_text(&elements[i]);
        out.push(text);
        i += 1;
    }
    assert(out.deep_view() =~= texts_of(elements@));
    out
}

/// Reads what the selectors find in the listing `element`.
fn read_listing(element: &ElementRef, selectors: &Selectors) -> (r: Listing)
    requires
        selectors.wf(),
    ensures
        r@ == listing_of(*element),
{
    let id_attr = attribute(element, ID_ATTRIBUTE);
    let heading = select_within(element, &selectors.title_author);
    let title = next_text(&heading, 0);
    let author = next_text(&heading, 1);
    let relationships = element_texts(&select_within(element, &selectors.relationship));
    let characters = element_texts(&select_within(element, &selectors.character));
    let freeforms = element_texts(&select_within(element, &selectors.freeform));
    let date = match next_text(&select_within(element, &selectors.date), 0) {
        Some(text) => parse_date(text.as_str(), DATE_FORMAT),
        None => None,
    };
    let language = next_text(&select_within(element, &selectors.language), 0);
    let words = next_text(&select_within(element, &selectors.words), 0);
    let kudos = next_text(&select_within(element, &selectors.kudos), 0);
    let hits = next_text(&select_within(element, &selectors.hits), 0);
    Listing {
        id_attr,
        title,
        author,
        relationships,
        characters,
        freeforms,
        date,
        language,
        words,
        kudos,
        hits,
    }
}

/// Reads the work listings of a page, in page order. There is no result only where the
/// selector engine refuses one of the selectors, whatever the page.
pub fn read_listings(body: &str) -> (r: Option<Vec<Listing>>)
    ensures
        match r {
            Some(listings) => selectors_accepted() && listings.deep_view() == page_listings(body@),
            None => !selectors_accepted(),
        },
{
    let selectors = match Selectors::compile() {
        Some(selectors) => selectors,
        None => {
            return None;
        },
    };
    let document = parse_document(body);
    let elements = select_all(&document, &selectors.work);
    let mut out: Vec<Listing> = Vec::new();
    let mut i: usize = 0;
    while i < elements.len()
        invariant
            i <= elements.len(),
            selectors.wf(),
            out.len() == i,
            forall|j: int| 0 <= j < i ==> (#[trigger] out[j])@ == listing_of(elements[j]),
        decreases elements.len() - i,
    {
        let listing = read_listing(&elements[i], &selectors);
        out.push(listing);
        i += 1;
    }
    assert(out.deep_view() =~= page_listings(body@));
    Some(out)
}

/// The work records of one page of search results, in page order.
///
/// A page without work listings gives no records, and no error. A listing that lacks its
/// identifier, its title or its date, that holds a tag without text or a statistic that
/// is no number, fails the whole page: the error names the first such field of the first
/// such listing.
pub fn search_page_to_works(body: &str) -> (r: Result<Vec<Work>, ExtractError>)
    ensures
        match r {
            Ok(works) => selectors_accepted() && extract_all(page_listings(body@)) == Ok::<
                Seq<WorkView>,
                ExtractError,
            >(works.deep_view()),
            Err(e) => if selectors_accepted() {
                extract_all(page_listings(body@)) == Err::<Seq<WorkView>, ExtractError>(e)
            } else {
                e == ExtractError::Selector
            },
        },
        selectors_accepted() && page_listings(body@).len() == 0 ==> (r matches Ok(works)
            && works.len() == 0),
{
    match read_listings(body) {
        Some(listings) => listings_to_works(&listings),
        None => Err(ExtractError::Selector),
    }
}

} // verus!
