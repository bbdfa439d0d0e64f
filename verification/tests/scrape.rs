use fandom_data::date::Date;
use fandom_data::scrape::{
    listing_to_work, listings_to_works, page_url, read_listings, search_page_to_works,
    ExtractError, Field, Listing, Work, ENDPOINT_AO3,
};

fn text(s: &str) -> Option<String> {
    Some(s.to_owned())
}

fn page(listings: &[&str]) -> String {
    let mut body = String::from("<!DOCTYPE html><html><head><title>Works</title></head><body>");
    body.push_str("<h2 class=\"heading\">2 Found</h2><ol class=\"work index group\">");
    for listing in listings {
        body.push_str(listing);
    }
    body.push_str("</ol></body></html>");
    body
}

const FIRST: &str = r#"
<li id="work_27870388" class="work blurb group" role="article">
  <div class="header module">
    <h4 class="heading">
      <a href="/works/27870388">The Long Way Home</a>
      by
      <a rel="author" href="/users/ember/pseuds/ember">ember</a>
    </h4>
    <h5 class="fandoms heading">
      <span class="landmark">Fandoms:</span>
      <a class="tag" href="/tags/Avatar/works">Avatar: The Last Airbender</a>
    </h5>
    <p class="datetime">05 Dec 2020</p>
  </div>
  <ul class="tags commas">
    <li class='relationships'><a class="tag" href="/tags/a">Katara/Zuko (Avatar)</a></li>
    <li class='relationships'><a class="tag" href="/tags/b">Sokka &amp; Toph Beifong</a></li>
    <li class='characters'><a class="tag" href="/tags/c">Katara (Avatar)</a></li>
    <li class='characters'><a class="tag" href="/tags/d">Zuko (Avatar)</a></li>
    <li class='freeforms'><a class="tag" href="/tags/e">Fluff</a></li>
  </ul>
  <dl class="stats">
    <dt class="language">Language:</dt>
    <dd class="language">English</dd>
    <dt class="words">Words:</dt>
    <dd class="words">12,345</dd>
    <dt class="kudos">Kudos:</dt>
    <dd class="kudos"><a href="/works/27870388/kudos">1,234</a></dd>
    <dt class="hits">Hits:</dt>
    <dd class="hits">56789</dd>
  </dl>
</li>"#;

const SECOND: &str = r#"
<li id="work_27871111" class="work blurb group" role="article">
  <div class="header module">
    <h4 class="heading">
      <a href="/works/27871111">Untitled Draft</a>
      by Anonymous
    </h4>
    <p class="datetime">28 Feb 2019</p>
  </div>
  <dl class="stats">
    <dt class="words">Words:</dt>
    <dd class="words">100</dd>
  </dl>
</li>"#;

fn first_work() -> Work {
    Work {
        id: "27870388".to_owned(),
        title: "The Long Way Home".to_owned(),
        author: text("ember"),
        relationships: vec!["Katara/Zuko (Avatar)".to_owned(), "Sokka & Toph Beifong".to_owned()],
        characters: vec!["Katara (Avatar)".to_owned(), "Zuko (Avatar)".to_owned()],
        freeforms: vec!["Fluff".to_owned()],
        date: Date { year: 2020, month: 12, day: 5 },
        language: "English".to_owned(),
        words: 12345,
        kudos: 1234,
        hits: 56789,
    }
}

fn second_work() -> Work {
    Work {
        id: "27871111".to_owned(),
        title: "Untitled Draft".to_owned(),
        author: None,
        relationships: vec![],
        characters: vec![],
        freeforms: vec![],
        date: Date { year: 2019, month: 2, day: 28 },
        language: String::new(),
        words: 100,
        kudos: 0,
        hits: 0,
    }
}

fn plain_listing() -> Listing {
    Listing {
        id_attr: text("work_42"),
        title: text("A Title"),
        author: text("someone"),
        relationships: vec![text("A/B")],
        characters: vec![text("A"), text("B")],
        freeforms: vec![],
        date: Some(Date { year: 2020, month: 12, day: 5 }),
        language: text("English"),
        words: text("1,000"),
        kudos: text("10"),
        hits: text("2,000,000"),
    }
}

#[test]
fn scrape_test_search_page_to_works() {
    assert_eq!(
        search_page_to_works(&page(&[FIRST, SECOND])).unwrap(),
        vec![first_work(), second_work()]
    );
}

#[test]
fn lib_test_search_page_to_works() {
    assert_eq!(search_page_to_works(&page(&[FIRST])), Ok(vec![first_work()]));
}

#[test]
fn page_order_is_kept() {
    let works = search_page_to_works(&page(&[SECOND, FIRST])).unwrap();
    assert_eq!(works, vec![second_work(), first_work()]);
}

#[test]
fn page_without_listings_gives_no_works() {
    assert_eq!(search_page_to_works(&page(&[])), Ok(vec![]));
    assert_eq!(search_page_to_works(""), Ok(vec![]));
    assert_eq!(search_page_to_works("<p>0 Found</p>"), Ok(vec![]));
    assert_eq!(listings_to_works(&vec![]), Ok(vec![]));
}

#[test]
fn listing_without_id_fails_the_page() {
    let broken = SECOND.replace(" id=\"work_27871111\"", "");
    assert_eq!(
        search_page_to_works(&page(&[FIRST, &broken])),
        Err(ExtractError::Structure(Field::Id))
    );
    assert_eq!(
        search_page_to_works(&page(&[&broken, FIRST])),
        Err(ExtractError::Structure(Field::Id))
    );
}

#[test]
fn listing_with_foreign_id_fails_the_page() {
    let broken = SECOND.replace("work_27871111", "bookmark_27871111");
    assert_eq!(
        search_page_to_works(&page(&[&broken])),
        Err(ExtractError::Structure(Field::Id))
    );
}

#[test]
fn listing_without_title_fails_the_page() {
    let broken = SECOND.replace("<a href=\"/works/27871111\">Untitled Draft</a>", "");
    assert_eq!(
        search_page_to_works(&page(&[&broken])),
        Err(ExtractError::Structure(Field::Title))
    );
    let empty = SECOND.replace("Untitled Draft", "");
    assert_eq!(
        search_page_to_works(&page(&[&empty])),
        Err(ExtractError::Structure(Field::Title))
    );
}

#[test]
fn listing_without_date_fails_the_page() {
    let broken = SECOND.replace("<p class=\"datetime\">28 Feb 2019</p>", "");
    assert_eq!(
        search_page_to_works(&page(&[&broken])),
        Err(ExtractError::Structure(Field::Date))
    );
}

#[test]
fn malformed_date_fails_the_page() {
    for bad in ["2019-02-28", "30 Feb 2019", "28 Foo 2019", "yesterday"] {
        let broken = SECOND.replace("28 Feb 2019", bad);
        assert_eq!(
            search_page_to_works(&page(&[&broken])),
            Err(ExtractError::Structure(Field::Date))
        );
    }
}

#[test]
fn tag_without_text_fails_the_page() {
    let broken = FIRST.replace(">Fluff<", "><");
    assert_eq!(
        search_page_to_works(&page(&[&broken])),
        Err(ExtractError::Structure(Field::Freeforms))
    );
    let broken = FIRST.replace(">Katara (Avatar)<", "><");
    assert_eq!(
        search_page_to_works(&page(&[&broken])),
        Err(ExtractError::Structure(Field::Characters))
    );
    let broken = FIRST.replace(">Katara/Zuko (Avatar)<", "><");
    assert_eq!(
        search_page_to_works(&page(&[&broken])),
        Err(ExtractError::Structure(Field::Relationships))
    );
}

#[test]
fn malformed_statistic_fails_the_page() {
    let broken = FIRST.replace("12,345", "12k");
    assert_eq!(
        search_page_to_works(&page(&[&broken])),
        Err(ExtractError::FieldParse(Field::Words))
    );
    let broken = FIRST.replace("1,234", "many");
    assert_eq!(
        search_page_to_works(&page(&[&broken])),
        Err(ExtractError::FieldParse(Field::Kudos))
    );
    let broken = FIRST.replace("56789", "99999999999");
    assert_eq!(
        search_page_to_works(&page(&[&broken])),
        Err(ExtractError::FieldParse(Field::Hits))
    );
}

#[test]
fn first_failure_wins() {
    let broken = FIRST.replace("12,345", "12k").replace("05 Dec 2020", "soon");
    assert_eq!(
        search_page_to_works(&page(&[&broken])),
        Err(ExtractError::Structure(Field::Date))
    );
    let no_id = SECOND.replace(" id=\"work_27871111\"", "");
    assert_eq!(
        search_page_to_works(&page(&[&broken, &no_id])),
        Err(ExtractError::Structure(Field::Date))
    );
}

#[test]
fn missing_kudos_is_zero() {
    let without = FIRST
        .replace("<dd class=\"kudos\"><a href=\"/works/27870388/kudos\">1,234</a></dd>", "");
    let works = search_page_to_works(&page(&[&without])).unwrap();
    assert_eq!(works.len(), 1);
    assert_eq!(works[0].kudos, 0);
    assert_eq!(works[0].words, 12345);
}

#[test]
fn kudos_with_separator() {
    let works = search_page_to_works(&page(&[FIRST])).unwrap();
    assert_eq!(works[0].kudos, 1234);
}

#[test]
fn read_listings_keeps_what_is_on_the_page() {
    let listings = read_listings(&page(&[SECOND])).unwrap();
    assert_eq!(
        listings,
        vec![Listing {
            id_attr: text("work_27871111"),
            title: text("Untitled Draft"),
            author: None,
            relationships: vec![],
            characters: vec![],
            freeforms: vec![],
            date: Some(Date { year: 2019, month: 2, day: 28 }),
            language: None,
            words: text("100"),
            kudos: None,
            hits: None,
        }]
    );
    let listings = read_listings(&page(&[FIRST])).unwrap();
    assert_eq!(listings[0].id_attr, text("work_27870388"));
    assert_eq!(listings[0].author, text("ember"));
    assert_eq!(listings[0].kudos, text("1,234"));
    assert_eq!(
        listings[0].relationships,
        vec![text("Katara/Zuko (Avatar)"), text("Sokka & Toph Beifong")]
    );
}

#[test]
fn listing_makes_its_work() {
    assert_eq!(
        listing_to_work(&plain_listing()),
        Ok(Work {
            id: "42".to_owned(),
            title: "A Title".to_owned(),
            author: text("someone"),
            relationships: vec!["A/B".to_owned()],
            characters: vec!["A".to_owned(), "B".to_owned()],
            freeforms: vec![],
            date: Date { year: 2020, month: 12, day: 5 },
            language: "English".to_owned(),
            words: 1000,
            kudos: 10,
            hits: 2_000_000,
        })
    );
}

#[test]
fn listing_defaults() {
    let mut listing = plain_listing();
    listing.author = None;
    listing.language = None;
    listing.words = None;
    listing.kudos = None;
    listing.hits = None;
    let work = listing_to_work(&listing).unwrap();
    assert_eq!(work.author, None);
    assert_eq!(work.language, "");
    assert_eq!((work.words, work.kudos, work.hits), (0, 0, 0));
}

#[test]
fn listing_errors() {
    let mut listing = plain_listing();
    listing.id_attr = None;
    assert_eq!(listing_to_work(&listing), Err(ExtractError::Structure(Field::Id)));
    let mut listing = plain_listing();
    listing.id_attr = text("work42");
    assert_eq!(listing_to_work(&listing), Err(ExtractError::Structure(Field::Id)));
    let mut listing = plain_listing();
    listing.title = None;
    assert_eq!(listing_to_work(&listing), Err(ExtractError::Structure(Field::Title)));
    let mut listing = plain_listing();
    listing.relationships.push(None);
    assert_eq!(listing_to_work(&listing), Err(ExtractError::Structure(Field::Relationships)));
    let mut listing = plain_listing();
    listing.characters.insert(0, None);
    assert_eq!(listing_to_work(&listing), Err(ExtractError::Structure(Field::Characters)));
    let mut listing = plain_listing();
    listing.freeforms = vec![text("x"), None, text("y")];
    assert_eq!(listing_to_work(&listing), Err(ExtractError::Structure(Field::Freeforms)));
    let mut listing = plain_listing();
    listing.date = None;
    assert_eq!(listing_to_work(&listing), Err(ExtractError::Structure(Field::Date)));
    let mut listing = plain_listing();
    listing.date = Some(Date { year: 2020, month: 13, day: 1 });
    assert_eq!(listing_to_work(&listing), Err(ExtractError::Structure(Field::Date)));
    let mut listing = plain_listing();
    listing.words = text("");
    assert_eq!(listing_to_work(&listing), Err(ExtractError::FieldParse(Field::Words)));
    let mut listing = plain_listing();
    listing.kudos = text("-1");
    assert_eq!(listing_to_work(&listing), Err(ExtractError::FieldParse(Field::Kudos)));
    let mut listing = plain_listing();
    listing.hits = text("4,294,967,296");
    assert_eq!(listing_to_work(&listing), Err(ExtractError::FieldParse(Field::Hits)));
    listing.hits = text("4,294,967,295");
    assert_eq!(listing_to_work(&listing).unwrap().hits, u32::MAX);
}

#[test]
fn id_is_what_follows_the_prefix() {
    let mut listing = plain_listing();
    listing.id_attr = text("work_work_7");
    assert_eq!(listing_to_work(&listing).unwrap().id, "work_7");
    listing.id_attr = text("work_");
    assert_eq!(listing_to_work(&listing).unwrap().id, "");
}

#[test]
fn listings_fail_fast() {
    let mut bad_date = plain_listing();
    bad_date.date = None;
    let mut bad_id = plain_listing();
    bad_id.id_attr = None;
    assert_eq!(
        listings_to_works(&vec![plain_listing(), bad_date.clone(), bad_id.clone()]),
        Err(ExtractError::Structure(Field::Date))
    );
    assert_eq!(
        listings_to_works(&vec![bad_id, bad_date]),
        Err(ExtractError::Structure(Field::Id))
    );
    let works = listings_to_works(&vec![plain_listing(), plain_listing()]).unwrap();
    assert_eq!(works.len(), 2);
    assert_eq!(works[0], works[1]);
}

#[test]
fn page_url_puts_the_arguments_in() {
    assert_eq!(
        page_url(ENDPOINT_AO3, 12, "Avatar: The Last Airbender", "ember"),
        "https://archiveofourown.org/works/search?commit=Search&page=12&utf8=✓&work_search[bookmarks_count]=&work_search[character_names]=&work_search[comments_count]=&work_search[complete]=&work_search[creators]=ember&work_search[crossover]=&work_search[fandom_names]=Avatar: The Last Airbender&work_search[freeform_names]=&work_search[hits]=&work_search[kudos_count]=&work_search[language_id]=&work_search[query]=&work_search[rating_ids]=&work_search[relationship_names]=&work_search[revised_at]=&work_search[single_chapter]=0&work_search[sort_column]=created_at&work_search[sort_direction]=asc&work_search[title]=&work_search[word_count]"
    );
}

#[test]
fn page_url_numbers() {
    for number in [0u32, 1, 9, 10, 99, 100, 1234567890, u32::MAX] {
        let url = page_url("http://localhost", number, "", "");
        assert!(url.starts_with(&format!("http://localhost/works/search?commit=Search&page={}&utf8=", number)));
    }
}

#[test]
fn page_is_the_first_fandom() {
    assert_eq!(
        fandom_data::request::page(3),
        page_url(ENDPOINT_AO3, 3, "Avatar: The Last Airbender", "")
    );
}
