use fandom_data::date::Date;
use fandom_data::json::{put, Json};
use fandom_data::search::{
    ship_frequencies, ship_frequencies_query, ship_histogram, ship_histogram_query,
    significant_tags, significant_tags_query, works_index_mapping, QueryShapeError,
};
use fandom_data::search::{ShipKind, TagKind};

#[test]
fn tag_kind_fields() {
    assert_eq!(TagKind::Relationship.to_field(), "relationships");
    assert_eq!(TagKind::Character.to_field(), "characters");
    assert_eq!(TagKind::Freeform.to_field(), "freeforms");
    assert_eq!(TagKind::Relationship.to_keyword_field(), "relationships.keyword");
    assert_eq!(TagKind::Character.to_keyword_field(), "characters.keyword");
    assert_eq!(TagKind::Freeform.to_keyword_field(), "freeforms.keyword");
}

#[test]
fn kinds_from_words() {
    assert_eq!(ShipKind::Romantic.to_word(), "romantic");
    assert_eq!(ShipKind::Platonic.to_word(), "platonic");
    assert_eq!(ShipKind::from_str(ShipKind::Platonic.to_word()).unwrap(), ShipKind::Platonic);
    assert_eq!(ShipKind::from_str("romantic").unwrap(), ShipKind::Romantic);
    assert_eq!(ShipKind::from_str("platonic").unwrap(), ShipKind::Platonic);
    assert_eq!(ShipKind::from_str("Romantic").unwrap_err().text, "Romantic");
    assert_eq!(ShipKind::from_str("").unwrap_err().text, "");
    assert_eq!(TagKind::from_str("relationship").unwrap(), TagKind::Relationship);
    assert_eq!(TagKind::from_str("character").unwrap(), TagKind::Character);
    assert_eq!(TagKind::from_str("freeform").unwrap(), TagKind::Freeform);
    assert_eq!(TagKind::from_str("relationships").unwrap_err().text, "relationships");
}


fn object(members: Vec<(&str, Json)>) -> Json {
    Json::Object(members.into_iter().map(|(name, value)| (name.to_owned(), value)).collect())
}

fn text(s: &str) -> Json {
    Json::Text(s.to_owned())
}

fn answer(buckets: Json) -> Json {
    object(vec![
        ("took", Json::Count(3)),
        ("timed_out", Json::Bool(false)),
        ("aggregations", object(vec![("aggregation_key", object(vec![("buckets", buckets)]))])),
    ])
}

fn bucket(key: &str, count: u64) -> Json {
    object(vec![("key", text(key)), ("doc_count", Json::Count(count))])
}

fn with_inner(key: &str, count: u64, inner: Vec<Json>) -> Json {
    object(vec![
        ("key", text(key)),
        ("doc_count", Json::Count(count)),
        ("aggregation_key", object(vec![("buckets", Json::Array(inner))])),
    ])
}

#[test]
fn json_accessors() {
    let value = object(vec![("a", Json::Count(1)), ("b", text("x")), ("a", Json::Null)]);
    assert_eq!(value.get("a"), Some(&Json::Count(1)));
    assert_eq!(value.get("b"), Some(&text("x")));
    assert_eq!(value.get("c"), None);
    assert_eq!(text("x").get("a"), None);
    assert_eq!(text("x").as_str(), Some("x"));
    assert_eq!(Json::Count(7).as_str(), None);
    assert_eq!(Json::Count(7).as_u64(), Some(7));
    assert_eq!(Json::Number("-7".to_owned()).as_u64(), None);
    assert_eq!(Json::Number("1.5".to_owned()).as_u64(), None);
    assert_eq!(Json::Array(vec![Json::Null]).as_array(), Some(&vec![Json::Null]));
    assert_eq!(Json::Null.as_array(), None);
}

#[test]
fn frequencies_in_answer_order() {
    let response = answer(Json::Array(vec![bucket("Katara/Zuko", 120), bucket("Aang & Zuko", 80)]));
    assert_eq!(
        ship_frequencies(&response),
        Ok(vec![("Katara/Zuko".to_owned(), 120), ("Aang & Zuko".to_owned(), 80)])
    );
    assert_eq!(ship_frequencies(&answer(Json::Array(vec![]))), Ok(vec![]));
}

#[test]
fn answers_of_another_shape() {
    assert_eq!(ship_frequencies(&Json::Null), Err(QueryShapeError::Aggregations));
    assert_eq!(ship_frequencies(&object(vec![])), Err(QueryShapeError::Aggregations));
    assert_eq!(
        ship_frequencies(&object(vec![("aggregations", object(vec![]))])),
        Err(QueryShapeError::Aggregation)
    );
    assert_eq!(
        ship_frequencies(&object(vec![(
            "aggregations",
            object(vec![("aggregation_key", object(vec![]))])
        )])),
        Err(QueryShapeError::Buckets)
    );
    assert_eq!(ship_frequencies(&answer(object(vec![]))), Err(QueryShapeError::BucketsArray));
    assert_eq!(
        ship_frequencies(&answer(Json::Array(vec![object(vec![("doc_count", Json::Count(1))])]))),
        Err(QueryShapeError::BucketKey)
    );
    assert_eq!(
        ship_frequencies(&answer(Json::Array(vec![object(vec![
            ("key", Json::Count(1)),
            ("doc_count", Json::Count(1))
        ])]))),
        Err(QueryShapeError::BucketKeyString)
    );
    assert_eq!(
        ship_frequencies(&answer(Json::Array(vec![object(vec![("key", text("a"))])]))),
        Err(QueryShapeError::DocCount)
    );
    assert_eq!(
        ship_frequencies(&answer(Json::Array(vec![
            bucket("a/b", 1),
            object(vec![("key", text("a")), ("doc_count", Json::Number("-1".to_owned()))]),
            object(vec![]),
        ]))),
        Err(QueryShapeError::DocCountInteger)
    );
}

#[test]
fn significant_tags_of_ships() {
    let response = answer(Json::Array(vec![
        with_inner(
            "Katara/Zuko",
            120,
            vec![bucket("Enemies to Lovers", 40), bucket("Slow Burn", 30)],
        ),
        with_inner("Sokka/Suki", 60, vec![]),
    ]));
    assert_eq!(
        significant_tags(&response),
        Ok(vec![
            (
                "Katara/Zuko".to_owned(),
                vec!["Enemies to Lovers".to_owned(), "Slow Burn".to_owned()]
            ),
            ("Sokka/Suki".to_owned(), vec![]),
        ])
    );
}

#[test]
fn significant_tags_of_another_shape() {
    assert_eq!(significant_tags(&Json::Null), Err(QueryShapeError::Aggregations));
    assert_eq!(
        significant_tags(&answer(Json::Array(vec![bucket("a/b", 1)]))),
        Err(QueryShapeError::SubAggregation)
    );
    assert_eq!(
        significant_tags(&answer(Json::Array(vec![object(vec![
            ("key", text("a/b")),
            ("aggregation_key", object(vec![]))
        ])]))),
        Err(QueryShapeError::SubBuckets)
    );
    assert_eq!(
        significant_tags(&answer(Json::Array(vec![object(vec![
            ("key", text("a/b")),
            ("aggregation_key", object(vec![("buckets", Json::Null)]))
        ])]))),
        Err(QueryShapeError::SubBucketsArray)
    );
    assert_eq!(
        significant_tags(&answer(Json::Array(vec![with_inner("a/b", 1, vec![object(vec![])])]))),
        Err(QueryShapeError::SubKey)
    );
    assert_eq!(
        significant_tags(&answer(Json::Array(vec![with_inner(
            "a/b",
            1,
            vec![bucket("x", 1), object(vec![("key", Json::Count(5))])]
        )]))),
        Err(QueryShapeError::SubKeyString)
    );
    assert_eq!(
        significant_tags(&answer(Json::Array(vec![
            with_inner("a/b", 1, vec![]),
            object(vec![("aggregation_key", object(vec![]))]),
        ]))),
        Err(QueryShapeError::BucketKey)
    );
}

fn span(millis: u64, count: u64) -> Json {
    object(vec![
        ("key_as_string", text("...")),
        ("key", Json::Count(millis)),
        ("doc_count", Json::Count(count)),
    ])
}

#[test]
fn histogram_of_ships() {
    let response = answer(Json::Array(vec![with_inner(
        "Katara/Zuko",
        120,
        vec![span(1_199_145_600_000, 3), span(1_201_824_000_999, 0), span(0, 1), span(951_782_400_000, 9)],
    )]));
    assert_eq!(
        ship_histogram(&response),
        Ok(vec![(
            "Katara/Zuko".to_owned(),
            vec![
                (Date { year: 2008, month: 1, day: 1 }, 3),
                (Date { year: 2008, month: 2, day: 1 }, 0),
                (Date { year: 1970, month: 1, day: 1 }, 1),
                (Date { year: 2000, month: 2, day: 29 }, 9),
            ]
        )])
    );
}

#[test]
fn histogram_of_another_shape() {
    assert_eq!(
        ship_histogram(&answer(Json::Array(vec![with_inner(
            "a/b",
            1,
            vec![object(vec![("doc_count", Json::Count(1))])]
        )]))),
        Err(QueryShapeError::SubKey)
    );
    assert_eq!(
        ship_histogram(&answer(Json::Array(vec![with_inner(
            "a/b",
            1,
            vec![object(vec![("key", text("2008-01-01")), ("doc_count", Json::Count(1))])]
        )]))),
        Err(QueryShapeError::SubKeyInteger)
    );
    assert_eq!(
        ship_histogram(&answer(Json::Array(vec![with_inner("a/b", 1, vec![span(u64::MAX, 1)])]))),
        Err(QueryShapeError::SubKeyDate)
    );
    assert_eq!(
        ship_histogram(&answer(Json::Array(vec![with_inner(
            "a/b",
            1,
            vec![object(vec![("key", Json::Count(0))])]
        )]))),
        Err(QueryShapeError::DocCount)
    );
    assert_eq!(
        ship_histogram(&answer(Json::Array(vec![with_inner(
            "a/b",
            1,
            vec![object(vec![("key", Json::Count(0)), ("doc_count", Json::Null)])]
        )]))),
        Err(QueryShapeError::DocCountInteger)
    );
    assert_eq!(
        ship_histogram(&answer(Json::Array(vec![bucket("a/b", 1)]))),
        Err(QueryShapeError::SubAggregation)
    );
}

fn count_order() -> Json {
    object(vec![("_count", text("desc"))])
}

fn match_all() -> Json {
    object(vec![("match_all", object(vec![]))])
}

#[test]
fn query_for_frequencies() {
    let expected = object(vec![
        (
            "aggs",
            object(vec![(
                "aggregation_key",
                object(vec![(
                    "terms",
                    object(vec![
                        ("field", text("characters.keyword")),
                        ("min_doc_count", Json::Count(50)),
                        ("size", Json::Count(1000)),
                        ("order", count_order()),
                    ]),
                )]),
            )]),
        ),
        ("size", Json::Count(0)),
        ("query", match_all()),
    ]);
    assert_eq!(ship_frequencies_query(50, 1000, TagKind::Character, None), expected);
}

#[test]
fn query_with_filter() {
    let filter = object(vec![("term", object(vec![("language", text("English"))]))]);
    let query = ship_frequencies_query(
        1,
        2,
        TagKind::Relationship,
        Some(object(vec![("term", object(vec![("language", text("English"))]))])),
    );
    assert_eq!(query.get("query"), Some(&filter));
    assert_eq!(query.get("size"), Some(&Json::Count(0)));
    let terms = query.get("aggs").unwrap().get("aggregation_key").unwrap().get("terms").unwrap();
    assert_eq!(terms.get("field"), Some(&text("relationships.keyword")));
    assert_eq!(terms.get("min_doc_count"), Some(&Json::Count(1)));
    assert_eq!(terms.get("size"), Some(&Json::Count(2)));
}

#[test]
fn query_for_significant_tags() {
    let expected = object(vec![
        (
            "aggs",
            object(vec![(
                "aggregation_key",
                object(vec![
                    (
                        "terms",
                        object(vec![
                            ("field", text("relationships.keyword")),
                            ("min_doc_count", Json::Count(50)),
                            ("size", Json::Count(5)),
                            ("order", count_order()),
                        ]),
                    ),
                    (
                        "aggs",
                        object(vec![(
                            "aggregation_key",
                            object(vec![(
                                "significant_terms",
                                object(vec![("field", text("freeforms.keyword"))]),
                            )]),
                        )]),
                    ),
                ]),
            )]),
        ),
        ("size", Json::Count(0)),
    ]);
    assert_eq!(significant_tags_query(50, 5, TagKind::Freeform), expected);
}

#[test]
fn query_for_histogram() {
    let expected = object(vec![
        (
            "aggs",
            object(vec![(
                "aggregation_key",
                object(vec![
                    (
                        "terms",
                        object(vec![
                            ("field", text("relationships.keyword")),
                            ("order", count_order()),
                            ("size", Json::Count(5)),
                        ]),
                    ),
                    (
                        "aggs",
                        object(vec![(
                            "aggregation_key",
                            object(vec![(
                                "date_histogram",
                                object(vec![
                                    ("field", text("date")),
                                    ("calendar_interval", text("1M")),
                                    ("min_doc_count", Json::Count(0)),
                                ]),
                            )]),
                        )]),
                    ),
                ]),
            )]),
        ),
        ("size", Json::Count(0)),
        (
            "docvalue_fields",
            Json::Array(vec![object(vec![("field", text("date")), ("format", text("date_time"))])]),
        ),
        ("query", match_all()),
    ]);
    assert_eq!(ship_histogram_query(5), expected);
}

#[test]
fn mapping_of_works() {
    let kept = |kind: &str| object(vec![("type", text(kind))]);
    let expected = object(vec![(
        "properties",
        object(vec![
            ("id", kept("keyword")),
            ("title", kept("text")),
            ("author", kept("keyword")),
            ("relationships", kept("keyword")),
            ("characters", kept("keyword")),
            ("freeforms", kept("keyword")),
            ("date", kept("date")),
            ("language", kept("keyword")),
            ("words", kept("long")),
            ("kudos", kept("long")),
            ("hits", kept("long")),
        ]),
    )]);
    assert_eq!(works_index_mapping(), expected);
}

#[test]
fn objects_are_made_member_by_member() {
    let mut members = Vec::new();
    put(&mut members, "a", Json::Null);
    put(&mut members, "b", Json::text("x"));
    assert_eq!(
        Json::object(members),
        object(vec![("a", Json::Null), ("b", text("x"))])
    );
    assert_eq!(Json::array(vec![Json::Bool(true)]), Json::Array(vec![Json::Bool(true)]));
}
