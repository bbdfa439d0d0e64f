//! The kinds of tags and ships, and what the answers of the search index hold.
//!
//! The index answers an aggregation with buckets: one for each value of the field that
//! was asked for, with the number of works that have it. The functions here read such
//! answers; sending the queries is left to the caller.
use vstd::prelude::*;
use crate::date::{date_of_timestamp, timestamp_date, Date};
use crate::json::{put, Json, JsonView};
use crate::text::same_text;

verus! {

/// The kind of relationship a ship tag names.
#[derive(Debug, PartialEq, Eq, PartialOrd, Ord, Clone, Copy, Hash, Structural)]
pub enum ShipKind {
    Romantic,
    Platonic,
}

/// One of the three categories of free-text tags attached to a work.
#[derive(Debug, PartialEq, Eq, PartialOrd, Ord, Clone, Copy, Hash, Structural)]
pub enum TagKind {
    Relationship,
    Character,
    Freeform,
}

/// A word that names no kind.
#[derive(Debug, Clone)]
pub struct InvalidKind {
    /// The word as it was given.
    pub text: String,
}

impl ShipKind {
    /// The word that selects this kind.
    pub open spec fn word(self) -> Seq<char> {
        match self {
            ShipKind::Romantic => "romantic"@,
            ShipKind::Platonic => "platonic"@,
        }
    }

    /// What `from_str` makes of a word.
    pub open spec fn of_word(word: Seq<char>) -> Option<ShipKind> {
        if word == "romantic"@ {
            Some(ShipKind::Romantic)
        } else if word == "platonic"@ {
            Some(ShipKind::Platonic)
        } else {
            None
        }
    }

    /// The word that selects this kind.
    pub fn to_word(&self) -> (r: &'static str)
        ensures
            r@ == self.word(),
    {
        match self {
            ShipKind::Romantic => "romantic",
            ShipKind::Platonic => "platonic",
        }
    }

    /// Reads `romantic` or `platonic`; any other word is handed back in the error.
    pub fn from_str(string: &str) -> (r: Result<ShipKind, InvalidKind>)
        ensures
            match r {
                Ok(kind) => ShipKind::of_word(string@) == Some(kind),
                Err(e) => ShipKind::of_word(string@).is_none() && e.text@ == string@,
            },
    {
        if same_text(string, "romantic") {
            Ok(ShipKind::Romantic)
        } else if same_text(string, "platonic") {
            Ok(ShipKind::Platonic)
        } else {
            Err(InvalidKind { text: String::from_str(string) })
        }
    }
}

/// Each kind of ship is read from its own word.
pub proof fn lemma_ship_kind_word(kind: ShipKind)
    ensures
        ShipKind::of_word(kind.word()) == Some(kind),
{
    reveal_strlit("romantic");
    reveal_strlit("platonic");
    assert("romantic"@[0] != "platonic"@[0]);
}

impl TagKind {
    /// The name of the field of a work record that holds the tags of this kind.
    pub open spec fn field(self) -> Seq<char> {
        match self {
            TagKind::Relationship => "relationships"@,
            TagKind::Character => "characters"@,
            TagKind::Freeform => "freeforms"@,
        }
    }

    /// What `from_str` makes of a word.
    pub open spec fn of_word(word: Seq<char>) -> Option<TagKind> {
        if word == "relationship"@ {
            Some(TagKind::Relationship)
        } else if word == "character"@ {
            Some(TagKind::Character)
        } else if word == "freeform"@ {
            Some(TagKind::Freeform)
        } else {
            None
        }
    }

    /// Reads `relationship`, `character` or `freeform`; any other word is handed back in
    /// the error.
    pub fn from_str(string: &str) -> (r: Result<TagKind, InvalidKind>)
        ensures
            match r {
                Ok(kind) => TagKind::of_word(string@) == Some(kind),
                Err(e) => TagKind::of_word(string@).is_none() && e.text@ == string@,
            },
    {
        if same_text(string, "relationship") {
            Ok(TagKind::Relationship)
        } else if same_text(string, "character") {
            Ok(TagKind::Character)
        } else if same_text(string, "freeform") {
            Ok(TagKind::Freeform)
        } else {
            Err(InvalidKind { text: String::from_str(string) })
        }
    }

    /// The field of a work record that holds the tags of this kind.
    pub fn to_field(&self) -> (r: &'static str)
        ensures
            r@ == self.field(),
    {
        match self {
            TagKind::Relationship => "relationships",
            TagKind::Character => "characters",
            TagKind::Freeform => "freeforms",
        }
    }

    /// The sub-field that the index keeps unanalysed, for exact-match aggregation.
    pub fn to_keyword_field(&self) -> (r: String)
        ensures
            r@ == self.field() + ".keyword"@,
    {
        let mut out = String::from_str(self.to_field());
        out.append(".keyword");
        out
    }
}

/// The index that holds the works.
pub const WORKS_INDEX: &'static str = "works";

/// The name under which each query asks for its aggregation.
pub const AGGREGATION_KEY: &'static str = "aggregation_key";

/// What an answer of the index lacks.
#[derive(Debug, Clone, Copy, PartialEq, Eq, Structural)]
pub enum QueryShapeError {
    /// The answer has no member `aggregations`.
    Aggregations,
    /// The aggregations lack the one that was asked for.
    Aggregation,
    /// The aggregation has no member `buckets`.
    Buckets,
    /// The buckets are no array.
    BucketsArray,
    /// A bucket has no member `key`.
    BucketKey,
    /// The key of a bucket is no string.
    BucketKeyString,
    /// A bucket has no member `doc_count`.
    DocCount,
    /// The count of a bucket is no whole number.
    DocCountInteger,
    /// A bucket lacks the aggregation within it.
    SubAggregation,
    /// The aggregation within a bucket has no member `buckets`.
    SubBuckets,
    /// The buckets within a bucket are no array.
    SubBucketsArray,
    /// A bucket within a bucket has no member `key`.
    SubKey,
    /// The key of a bucket within a bucket is no string.
    SubKeyString,
    /// The key of a bucket within a bucket is no whole number.
    SubKeyInteger,
    /// The key of a bucket within a bucket is a time beyond the calendar.
    SubKeyDate,
}

/// The items of the member `buckets` of an aggregation.
pub open spec fn buckets_in(
    aggregation: JsonView,
    missing: QueryShapeError,
    no_array: QueryShapeError,
) -> Result<Seq<JsonView>, QueryShapeError> {
    match aggregation.lookup("buckets"@) {
        None => Err(missing),
        Some(buckets) => match buckets.items() {
            None => Err(no_array),
            Some(items) => Ok(items),
        },
    }
}

/// The buckets of the aggregation that an answer holds.
pub open spec fn response_buckets(response: JsonView) -> Result<Seq<JsonView>, QueryShapeError> {
    match response.lookup("aggregations"@) {
        None => Err(QueryShapeError::Aggregations),
        Some(aggregations) => match aggregations.lookup(AGGREGATION_KEY@) {
            None => Err(QueryShapeError::Aggregation),
            Some(aggregation) => buckets_in(
                aggregation,
                QueryShapeError::Buckets,
                QueryShapeError::BucketsArray,
            ),
        },
    }
}

/// The buckets of the aggregation within a bucket.
pub open spec fn inner_buckets(bucket: JsonView) -> Result<Seq<JsonView>, QueryShapeError> {
    match bucket.lookup(AGGREGATION_KEY@) {
        None => Err(QueryShapeError::SubAggregation),
        Some(aggregation) => buckets_in(
            aggregation,
            QueryShapeError::SubBuckets,
            QueryShapeError::SubBucketsArray,
        ),
    }
}

/// The string at the member `key` of a bucket.
pub open spec fn key_text(
    bucket: JsonView,
    missing: QueryShapeError,
    no_string: QueryShapeError,
) -> Result<Seq<char>, QueryShapeError> {
    match bucket.lookup("key"@) {
        None => Err(missing),
        Some(key) => match key.text() {
            None => Err(no_string),
            Some(text) => Ok(text),
        },
    }
}

/// The number of works in a bucket.
pub open spec fn doc_count(bucket: JsonView) -> Result<u64, QueryShapeError> {
    match bucket.lookup("doc_count"@) {
        None => Err(QueryShapeError::DocCount),
        Some(count) => match count.count() {
            None => Err(QueryShapeError::DocCountInteger),
            Some(n) => Ok(n),
        },
    }
}

/// What each of `items` holds, in their order, or what the first of them lacks that
/// lacks something.
pub open spec fn each<T>(
    items: Seq<JsonView>,
    read: spec_fn(JsonView) -> Result<T, QueryShapeError>,
) -> Result<Seq<T>, QueryShapeError>
    decreases items.len(),
{
    if items.len() == 0 {
        Ok(Seq::empty())
    } else {
        match each(items.drop_last(), read) {
            Err(e) => Err(e),
            Ok(values) => match read(items.last()) {
                Err(e) => Err(e),
                Ok(value) => Ok(values.push(value)),
            },
        }
    }
}

/// A tag and the number of works that have it.
pub open spec fn frequency(bucket: JsonView) -> Result<(Seq<char>, u64), QueryShapeError> {
    match key_text(bucket, QueryShapeError::BucketKey, QueryShapeError::BucketKeyString) {
        Err(e) => Err(e),
        Ok(tag) => match doc_count(bucket) {
            Err(e) => Err(e),
            Ok(n) => Ok((tag, n)),
        },
    }
}

/// `frequency`, as a value.
pub open spec fn reads_frequency() -> spec_fn(JsonView) -> Result<(Seq<char>, u64), QueryShapeError> {
    |bucket: JsonView| frequency(bucket)
}

/// The tags of an answer, each with the number of works that have it.
pub open spec fn frequencies(response: JsonView) -> Result<Seq<(Seq<char>, u64)>, QueryShapeError> {
    match response_buckets(response) {
        Err(e) => Err(e),
        Ok(buckets) => each(buckets, reads_frequency()),
    }
}

/// A tag that stands out among the works of a ship.
pub open spec fn significant_term(bucket: JsonView) -> Result<Seq<char>, QueryShapeError> {
    key_text(bucket, QueryShapeError::SubKey, QueryShapeError::SubKeyString)
}

/// `significant_term`, as a value.
pub open spec fn reads_significant_term() -> spec_fn(JsonView) -> Result<Seq<char>, QueryShapeError> {
    |term: JsonView| significant_term(term)
}

/// A ship and the tags that stand out among its works.
pub open spec fn significant(bucket: JsonView) -> Result<(Seq<char>, Seq<Seq<char>>), QueryShapeError> {
    match key_text(bucket, QueryShapeError::BucketKey, QueryShapeError::BucketKeyString) {
        Err(e) => Err(e),
        Ok(ship) => match inner_buckets(bucket) {
            Err(e) => Err(e),
            Ok(terms) => match each(terms, reads_significant_term()) {
                Err(e) => Err(e),
                Ok(tags) => Ok((ship, tags)),
            },
        },
    }
}

/// `significant`, as a value.
pub open spec fn reads_significant() -> spec_fn(JsonView) -> Result<
    (Seq<char>, Seq<Seq<char>>),
    QueryShapeError,
> {
    |bucket: JsonView| significant(bucket)
}

/// The ships of an answer, each with the tags that stand out among its works.
pub open spec fn significants(response: JsonView) -> Result<
    Seq<(Seq<char>, Seq<Seq<char>>)>,
    QueryShapeError,
> {
    match response_buckets(response) {
        Err(e) => Err(e),
        Ok(buckets) => each(buckets, reads_significant()),
    }
}

/// The day on which a span of time begins, and the number of works in the span. The key
/// of the bucket is the beginning of the span, in milliseconds since the start of 1970.
pub open spec fn month_point(bucket: JsonView) -> Result<(Date, u64), QueryShapeError> {
    match bucket.lookup("key"@) {
        None => Err(QueryShapeError::SubKey),
        Some(key) => match key.count() {
            None => Err(QueryShapeError::SubKeyInteger),
            Some(millis) => match timestamp_date(millis as int / 1000) {
                None => Err(QueryShapeError::SubKeyDate),
                Some(date) => match doc_count(bucket) {
                    Err(e) => Err(e),
                    Ok(n) => Ok((date, n)),
                },
            },
        },
    }
}

/// `month_point`, as a value.
pub open spec fn reads_month_point() -> spec_fn(JsonView) -> Result<(Date, u64), QueryShapeError> {
    |span: JsonView| month_point(span)
}

/// A ship and the number of its works in each span of time.
pub open spec fn history(bucket: JsonView) -> Result<(Seq<char>, Seq<(Date, u64)>), QueryShapeError> {
    match key_text(bucket, QueryShapeError::BucketKey, QueryShapeError::BucketKeyString) {
        Err(e) => Err(e),
        Ok(ship) => match inner_buckets(bucket) {
            Err(e) => Err(e),
            Ok(spans) => match each(spans, reads_month_point()) {
                Err(e) => Err(e),
                Ok(points) => Ok((ship, points)),
            },
        },
    }
}

/// `history`, as a value.
pub open spec fn reads_history() -> spec_fn(JsonView) -> Result<
    (Seq<char>, Seq<(Date, u64)>),
    QueryShapeError,
> {
    |bucket: JsonView| history(bucket)
}

/// The ships of an answer, each with the number of its works in each span of time.
pub open spec fn histories(response: JsonView) -> Result<
    Seq<(Seq<char>, Seq<(Date, u64)>)>,
    QueryShapeError,
> {
    match response_buckets(response) {
        Err(e) => Err(e),
        Ok(buckets) => each(buckets, reads_history()),
    }
}

/// What the first `k` items hold decides what all of them hold, as far as it goes.
pub proof fn lemma_each_step<T>(
    items: Seq<JsonView>,
    read: spec_fn(JsonView) -> Result<T, QueryShapeError>,
    k: int,
)
    requires
        0 <= k < items.len(),
    ensures
        each(items.take(k + 1), read) == match each(items.take(k), read) {
            Err(e) => Err(e),
            Ok(values) => match read(items[k]) {
                Err(e) => Err(e),
                Ok(value) => Ok(values.push(value)),
            },
        },
        each(items.take(k), read) is Err ==> each(items, read) == each(items.take(k), read),
        each(items.take(k + 1), read) is Err ==> each(items, read) == each(items.take(k + 1), read),
    decreases items.len() - k,
{
    assert(items.take(k + 1).drop_last() == items.take(k));
    assert(items.take(k + 1).last() == items[k]);
    if k + 1 < items.len() {
        lemma_each_step(items, read, k + 1);
    } else {
        assert(items.take(k + 1) == items);
    }
}

fn member_buckets<'a>(
    aggregation: &'a Json,
    missing: QueryShapeError,
    no_array: QueryShapeError,
) -> (r: Result<&'a Vec<Json>, QueryShapeError>)
    ensures
        match r {
            Ok(items) => buckets_in(aggregation@, missing, no_array) == Ok::<
                Seq<JsonView>,
                QueryShapeError,
            >(items.deep_view()),
            Err(e) => buckets_in(aggregation@, missing, no_array) == Err::<Seq<JsonView>, QueryShapeError>(
                e,
            ),
        },
{
    match aggregation.get("buckets") {
        None => Err(missing),
        Some(buckets) => match buckets.as_array() {
            None => Err(no_array),
            Some(items) => Ok(items),
        },
    }
}

fn buckets_of_response<'a>(response: &'a Json) -> (r: Result<&'a Vec<Json>, QueryShapeError>)
    ensures
        match r {
            Ok(items) => response_buckets(response@) == Ok::<Seq<JsonView>, QueryShapeError>(items.deep_view()),
            Err(e) => response_buckets(response@) == Err::<Seq<JsonView>, QueryShapeError>(e),
        },
{
    match response.get("aggregations") {
        None => Err(QueryShapeError::Aggregations),
        Some(aggregations) => match aggregations.get(AGGREGATION_KEY) {
            None => Err(QueryShapeError::Aggregation),
            Some(aggregation) => member_buckets(
                aggregation,
                QueryShapeError::Buckets,
                QueryShapeError::BucketsArray,
            ),
        },
    }
}

fn buckets_of_bucket<'a>(bucket: &'a Json) -> (r: Result<&'a Vec<Json>, QueryShapeError>)
    ensures
        match r {
            Ok(items) => inner_buckets(bucket@) == Ok::<Seq<JsonView>, QueryShapeError>(items.deep_view()),
            Err(e) => inner_buckets(bucket@) == Err::<Seq<JsonView>, QueryShapeError>(e),
        },
{
    match bucket.get(AGGREGATION_KEY) {
        None => Err(QueryShapeError::SubAggregation),
        Some(aggregation) => member_buckets(
            aggregation,
            QueryShapeError::SubBuckets,
            QueryShapeError::SubBucketsArray,
        ),
    }
}

fn key_of(bucket: &Json, missing: QueryShapeError, no_string: QueryShapeError) -> (r: Result<
    String,
    QueryShapeError,
>)
    ensures
        match r {
            Ok(text) => key_text(bucket@, missing, no_string) == Ok::<Seq<char>, QueryShapeError>(
                text@,
            ),
            Err(e) => key_text(bucket@, missing, no_string) == Err::<Seq<char>, QueryShapeError>(e),
        },
{
    match bucket.get("key") {
        None => Err(missing),
        Some(key) => match key.as_str() {
            None => Err(no_string),
            Some(text) => Ok(String::from_str(text)),
        },
    }
}

fn count_of_bucket(bucket: &Json) -> (r: Result<u64, QueryShapeError>)
    ensures
        r == doc_count(bucket@),
{
    match bucket.get("doc_count") {
        None => Err(QueryShapeError::DocCount),
        Some(count) => match count.as_u64() {
            None => Err(QueryShapeError::DocCountInteger),
            Some(n) => Ok(n),
        },
    }
}

/// Reads the answer to a query for the most frequent tags of one kind: each tag with
/// the number of works that have it, in the order of the answer. An answer of another
/// shape gives no tags: the error says what the answer lacks, at the first place where
/// it lacks something.
pub fn ship_frequencies(response: &Json) -> (r: Result<Vec<(String, u64)>, QueryShapeError>)
    ensures
        match r {
            Ok(pairs) => frequencies(response@) == Ok::<Seq<(Seq<char>, u64)>, QueryShapeError>(
                pairs.deep_view(),
            ),
            Err(e) => frequencies(response@) == Err::<Seq<(Seq<char>, u64)>, QueryShapeError>(e),
        },
{
    let buckets = buckets_of_response(response)?;
    let ghost read = reads_frequency();
    let mut out: Vec<(String, u64)> = Vec::new();
    let mut i: usize = 0;
    assert(buckets.deep_view().take(0) =~= Seq::empty());
    assert(out.deep_view() =~= Seq::empty());
    while i < buckets.len()
        invariant
            i <= buckets.len(),
            read == reads_frequency(),
            response_buckets(response@) == Ok::<Seq<JsonView>, QueryShapeError>(buckets.deep_view()),
            each(buckets.deep_view().take(i as int), read) == Ok::<Seq<(Seq<char>, u64)>, QueryShapeError>(
                out.deep_view(),
            ),
        decreases buckets.len() - i,
    {
        proof {
            lemma_each_step(buckets.deep_view(), read, i as int);
        }
        let tag = key_of(&buckets[i], QueryShapeError::BucketKey, QueryShapeError::BucketKeyString)?;
        let n = count_of_bucket(&buckets[i])?;
        let ghost before = out.deep_view();
        let ghost item = (tag@, n);
        out.push((tag, n));
        assert(out.deep_view() =~= before.push(item));
        i += 1;
    }
    assert(buckets.deep_view().take(buckets.len() as int) == buckets.deep_view());
    Ok(out)
}

/// The tags that stand out among the works of one ship.
fn significant_terms(bucket: &Json) -> (r: Result<Vec<String>, QueryShapeError>)
    ensures
        match r {
            Ok(tags) => inner_buckets(bucket@) matches Ok(terms) && each(
                terms,
                reads_significant_term(),
            ) == Ok::<Seq<Seq<char>>, QueryShapeError>(tags.deep_view()),
            Err(e) => match inner_buckets(bucket@) {
                Err(lack) => e == lack,
                Ok(terms) => each(terms, reads_significant_term()) == Err::<
                    Seq<Seq<char>>,
                    QueryShapeError,
                >(e),
            },
        },
{
    let terms = buckets_of_bucket(bucket)?;
    let ghost read = reads_significant_term();
    let mut out: Vec<String> = Vec::new();
    let mut i: usize = 0;
    assert(terms.deep_view().take(0) =~= Seq::empty());
    assert(out.deep_view() =~= Seq::empty());
    while i < terms.len()
        invariant
            i <= terms.len(),
            read == reads_significant_term(),
            inner_buckets(bucket@) == Ok::<Seq<JsonView>, QueryShapeError>(terms.deep_view()),
            each(terms.deep_view().take(i as int), read) == Ok::<Seq<Seq<char>>, QueryShapeError>(
                out.deep_view(),
            ),
        decreases terms.len() - i,
    {
        proof {
            lemma_each_step(terms.deep_view(), read, i as int);
        }
        let tag = key_of(&terms[i], QueryShapeError::SubKey, QueryShapeError::SubKeyString)?;
        let ghost before = out.deep_view();
        let ghost item = tag@;
        out.push(tag);
        assert(out.deep_view() =~= before.push(item));
        i += 1;
    }
    assert(terms.deep_view().take(terms.len() as int) == terms.deep_view());
    Ok(out)
}

/// Reads the answer to a query for the tags that stand out among the works of the most
/// frequent ships: each ship with those tags, in the order of the answer. An answer of
/// another shape gives nothing: the error says what the answer lacks, at the first place
/// where it lacks something.
pub fn significant_tags(response: &Json) -> (r: Result<
    Vec<(String, Vec<String>)>,
    QueryShapeError,
>)
    ensures
        match r {
            Ok(ships) => significants(response@) == Ok::<
                Seq<(Seq<char>, Seq<Seq<char>>)>,
                QueryShapeError,
            >(ships.deep_view()),
            Err(e) => significants(response@) == Err::<
                Seq<(Seq<char>, Seq<Seq<char>>)>,
                QueryShapeError,
            >(e),
        },
{
    let buckets = buckets_of_response(response)?;
    let ghost read = reads_significant();
    let mut out: Vec<(String, Vec<String>)> = Vec::new();
    let mut i: usize = 0;
    assert(buckets.deep_view().take(0) =~= Seq::empty());
    assert(out.deep_view() =~= Seq::empty());
    while i < buckets.len()
        invariant
            i <= buckets.len(),
            read == reads_significant(),
            response_buckets(response@) == Ok::<Seq<JsonView>, QueryShapeError>(buckets.deep_view()),
            each(buckets.deep_view().take(i as int), read) == Ok::<
                Seq<(Seq<char>, Seq<Seq<char>>)>,
                QueryShapeError,
            >(out.deep_view()),
        decreases buckets.len() - i,
    {
        proof {
            lemma_each_step(buckets.deep_view(), read, i as int);
        }
        let ship = key_of(&buckets[i], QueryShapeError::BucketKey, QueryShapeError::BucketKeyString)?;
        let tags = significant_terms(&buckets[i])?;
        let ghost before = out.deep_view();
        let ghost item = (ship@, tags.deep_view());
        out.push((ship, tags));
        assert(out.deep_view() =~= before.push(item));
        i += 1;
    }
    assert(buckets.deep_view().take(buckets.len() as int) == buckets.deep_view());
    Ok(out)
}

/// The day on which one span of time begins, and the number of works in it.
fn point_of(span: &Json) -> (r: Result<(Date, u64), QueryShapeError>)
    ensures
        r == month_point(span@),
{
    match span.get("key") {
        None => Err(QueryShapeError::SubKey),
        Some(key) => match key.as_u64() {
            None => Err(QueryShapeError::SubKeyInteger),
            Some(millis) => match date_of_timestamp((millis / 1000) as i64) {
                None => Err(QueryShapeError::SubKeyDate),
                Some(date) => match count_of_bucket(span) {
                    Err(e) => Err(e),
                    Ok(n) => Ok((date, n)),
                },
            },
        },
    }
}

/// The number of works of one ship in each span of time.
fn points_of(bucket: &Json) -> (r: Result<Vec<(Date, u64)>, QueryShapeError>)
    ensures
        match r {
            Ok(points) => inner_buckets(bucket@) matches Ok(spans) && each(
                spans,
                reads_month_point(),
            ) == Ok::<Seq<(Date, u64)>, QueryShapeError>(points.deep_view()),
            Err(e) => match inner_buckets(bucket@) {
                Err(lack) => e == lack,
                Ok(spans) => each(spans, reads_month_point()) == Err::<
                    Seq<(Date, u64)>,
                    QueryShapeError,
                >(e),
            },
        },
{
    let spans = buckets_of_bucket(bucket)?;
    let ghost read = reads_month_point();
    let mut out: Vec<(Date, u64)> = Vec::new();
    let mut i: usize = 0;
    assert(spans.deep_view().take(0) =~= Seq::empty());
    assert(out.deep_view() =~= Seq::empty());
    while i < spans.len()
        invariant
            i <= spans.len(),
            read == reads_month_point(),
            inner_buckets(bucket@) == Ok::<Seq<JsonView>, QueryShapeError>(spans.deep_view()),
            each(spans.deep_view().take(i as int), read) == Ok::<Seq<(Date, u64)>, QueryShapeError>(
                out.deep_view(),
            ),
        decreases spans.len() - i,
    {
        proof {
            lemma_each_step(spans.deep_view(), read, i as int);
        }
        let point = point_of(&spans[i])?;
        let ghost before = out.deep_view();
        out.push(point);
        assert(out.deep_view() =~= before.push(point));
        i += 1;
    }
    assert(spans.deep_view().take(spans.len() as int) == spans.deep_view());
    Ok(out)
}

/// Reads the answer to a query for the works of the most frequent ships over time: each
/// ship with the number of its works in each span of time, and the day on which the span
/// begins, in the order of the answer. An answer of another shape gives nothing: the
/// error says what the answer lacks, at the first place where it lacks something.
pub fn ship_histogram(response: &Json) -> (r: Result<
    Vec<(String, Vec<(Date, u64)>)>,
    QueryShapeError,
>)
    ensures
        match r {
            Ok(ships) => histories(response@) == Ok::<
                Seq<(Seq<char>, Seq<(Date, u64)>)>,
                QueryShapeError,
            >(ships.deep_view()),
            Err(e) => histories(response@) == Err::<
                Seq<(Seq<char>, Seq<(Date, u64)>)>,
                QueryShapeError,
            >(e),
        },
{
    let buckets = buckets_of_response(response)?;
    let ghost read = reads_history();
    let mut out: Vec<(String, Vec<(Date, u64)>)> = Vec::new();
    let mut i: usize = 0;
    assert(buckets.deep_view().take(0) =~= Seq::empty());
    assert(out.deep_view() =~= Seq::empty());
    while i < buckets.len()
        invariant
            i <= buckets.len(),
            read == reads_history(),
            response_buckets(response@) == Ok::<Seq<JsonView>, QueryShapeError>(buckets.deep_view()),
            each(buckets.deep_view().take(i as int), read) == Ok::<
                Seq<(Seq<char>, Seq<(Date, u64)>)>,
                QueryShapeError,
            >(out.deep_view()),
        decreases buckets.len() - i,
    {
        proof {
            lemma_each_step(buckets.deep_view(), read, i as int);
        }
        let ship = key_of(&buckets[i], QueryShapeError::BucketKey, QueryShapeError::BucketKeyString)?;
        let points = points_of(&buckets[i])?;
        let ghost before = out.deep_view();
        let ghost item = (ship@, points.deep_view());
        out.push((ship, points));
        assert(out.deep_view() =~= before.push(item));
        i += 1;
    }
    assert(buckets.deep_view().take(buckets.len() as int) == buckets.deep_view());
    Ok(out)
}

/// The order of the buckets of a query: the most frequent first.
pub open spec fn by_count() -> JsonView {
    JsonView::Object(seq![("_count"@, JsonView::Text("desc"@))])
}

/// The filter that lets every work pass.
pub open spec fn match_all() -> JsonView {
    JsonView::Object(seq![("match_all"@, JsonView::Object(Seq::empty()))])
}

/// An object with the one member `aggregation`, under the name that the answers are
/// read by.
pub open spec fn keyed(aggregation: JsonView) -> JsonView {
    JsonView::Object(seq![(AGGREGATION_KEY@, aggregation)])
}

/// The query for the tags of `field` that at least `min_works` works have, at most
/// `limit` of them, the most frequent first, among the works that pass `filter`, or
/// among all works.
pub open spec fn frequencies_query(
    min_works: usize,
    limit: usize,
    field: TagKind,
    filter: Option<JsonView>,
) -> JsonView {
    JsonView::Object(
        seq![
            (
                "aggs"@,
                keyed(
                    JsonView::Object(
                        seq![
                            (
                                "terms"@,
                                JsonView::Object(
                                    seq![
                                        ("field"@, JsonView::Text(field.field() + ".keyword"@)),
                                        ("min_doc_count"@, JsonView::Count(min_works as u64)),
                                        ("size"@, JsonView::Count(limit as u64)),
                                        ("order"@, by_count()),
                                    ],
                                ),
                            ),
                        ],
                    ),
                ),
            ),
            ("size"@, JsonView::Count(0)),
            (
                "query"@,
                match filter {
                    Some(filter) => filter,
                    None => match_all(),
                },
            ),
        ],
    )
}

/// The query for the ships that at least `min_works` works have, at most `limit` of
/// them, the most frequent first, each with the tags of `field` that stand out among its
/// works.
pub open spec fn significant_query(min_works: usize, limit: usize, field: TagKind) -> JsonView {
    JsonView::Object(
        seq![
            (
                "aggs"@,
                keyed(
                    JsonView::Object(
                        seq![
                            (
                                "terms"@,
                                JsonView::Object(
                                    seq![
                                        (
                                            "field"@,
                                            JsonView::Text(
                                                TagKind::Relationship.field() + ".keyword"@,
                                            ),
                                        ),
                                        ("min_doc_count"@, JsonView::Count(min_works as u64)),
                                        ("size"@, JsonView::Count(limit as u64)),
                                        ("order"@, by_count()),
                                    ],
                                ),
                            ),
                            (
                                "aggs"@,
                                keyed(
                                    JsonView::Object(
                                        seq![
                                            (
                                                "significant_terms"@,
                                                JsonView::Object(
                                                    seq![
                                                        (
                                                            "field"@,
                                                            JsonView::Text(
                                                                field.field() + ".keyword"@,
                                                            ),
                                                        ),
                                                    ],
                                                ),
                                            ),
                                        ],
                                    ),
                                ),
                            ),
                        ],
                    ),
                ),
            ),
            ("size"@, JsonView::Count(0)),
        ],
    )
}

/// The query for the `limit` most frequent ships, each with the number of its works in
/// each month.
pub open spec fn histogram_query(limit: usize) -> JsonView {
    JsonView::Object(
        seq![
            (
                "aggs"@,
                keyed(
                    JsonView::Object(
                        seq![
                            (
                                "terms"@,
                                JsonView::Object(
                                    seq![
                                        (
                                            "field"@,
                                            JsonView::Text(
                                                TagKind::Relationship.field() + ".keyword"@,
                                            ),
                                        ),
                                        ("order"@, by_count()),
                                        ("size"@, JsonView::Count(limit as u64)),
                                    ],
                                ),
                            ),
                            (
                                "aggs"@,
                                keyed(
                                    JsonView::Object(
                                        seq![
                                            (
                                                "date_histogram"@,
                                                JsonView::Object(
                                                    seq![
                                                        ("field"@, JsonView::Text("date"@)),
                                                        (
                                                            "calendar_interval"@,
                                                            JsonView::Text("1M"@),
                                                        ),
                                                        ("min_doc_count"@, JsonView::Count(0)),
                                                    ],
                                                ),
                                            ),
                                        ],
                                    ),
                                ),
                            ),
                        ],
                    ),
                ),
            ),
            ("size"@, JsonView::Count(0)),
            (
                "docvalue_fields"@,
                JsonView::Array(
                    seq![
                        JsonView::Object(
                            seq![
                                ("field"@, JsonView::Text("date"@)),
                                ("format"@, JsonView::Text("date_time"@)),
                            ],
                        ),
                    ],
                ),
            ),
            ("query"@, match_all()),
        ],
    )
}

/// How the index is to keep one field: as values of `kind`.
pub open spec fn kept_as(kind: Seq<char>) -> JsonView {
    JsonView::Object(seq![("type"@, JsonView::Text(kind))])
}

/// How the index is to keep the fields of a work.
pub open spec fn works_mapping() -> JsonView {
    JsonView::Object(
        seq![
            (
                "properties"@,
                JsonView::Object(
                    seq![
                        ("id"@, kept_as("keyword"@)),
                        ("title"@, kept_as("text"@)),
                        ("author"@, kept_as("keyword"@)),
                        (TagKind::Relationship.field(), kept_as("keyword"@)),
                        (TagKind::Character.field(), kept_as("keyword"@)),
                        (TagKind::Freeform.field(), kept_as("keyword"@)),
                        ("date"@, kept_as("date"@)),
                        ("language"@, kept_as("keyword"@)),
                        ("words"@, kept_as("long"@)),
                        ("kudos"@, kept_as("long"@)),
                        ("hits"@, kept_as("long"@)),
                    ],
                ),
            ),
        ],
    )
}

/// The object with the one member `name`.
fn object_of(name: &str, value: Json) -> (r: Json)
    ensures
        r@ == JsonView::Object(seq![(name@, value@)]),
{
    let mut members: Vec<(String, Json)> = Vec::new();
    assert(members.deep_view() =~= Seq::empty());
    put(&mut members, name, value);
    let r = Json::object(members);
    assert(r@->Object_0 =~= seq![(name@, value@)]);
    r
}

/// The part of a query that asks for the values of `field`, the most frequent first.
fn terms_of(field: TagKind, min_works: Option<usize>, limit: usize) -> (r: Json)
    ensures
        r@ == JsonView::Object(
            match min_works {
                Some(least) => seq![
                    ("field"@, JsonView::Text(field.field() + ".keyword"@)),
                    ("min_doc_count"@, JsonView::Count(least as u64)),
                    ("size"@, JsonView::Count(limit as u64)),
                    ("order"@, by_count()),
                ],
                None => seq![
                    ("field"@, JsonView::Text(field.field() + ".keyword"@)),
                    ("order"@, by_count()),
                    ("size"@, JsonView::Count(limit as u64)),
                ],
            },
        ),
{
    let mut members: Vec<(String, Json)> = Vec::new();
    assert(members.deep_view() =~= Seq::empty());
    put(&mut members, "field", Json::Text(field.to_keyword_field()));
    match min_works {
        Some(least) => {
            put(&mut members, "min_doc_count", Json::Count(least as u64));
            put(&mut members, "size", Json::Count(limit as u64));
            put(&mut members, "order", object_of("_count", Json::text("desc")));
        },
        None => {
            put(&mut members, "order", object_of("_count", Json::text("desc")));
            put(&mut members, "size", Json::Count(limit as u64));
        },
    }
    let r = Json::object(members);
    proof {
        match min_works {
            Some(least) => {
                assert(r@->Object_0 =~= seq![
                    ("field"@, JsonView::Text(field.field() + ".keyword"@)),
                    ("min_doc_count"@, JsonView::Count(least as u64)),
                    ("size"@, JsonView::Count(limit as u64)),
                    ("order"@, by_count()),
                ]);
            },
            None => {
                assert(r@->Object_0 =~= seq![
                    ("field"@, JsonView::Text(field.field() + ".keyword"@)),
                    ("order"@, by_count()),
                    ("size"@, JsonView::Count(limit as u64)),
                ]);
            },
        }
    }
    r
}

/// The filter that lets every work pass.
fn all_works() -> (r: Json)
    ensures
        r@ == match_all(),
{
    let inner = Json::object(Vec::new());
    assert(inner@->Object_0 =~= Seq::empty());
    object_of("match_all", inner)
}

/// The query whose answer `ship_frequencies` reads: for the tags of `field` that at
/// least `min_works` works have, at most `limit` of them, the most frequent first, among
/// the works that pass `filter`, or among all works where there is no filter.
pub fn ship_frequencies_query(
    min_works: usize,
    limit: usize,
    field: TagKind,
    filter: Option<Json>,
) -> (r: Json)
    ensures
        r@ == frequencies_query(min_works, limit, field, filter.deep_view()),
{
    let ghost wanted = frequencies_query(min_works, limit, field, filter.deep_view());
    let terms = object_of("terms", terms_of(field, Some(min_works), limit));
    let query = match filter {
        Some(filter) => filter,
        None => all_works(),
    };
    let mut members: Vec<(String, Json)> = Vec::new();
    assert(members.deep_view() =~= Seq::empty());
    put(&mut members, "aggs", object_of(AGGREGATION_KEY, terms));
    put(&mut members, "size", Json::Count(0));
    put(&mut members, "query", query);
    let r = Json::object(members);
    assert(r@->Object_0 =~= wanted->Object_0);
    r
}

/// The query whose answer `significant_tags` reads: for the ships that at least
/// `min_works` works have, at most `limit` of them, the most frequent first, each with
/// the tags of `field` that stand out among its works.
pub fn significant_tags_query(min_works: usize, limit: usize, field: TagKind) -> (r: Json)
    ensures
        r@ == significant_query(min_works, limit, field),
{
    let ghost wanted = significant_query(min_works, limit, field);
    let inner = object_of(
        "significant_terms",
        object_of("field", Json::Text(field.to_keyword_field())),
    );
    let mut aggregation: Vec<(String, Json)> = Vec::new();
    assert(aggregation.deep_view() =~= Seq::empty());
    put(&mut aggregation, "terms", terms_of(TagKind::Relationship, Some(min_works), limit));
    put(&mut aggregation, "aggs", object_of(AGGREGATION_KEY, inner));
    let aggregation = Json::object(aggregation);
    assert(aggregation@->Object_0 =~= wanted->Object_0[0].1->Object_0[0].1->Object_0);
    let mut members: Vec<(String, Json)> = Vec::new();
    assert(members.deep_view() =~= Seq::empty());
    put(&mut members, "aggs", object_of(AGGREGATION_KEY, aggregation));
    put(&mut members, "size", Json::Count(0));
    let r = Json::object(members);
    assert(r@->Object_0 =~= wanted->Object_0);
    r
}

/// The query whose answer `ship_histogram` reads: for the `limit` most frequent ships,
/// each with the number of its works in each month.
pub fn ship_histogram_query(limit: usize) -> (r: Json)
    ensures
        r@ == histogram_query(limit),
{
    let ghost wanted = histogram_query(limit);
    let mut months: Vec<(String, Json)> = Vec::new();
    assert(months.deep_view() =~= Seq::empty());
    put(&mut months, "field", Json::text("date"));
    put(&mut months, "calendar_interval", Json::text("1M"));
    put(&mut months, "min_doc_count", Json::Count(0));
    let months = Json::object(months);
    assert(months@->Object_0 =~= seq![
        ("field"@, JsonView::Text("date"@)),
        ("calendar_interval"@, JsonView::Text("1M"@)),
        ("min_doc_count"@, JsonView::Count(0)),
    ]);
    let inner = object_of("date_histogram", months);
    let mut aggregation: Vec<(String, Json)> = Vec::new();
    assert(aggregation.deep_view() =~= Seq::empty());
    put(&mut aggregation, "terms", terms_of(TagKind::Relationship, None, limit));
    put(&mut aggregation, "aggs", object_of(AGGREGATION_KEY, inner));
    let aggregation = Json::object(aggregation);
    assert(aggregation@->Object_0 =~= wanted->Object_0[0].1->Object_0[0].1->Object_0);
    let mut date_field: Vec<(String, Json)> = Vec::new();
    assert(date_field.deep_view() =~= Seq::empty());
    put(&mut date_field, "field", Json::text("date"));
    put(&mut date_field, "format", Json::text("date_time"));
    let date_field = Json::object(date_field);
    assert(date_field@->Object_0 =~= seq![
        ("field"@, JsonView::Text("date"@)),
        ("format"@, JsonView::Text("date_time"@)),
    ]);
    let mut fields: Vec<Json> = Vec::new();
    fields.push(date_field);
    let fields = Json::array(fields);
    assert(fields@->Array_0 =~= seq![date_field@]);
    let mut members: Vec<(String, Json)> = Vec::new();
    assert(members.deep_view() =~= Seq::empty());
    put(&mut members, "aggs", object_of(AGGREGATION_KEY, aggregation));
    put(&mut members, "size", Json::Count(0));
    put(&mut members, "docvalue_fields", fields);
    put(&mut members, "query", all_works());
    let r = Json::object(members);
    assert(r@->Object_0 =~= wanted->Object_0);
    r
}

/// How the index is to keep one field.
fn keep_as(kind: &str) -> (r: Json)
    ensures
        r@ == kept_as(kind@),
{
    object_of("type", Json::text(kind))
}

/// What tells the index how to keep the fields of a work: the tags, the identifier, the
/// author and the language as they are, the title as text to search in, the date as a
/// date and the statistics as numbers.
pub fn works_index_mapping() -> (r: Json)
    ensures
        r@ == works_mapping(),
{
    let ghost wanted = works_mapping();
    let mut fields: Vec<(String, Json)> = Vec::new();
    assert(fields.deep_view() =~= Seq::empty());
    put(&mut fields, "id", keep_as("keyword"));
    put(&mut fields, "title", keep_as("text"));
    put(&mut fields, "author", keep_as("keyword"));
    put(&mut fields, TagKind::Relationship.to_field(), keep_as("keyword"));
    put(&mut fields, TagKind::Character.to_field(), keep_as("keyword"));
    put(&mut fields, TagKind::Freeform.to_field(), keep_as("keyword"));
    put(&mut fields, "date", keep_as("date"));
    put(&mut fields, "language", keep_as("keyword"));
    put(&mut fields, "words", keep_as("long"));
    put(&mut fields, "kudos", keep_as("long"));
    put(&mut fields, "hits", keep_as("long"));
    let fields = Json::object(fields);
    assert(fields@->Object_0 =~= wanted->Object_0[0].1->Object_0);
    object_of("properties", fields)
}

} // verus!
