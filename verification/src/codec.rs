use vstd::prelude::*;

verus! {

/// The JSON array that serializing a list of strings writes.
pub uninterp spec fn tags_json(tags: Seq<Seq<char>>) -> Seq<char>;

/// The list of strings read back out of `s`, or nothing where `s` is not a
/// JSON array of strings.
pub uninterp spec fn parsed_tags(s: Seq<char>) -> Option<Seq<Seq<char>>>;

/// The string under the reserved project key of the property bag `s`, where
/// `s` parses as a JSON object holding one.
pub uninterp spec fn props_project(s: Seq<char>) -> Option<Seq<char>>;

/// The property bag written after reading `old` (an absent or unreadable
/// bag counts as empty) and, where `project` gives one, setting the
/// reserved project key to it.
pub uninterp spec fn props_updated(old: Option<Seq<char>>, project: Option<Seq<char>>) -> Seq<char>;

/// Epoch seconds of `s` read as an RFC3339 datetime.
pub uninterp spec fn rfc3339_secs(s: Seq<char>) -> Option<i64>;

/// Epoch seconds of `s` read as a naive `YYYY-MM-DDTHH:MM:SS` datetime in UTC.
pub uninterp spec fn naive_secs(s: Seq<char>) -> Option<i64>;

/// Epoch seconds of midnight UTC of `s` read as a `YYYY-MM-DD` date.
pub uninterp spec fn date_secs(s: Seq<char>) -> Option<i64>;

/// The project a stored property bag names, where there is a bag at all.
pub open spec fn stored_project(props: Option<Seq<char>>) -> Option<Seq<char>> {
    match props {
        Some(s) => props_project(s),
        None => None,
    }
}

/// Relies on serde_json::to_string: a list of strings always serializes,
/// and parsing the array it writes gives the same list back.
#[verifier::external_body]
pub fn encode_tags(tags: &Vec<String>) -> (r: String)
    ensures
        r@ == tags_json(tags.deep_view()),
        parsed_tags(r@) == Some(tags.deep_view()),
{
    serde_json::to_string(tags).unwrap()
}

/// Relies on serde_json::from_str for a list of strings.
#[verifier::external_body]
pub fn decode_tags(s: &str) -> (r: Option<Vec<String>>)
    ensures
        r.deep_view() == parsed_tags(s@),
{
    serde_json::from_str::<Vec<String>>(s).ok()
}

/// Relies on serde_json::from_str for a JSON object, Value::get and
/// Value::as_str: reads the string under the reserved project key.
#[verifier::external_body]
pub fn project_in_props(s: &str) -> (r: Option<String>)
    ensures
        r.deep_view() == props_project(s@),
{
    serde_json::from_str::<serde_json::Value>(s)
        .ok()
        .and_then(|v| v.get("X-PROJECT")?.as_str().map(|p| p.to_string()))
}

/// Relies on serde_json::from_str, index assignment on an object Value and
/// Value::to_string: reads `old` (empty object where absent, unreadable or
/// not an object), sets the reserved project key where `project` gives one,
/// and writes the object back out; the key set this way reads back as set,
/// and with no project given the bag keeps the project it had.
#[verifier::external_body]
pub fn update_props(old: &Option<String>, project: &Option<String>) -> (r: String)
    ensures
        r@ == props_updated(old.deep_view(), project.deep_view()),
        props_project(r@) == (match project {
            Some(p) => Some(p@),
            None => stored_project(old.deep_view()),
        }),
{
    let mut v: serde_json::Value = match old {
        Some(s) => serde_json::from_str(s)
            .unwrap_or_else(|_| serde_json::Value::Object(serde_json::Map::new())),
        None => serde_json::Value::Object(serde_json::Map::new()),
    };
    if !v.is_object() {
        v = serde_json::Value::Object(serde_json::Map::new());
    }
    if let Some(p) = project {
        v["X-PROJECT"] = serde_json::Value::String(p.clone());
    }
    v.to_string()
}

/// Relies on uuid::Uuid::new_v4 and its Display form: a fresh random
/// identifier written as 36 hyphenated hex characters. The draw is random,
/// so no more than the length is promised; and it aborts the process where
/// the operating system's randomness source fails, an environment fault
/// this library's no-panic promise does not reach.
#[verifier::external_body]
pub fn fresh_uid() -> (r: String)
    ensures
        r@.len() == 36,
{
    uuid::Uuid::new_v4().to_string()
}

/// Relies on chrono::DateTime::parse_from_rfc3339 and DateTime::timestamp.
#[verifier::external_body]
fn parse_rfc3339_secs(s: &str) -> (r: Option<i64>)
    ensures
        r == rfc3339_secs(s@),
{
    chrono::DateTime::parse_from_rfc3339(s).ok().map(|dt| dt.timestamp())
}

/// Relies on chrono::NaiveDateTime::parse_from_str with a fixed format,
/// NaiveDateTime::and_utc and DateTime::timestamp.
#[verifier::external_body]
fn parse_naive_secs(s: &str) -> (r: Option<i64>)
    ensures
        r == naive_secs(s@),
{
    chrono::NaiveDateTime::parse_from_str(s, "%Y-%m-%dT%H:%M:%S")
        .ok()
        .map(|dt| dt.and_utc().timestamp())
}

/// Relies on chrono::NaiveDate::parse_from_str with a fixed format,
/// NaiveDate::and_hms_opt, NaiveDateTime::and_utc and DateTime::timestamp.
#[verifier::external_body]
fn parse_date_secs(s: &str) -> (r: Option<i64>)
    ensures
        r == date_secs(s@),
{
    chrono::NaiveDate::parse_from_str(s, "%Y-%m-%d")
        .ok()
        .and_then(|d| d.and_hms_opt(0, 0, 0))
        .map(|dt| dt.and_utc().timestamp())
}

/// The derived absolute time of a due or wait display string: RFC3339
/// first, then the naive datetime shape, then the bare date at midnight
/// UTC; none where nothing parses.
pub open spec fn parsed_timestamp(s: Seq<char>) -> Option<i64> {
    if rfc3339_secs(s) is Some {
        rfc3339_secs(s)
    } else if naive_secs(s) is Some {
        naive_secs(s)
    } else {
        date_secs(s)
    }
}

/// The derived absolute time of an optional display string.
pub open spec fn parsed_opt_timestamp(s: Option<Seq<char>>) -> Option<i64> {
    match s {
        Some(x) => parsed_timestamp(x),
        None => None,
    }
}

/// Reads a due or wait display string into epoch seconds, trying the
/// accepted shapes in preference order. An unparseable string simply
/// yields no derived value; it never fails the surrounding operation.
pub fn parse_datetime_to_timestamp(s: &str) -> (r: Option<i64>)
    ensures
        r == parsed_timestamp(s@),
{
    let r1 = parse_rfc3339_secs(s);
    if r1.is_some() {
        return r1;
    }
    let r2 = parse_naive_secs(s);
    if r2.is_some() {
        return r2;
    }
    parse_date_secs(s)
}

/// Reads an optional due or wait display string into epoch seconds.
pub fn parse_opt_datetime(s: &Option<String>) -> (r: Option<i64>)
    ensures
        r == parsed_opt_timestamp(s.deep_view()),
{
    match s {
        Some(x) => parse_datetime_to_timestamp(x.as_str()),
        None => None,
    }
}

} // verus!
