//! The candidate model: one metadata-catalog search result, with every field
//! the pipeline reads held as an explicitly optional plain value, and the
//! defensive identifier/image extraction over it.

use vstd::prelude::*;

use crate::text::chars_of;
use crate::text::parse_i64;
use crate::text::parsed_i64;

verus! {

/// A value found under one of the identifier keys of a search result: an
/// integer, a string (possibly numeric), or a value of some other type.
#[derive(Clone, Debug)]
pub enum IdValue {
    Num(i64),
    Text(String),
    Other,
}

/// One catalog search result. Fields absent from the raw record are `None`;
/// `raw_text` holds the record's full textual serialization, which the scorer
/// scans for genre hints.
#[derive(Clone, Debug)]
pub struct CandidateRecord {
    /// The `tvdb_id` key.
    pub tvdb_id: Option<IdValue>,
    /// The `id` key.
    pub id: Option<IdValue>,
    /// The `objectID` key.
    pub object_id_upper: Option<IdValue>,
    /// The `objectId` key.
    pub object_id_camel: Option<IdValue>,
    /// The `object_id` key.
    pub object_id_snake: Option<IdValue>,
    /// The `image_url` key, when it holds a string.
    pub image_url: Option<String>,
    /// The `image` key, when it holds a string.
    pub image: Option<String>,
    /// The `primary_language` key.
    pub primary_language: Option<String>,
    /// The `type` key: `"series"` or `"movie"` for the records this pipeline
    /// acts on.
    pub media_kind: Option<String>,
    /// The `name` key.
    pub name: Option<String>,
    /// The `slug` key.
    pub slug: Option<String>,
    /// The `translations.eng` key.
    pub eng_translation: Option<String>,
    /// The `aliases` key: every string element, in order.
    pub aliases: Vec<String>,
    /// The record's full textual serialization.
    pub raw_text: String,
}

/// The identifier an id-keyed value coerces to: an integer as itself, a
/// string through decimal parsing, anything else to nothing.
pub open spec fn id_of_value(v: Option<IdValue>) -> Option<int> {
    match v {
        Some(IdValue::Num(n)) => Some(n as int),
        Some(IdValue::Text(s)) => parsed_i64(s@),
        _ => None,
    }
}

/// The record's identifier: the id keys are tried in the fixed order
/// `tvdb_id`, `id`, `objectID`, `objectId`, `object_id`; the first key that
/// is present decides, and a present value that does not coerce yields no
/// identifier at all.
pub open spec fn spec_tvdb_id(c: CandidateRecord) -> Option<int> {
    if c.tvdb_id is Some {
        id_of_value(c.tvdb_id)
    } else if c.id is Some {
        id_of_value(c.id)
    } else if c.object_id_upper is Some {
        id_of_value(c.object_id_upper)
    } else if c.object_id_camel is Some {
        id_of_value(c.object_id_camel)
    } else {
        id_of_value(c.object_id_snake)
    }
}

fn slot_id(v: &Option<IdValue>) -> (r: Option<i64>)
    ensures
        match r {
            Some(n) => id_of_value(*v) == Some(n as int),
            None => id_of_value(*v) is None,
        },
{
    match v {
        Option::Some(IdValue::Num(n)) => Some(*n),
        Option::Some(IdValue::Text(s)) => {
            let cs = chars_of(s.as_str());
            parse_i64(&cs)
        },
        _ => None,
    }
}

pub fn extract_tvdb_id(c: &CandidateRecord) -> (r: Option<i64>)
    ensures
        match r {
            Some(n) => spec_tvdb_id(*c) == Some(n as int),
            None => spec_tvdb_id(*c) is None,
        },
{
    if c.tvdb_id.is_some() {
        return slot_id(&c.tvdb_id);
    }
    if c.id.is_some() {
        return slot_id(&c.id);
    }
    if c.object_id_upper.is_some() {
        return slot_id(&c.object_id_upper);
    }
    if c.object_id_camel.is_some() {
        return slot_id(&c.object_id_camel);
    }
    slot_id(&c.object_id_snake)
}

/// The record's image: the `image_url` key, else the `image` key.
pub open spec fn spec_image_url(c: CandidateRecord) -> Option<Seq<char>> {
    match c.image_url {
        Some(s) => Some(s@),
        None => match c.image {
            Some(s) => Some(s@),
            None => None,
        },
    }
}

pub fn extract_image_url(c: &CandidateRecord) -> (r: Option<String>)
    ensures
        match r {
            Some(s) => spec_image_url(*c) == Some(s@),
            None => spec_image_url(*c) is None,
        },
{
    match &c.image_url {
        Option::Some(s) => Some(s.clone()),
        Option::None => match &c.image {
            Option::Some(s) => Some(s.clone()),
            Option::None => None,
        },
    }
}

} // verus!
