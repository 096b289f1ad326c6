use super::{row_view, Channel, ExtractError};
use crate::json::{Json, JsonValue};
use crate::state::State;
use crate::wire::json_parse;
use vstd::prelude::*;

verus! {

/// The channel that yields the payload which the table `state` holds for the
/// channel `13`.
#[derive(Debug)]
pub struct ThirteenChan {}

/// The value that a payload stands for: the document that it spells, and the
/// empty object where there is no payload.
pub open spec fn payload_value(row: Option<Seq<char>>) -> Result<JsonValue, ExtractError> {
    match row {
        None => Ok(JsonValue::empty_object()),
        Some(text) => match json_parse(text) {
            Some(value) => Ok(value),
            None => Err(ExtractError::BadPayload),
        },
    }
}

impl ThirteenChan {
    /// Reads the payload that the lookup found.
    pub fn get(&self, row: Option<String>) -> (r: Result<Json, ExtractError>)
        ensures
            match r {
                Ok(value) => payload_value(row_view(row)) == Ok::<JsonValue, ExtractError>(value@),
                Err(e) => payload_value(row_view(row)) == Err::<JsonValue, ExtractError>(e),
            },
    {
        match row {
            None => Ok(Json::empty_object()),
            Some(text) => match Json::parse(text.as_str()) {
                Some(value) => Ok(value),
                None => Err(ExtractError::BadPayload),
            },
        }
    }
}

impl Channel for ThirteenChan {
    fn name(&self) -> (r: &str)
        ensures
            r@ == "13"@,
    {
        "13"
    }

    fn query(&self) -> (r: Option<&str>)
        ensures
            r matches Some(text) && text@ == "SELECT payload FROM state WHERE channel = '13'"@,
    {
        Some("SELECT payload FROM state WHERE channel = '13'")
    }

    fn extract_data(&self, state: &State, row: Option<String>) -> (r: Result<Json, ExtractError>)
        ensures
            match r {
                Ok(value) => payload_value(row_view(row)) == Ok::<JsonValue, ExtractError>(value@),
                Err(e) => payload_value(row_view(row)) == Err::<JsonValue, ExtractError>(e),
            },
    {
        self.get(row)
    }
}

} // verus!
