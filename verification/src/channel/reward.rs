use super::{Channel, ExtractError};
use crate::json::Json;
use crate::state::State;
use vstd::prelude::*;

verus! {

/// The channel that yields the state's static data.
#[derive(Debug)]
pub struct Reward {}

impl Channel for Reward {
    fn name(&self) -> (r: &str)
        ensures
            r@ == "reward"@,
    {
        "reward"
    }

    fn query(&self) -> (r: Option<&str>)
        ensures
            r is None,
    {
        None
    }

    fn extract_data(&self, state: &State, row: Option<String>) -> (r: Result<Json, ExtractError>)
        ensures
            r matches Ok(value) && value@ == state@.static_data,
    {
        Ok(state.static_data.clone())
    }
}

} // verus!
