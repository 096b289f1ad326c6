use crate::json::{Json, JsonObject, JsonValue};
use vstd::prelude::*;

verus! {

/// The backing state that channels read.
#[derive(Debug)]
pub struct State {
    pub static_data: Json,
}

/// The mathematical value of the backing state.
pub struct StateView {
    pub static_data: JsonValue,
}

impl View for State {
    type V = StateView;

    open spec fn view(&self) -> StateView {
        StateView { static_data: self.static_data@ }
    }
}

/// The static data that a new state holds: `{"version":"alpha"}`.
pub open spec fn initial_static_data() -> JsonValue {
    JsonValue::Object(
        Map::<Seq<char>, JsonValue>::empty().insert("version"@, JsonValue::String("alpha"@)),
    )
}

impl State {
    /// The state at startup.
    pub fn new() -> (r: State)
        ensures
            r@.static_data == initial_static_data(),
    {
        let mut data = JsonObject::new();
        data.insert("version".to_owned(), Json::String("alpha".to_owned()));
        State { static_data: Json::Object(data) }
    }
}

} // verus!
