use crate::json::Json;
use crate::state::State;
use vstd::prelude::*;

mod reward;
mod thirteen_chan;

pub use reward::Reward;
pub use thirteen_chan::ThirteenChan;

verus! {

/// Why a channel produced no value.
#[derive(Debug, PartialEq, Eq, Clone, Copy)]
pub enum ExtractError {
    /// The payload that the backing store holds for the channel is not a JSON
    /// document.
    BadPayload,
}

/// A named source of data. A channel is known by its name alone.
///
/// A channel that reads the backing store names its query; whoever runs the
/// channel makes that lookup and hands the payload of the row it found to
/// `extract_data`.
pub trait Channel {
    /// The name of the channel.
    fn name(&self) -> &str;

    /// The query that the channel reads the first row of, if it reads the
    /// backing store.
    fn query(&self) -> Option<&str>;

    /// The value of the channel, from the state and from the payload that the
    /// query found: `None` where it found no row or no payload.
    fn extract_data(&self, state: &State, row: Option<String>) -> Result<Json, ExtractError>;
}

/// The text of a payload that may be absent.
pub open spec fn row_view(row: Option<String>) -> Option<Seq<char>> {
    match row {
        Some(text) => Some(text@),
        None => None,
    }
}

} // verus!
