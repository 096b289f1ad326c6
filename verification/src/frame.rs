use crate::json::{lemma_items_view, Json, JsonNumber, JsonObject, JsonValue, NumberValue};
use crate::text::str_eq;
use crate::wire::{compress_uri, json_parse, json_text, lz_uri, parse_value, trim, trimmed, MAX_COMPRESS_CHARS};
use vstd::prelude::*;
use vstd::string::StringExecFns;

verus! {

/// One unit of the protocol: a sequence tag and a payload.
#[derive(Debug, PartialEq)]
pub struct Frame {
    /// The tag that the client chose; every answer carries it back.
    cseq: u32,
    /// What the frame says.
    data: FrameData,
}

/// The payload of a frame. `Subscribe`, `Unsubscribe` and `Ready` come from a
/// client; `Okay`, `Error` and `Data` come from the server.
#[derive(Debug, PartialEq)]
pub enum FrameData {
    /// The client asks for these channels.
    Subscribe { channels: Vec<String> },
    /// The client gives these channels up.
    Unsubscribe { channels: Vec<String> },
    /// The client is ready for data.
    Ready,
    /// The request was carried out.
    Okay,
    /// The request was refused, with a code from the HTTP range.
    Error { code: u32, reason: String },
    /// Data for the client, compressed or plain.
    Data { compressed: bool, payload: String },
}

/// One message as a transport hands it over or takes it.
#[derive(Debug, PartialEq)]
pub enum Message {
    Text(String),
    Binary,
    Ping,
    Pong,
    Close,
}

/// Why a message is no frame.
#[derive(Debug, PartialEq, Eq, Clone, Copy)]
pub enum ParseError {
    /// The message is not a text message.
    NotText,
    /// The text is not a JSON document.
    NotJson,
    /// The document is not an object.
    NotObject,
    /// `cseq` is missing or is no integer of thirty-two bits.
    BadCseq,
    /// `type` is missing or names no kind of frame.
    BadType,
    /// A field of the frame's kind is missing or of the wrong type.
    BadField,
}

/// The mathematical value of a payload.
pub enum FrameDataView {
    Subscribe { channels: Seq<Seq<char>> },
    Unsubscribe { channels: Seq<Seq<char>> },
    Ready,
    Okay,
    Error { code: u32, reason: Seq<char> },
    Data { compressed: bool, payload: Seq<char> },
}

/// The mathematical value of a frame.
pub struct FrameView {
    pub cseq: u32,
    pub data: FrameDataView,
}

/// The texts of a list of strings.
pub open spec fn names_view(names: Seq<String>) -> Seq<Seq<char>> {
    Seq::new(names.len(), |i: int| names[i]@)
}

impl View for FrameData {
    type V = FrameDataView;

    open spec fn view(&self) -> FrameDataView {
        match self {
            FrameData::Subscribe { channels } => FrameDataView::Subscribe {
                channels: names_view(channels@),
            },
            FrameData::Unsubscribe { channels } => FrameDataView::Unsubscribe {
                channels: names_view(channels@),
            },
            FrameData::Ready => FrameDataView::Ready,
            FrameData::Okay => FrameDataView::Okay,
            FrameData::Error { code, reason } => FrameDataView::Error { code: *code, reason: reason@ },
            FrameData::Data { compressed, payload } => FrameDataView::Data {
                compressed: *compressed,
                payload: payload@,
            },
        }
    }
}

impl View for Frame {
    type V = FrameView;

    closed spec fn view(&self) -> FrameView {
        FrameView { cseq: self.cseq, data: self.data@ }
    }
}

/// The length of a text in bytes of UTF-8.
pub open spec fn byte_len(text: Seq<char>) -> nat {
    vstd::utf8::encode_utf8(text).len()
}

/// The longest payload, in bytes, that travels as it is.
pub const PLAIN_LIMIT: usize = 100;

/// The data frame that answers a request with a payload of the given JSON
/// text: the text itself up to the limit, its compressed form beyond it.
pub open spec fn data_frame_view(cseq: u32, text: Seq<char>) -> FrameView {
    FrameView {
        cseq,
        data: if byte_len(text) > PLAIN_LIMIT {
            FrameDataView::Data { compressed: true, payload: lz_uri(text) }
        } else {
            FrameDataView::Data { compressed: false, payload: text }
        },
    }
}

impl Frame {
    /// A frame of the given tag and payload.
    pub fn new(cseq: u32, data: FrameData) -> (r: Frame)
        ensures
            r@ == (FrameView { cseq, data: data@ }),
    {
        Frame { cseq, data }
    }

    /// The sequence tag.
    pub fn cseq(&self) -> (r: u32)
        ensures
            r == self@.cseq,
    {
        self.cseq
    }

    /// The payload.
    pub fn data(&self) -> (r: &FrameData)
        ensures
            r@ == self@.data,
    {
        &self.data
    }

    /// The `Okay` frame that answers a request.
    pub fn create_ok_frame(client_frame: &Frame) -> (r: Frame)
        ensures
            r@ == (FrameView { cseq: client_frame@.cseq, data: FrameDataView::Okay }),
    {
        Frame { cseq: client_frame.cseq, data: FrameData::Okay }
    }

    /// The `Error` frame that answers a request, with a code and a reason.
    pub fn create_err_frame(client_frame: &Frame, code: u32, reason: String) -> (r: Frame)
        ensures
            r@ == (FrameView {
                cseq: client_frame@.cseq,
                data: FrameDataView::Error { code, reason: reason@ },
            }),
    {
        Frame { cseq: client_frame.cseq, data: FrameData::Error { code, reason } }
    }

    /// The `Data` frame that answers a request with a payload already written
    /// as JSON text.
    pub fn data_frame_of_text(client_frame: &Frame, text: String) -> (r: Frame)
        requires
            text@.len() <= MAX_COMPRESS_CHARS,
        ensures
            r@ == data_frame_view(client_frame@.cseq, text@),
    {
        let compressed = text.as_str().as_bytes().len() > PLAIN_LIMIT;
        let payload = if compressed {
            compress_uri(text.as_str())
        } else {
            text
        };
        Frame { cseq: client_frame.cseq, data: FrameData::Data { compressed, payload } }
    }

    /// The `Data` frame that answers a request with a document: the document's
    /// compact text up to a hundred bytes, its URI-safe compressed form beyond.
    pub fn create_data_frame(client_frame: &Frame, data: Json) -> (r: Frame)
        requires
            json_text(data@).len() <= MAX_COMPRESS_CHARS,
        ensures
            r@ == data_frame_view(client_frame@.cseq, json_text(data@)),
    {
        Frame::data_frame_of_text(client_frame, data.to_text())
    }

    /// As `create_data_frame`, for a document of any size: `None` where its
    /// text is longer than the compressor takes.
    pub fn try_create_data_frame(client_frame: &Frame, data: Json) -> (r: Option<Frame>)
        ensures
            match r {
                Some(frame) => {
                    &&& json_text(data@).len() <= MAX_COMPRESS_CHARS
                    &&& frame@ == data_frame_view(client_frame@.cseq, json_text(data@))
                },
                None => json_text(data@).len() > MAX_COMPRESS_CHARS,
            },
    {
        if data.to_text().as_str().unicode_len() <= MAX_COMPRESS_CHARS {
            Some(Frame::create_data_frame(client_frame, data))
        } else {
            None
        }
    }
}

/// The mathematical value of a message.
pub enum MessageView {
    Text(Seq<char>),
    Binary,
    Ping,
    Pong,
    Close,
}

impl View for Message {
    type V = MessageView;

    open spec fn view(&self) -> MessageView {
        match self {
            Message::Text(text) => MessageView::Text(text@),
            Message::Binary => MessageView::Binary,
            Message::Ping => MessageView::Ping,
            Message::Pong => MessageView::Pong,
            Message::Close => MessageView::Close,
        }
    }
}

/// The member of an object that is an integer of thirty-two bits.
pub open spec fn u32_member(object: Map<Seq<char>, JsonValue>, key: Seq<char>) -> Option<u32> {
    if object.dom().contains(key) {
        match object[key] {
            JsonValue::Number(NumberValue::PosInt(n)) => if n <= u32::MAX {
                Some(n as u32)
            } else {
                None
            },
            _ => None,
        }
    } else {
        None
    }
}

/// The member of an object that is a string.
pub open spec fn string_member(object: Map<Seq<char>, JsonValue>, key: Seq<char>) -> Option<
    Seq<char>,
> {
    if object.dom().contains(key) {
        match object[key] {
            JsonValue::String(text) => Some(text),
            _ => None,
        }
    } else {
        None
    }
}

/// The member of an object that is a boolean.
pub open spec fn bool_member(object: Map<Seq<char>, JsonValue>, key: Seq<char>) -> Option<bool> {
    if object.dom().contains(key) {
        match object[key] {
            JsonValue::Bool(b) => Some(b),
            _ => None,
        }
    } else {
        None
    }
}

/// The strings of an array that holds nothing but strings.
pub open spec fn strings_of(items: Seq<JsonValue>) -> Option<Seq<Seq<char>>> {
    if forall|i: int| 0 <= i < items.len() ==> (#[trigger] items[i]) is String {
        Some(Seq::new(items.len(), |i: int| items[i]->String_0))
    } else {
        None
    }
}

/// The member of an object that is an array of strings.
pub open spec fn names_member(object: Map<Seq<char>, JsonValue>, key: Seq<char>) -> Option<
    Seq<Seq<char>>,
> {
    if object.dom().contains(key) {
        match object[key] {
            JsonValue::Array(items) => strings_of(items),
            _ => None,
        }
    } else {
        None
    }
}

/// The payload that the members of an object spell. `type` names the kind, in
/// lower case; the fields of the kind stand beside it, and members that the
/// kind does not have are ignored.
pub open spec fn data_of_object(object: Map<Seq<char>, JsonValue>) -> Result<
    FrameDataView,
    ParseError,
> {
    match string_member(object, "type"@) {
        None => Err(ParseError::BadType),
        Some(kind) => if kind == "subscribe"@ {
            match names_member(object, "channels"@) {
                Some(channels) => Ok(FrameDataView::Subscribe { channels }),
                None => Err(ParseError::BadField),
            }
        } else if kind == "unsubscribe"@ {
            match names_member(object, "channels"@) {
                Some(channels) => Ok(FrameDataView::Unsubscribe { channels }),
                None => Err(ParseError::BadField),
            }
        } else if kind == "ready"@ {
            Ok(FrameDataView::Ready)
        } else if kind == "ok"@ {
            Ok(FrameDataView::Okay)
        } else if kind == "err"@ {
            match (u32_member(object, "code"@), string_member(object, "reason"@)) {
                (Some(code), Some(reason)) => Ok(FrameDataView::Error { code, reason }),
                _ => Err(ParseError::BadField),
            }
        } else if kind == "data"@ {
            match (bool_member(object, "compressed"@), string_member(object, "payload"@)) {
                (Some(compressed), Some(payload)) => Ok(
                    FrameDataView::Data { compressed, payload },
                ),
                _ => Err(ParseError::BadField),
            }
        } else {
            Err(ParseError::BadType)
        },
    }
}

/// The frame that a document spells: an object with the tag `cseq`, the kind
/// `type` and the fields of that kind as members side by side.
pub open spec fn frame_of_value(value: JsonValue) -> Result<FrameView, ParseError> {
    match value {
        JsonValue::Object(object) => match u32_member(object, "cseq"@) {
            None => Err(ParseError::BadCseq),
            Some(cseq) => match data_of_object(object) {
                Ok(data) => Ok(FrameView { cseq, data }),
                Err(e) => Err(e),
            },
        },
        _ => Err(ParseError::NotObject),
    }
}

/// The frame that a text spells.
pub open spec fn frame_of_text(text: Seq<char>) -> Result<FrameView, ParseError> {
    match json_parse(text) {
        Some(value) => frame_of_value(value),
        None => Err(ParseError::NotJson),
    }
}

/// The frame that a message carries: that of its text without the white space
/// around it. A message that is no text carries none.
pub open spec fn frame_of_message(message: MessageView) -> Result<FrameView, ParseError> {
    match message {
        MessageView::Text(text) => frame_of_text(trimmed(text)),
        _ => Err(ParseError::NotText),
    }
}

/// The JSON text of an integer of thirty-two bits.
pub open spec fn u32_text(n: u32) -> Seq<char> {
    json_text(JsonValue::Number(NumberValue::PosInt(n as u64)))
}

/// The JSON text of a string.
pub open spec fn string_text(text: Seq<char>) -> Seq<char> {
    json_text(JsonValue::String(text))
}

/// The JSON text of an array of strings.
pub open spec fn names_text(names: Seq<Seq<char>>) -> Seq<char> {
    json_text(JsonValue::Array(Seq::new(names.len(), |i: int| JsonValue::String(names[i]))))
}

/// The text of a payload from its kind on: the kind, then the fields.
pub open spec fn data_text(data: FrameDataView) -> Seq<char> {
    match data {
        FrameDataView::Subscribe { channels } => "\"subscribe\",\"channels\":"@ + names_text(
            channels,
        ),
        FrameDataView::Unsubscribe { channels } => "\"unsubscribe\",\"channels\":"@ + names_text(
            channels,
        ),
        FrameDataView::Ready => "\"ready\""@,
        FrameDataView::Okay => "\"ok\""@,
        FrameDataView::Error { code, reason } => "\"err\",\"code\":"@ + u32_text(code)
            + ",\"reason\":"@ + string_text(reason),
        FrameDataView::Data { compressed, payload } => "\"data\",\"compressed\":"@ + (if compressed {
            "true"@
        } else {
            "false"@
        }) + ",\"payload\":"@ + string_text(payload),
    }
}

/// The text of a frame on the wire: a JSON object with the members `cseq` and
/// `type` and then the fields of the kind, in this order.
pub open spec fn frame_text(frame: FrameView) -> Seq<char> {
    "{\"cseq\":"@ + u32_text(frame.cseq) + ",\"type\":"@ + data_text(frame.data) + "}"@
}

/// Reads the member of an object that is an integer of thirty-two bits.
fn read_u32(object: &JsonObject, key: &str) -> (r: Option<u32>)
    ensures
        r == u32_member(object@, key@),
{
    match object.get(key) {
        Some(Json::Number(JsonNumber::PosInt(n))) => if *n <= u32::MAX as u64 {
            Some(*n as u32)
        } else {
            None
        },
        _ => None,
    }
}

/// Reads the member of an object that is a string.
fn read_string(object: &JsonObject, key: &str) -> (r: Option<String>)
    ensures
        match r {
            Some(text) => string_member(object@, key@) == Some(text@),
            None => string_member(object@, key@) is None,
        },
{
    match object.get(key) {
        Some(Json::String(text)) => Some(text.clone()),
        _ => None,
    }
}

/// Reads the member of an object that is a boolean.
fn read_bool(object: &JsonObject, key: &str) -> (r: Option<bool>)
    ensures
        r == bool_member(object@, key@),
{
    match object.get(key) {
        Some(Json::Bool(b)) => Some(*b),
        _ => None,
    }
}

/// Reads the member of an object that is an array of strings.
fn read_names(object: &JsonObject, key: &str) -> (r: Option<Vec<String>>)
    ensures
        match r {
            Some(names) => names_member(object@, key@) == Some(names_view(names@)),
            None => names_member(object@, key@) is None,
        },
{
    match object.get(key) {
        Some(Json::Array(items)) => {
            let ghost values = crate::json::items_view(*items, items.len() as nat);
            proof {
                lemma_items_view(*items, items.len() as nat);
            }
            let mut names: Vec<String> = Vec::new();
            let mut i: usize = 0;
            while i < items.len()
                invariant
                    i <= items@.len(),
                    names@.len() == i,
                    values == crate::json::items_view(*items, items.len() as nat),
                    values.len() == items@.len(),
                    object@.dom().contains(key@),
                    object@[key@] == JsonValue::Array(values),
                    forall|j: int| 0 <= j < values.len() ==> (#[trigger] values[j]) == items@[j]@,
                    forall|j: int|
                        0 <= j < i ==> (#[trigger] values[j]) == JsonValue::String(names@[j]@),
                decreases items@.len() - i,
            {
                match &items[i] {
                    Json::String(text) => {
                        names.push(text.clone());
                    },
                    _ => {
                        assert(!(values[i as int] is String));
                        return None;
                    },
                }
                i += 1;
            }
            proof {
                assert(strings_of(values)->Some_0 =~= names_view(names@));
            }
            Some(names)
        },
        _ => None,
    }
}

/// Reads the payload that the members of an object spell.
fn read_data(object: &JsonObject) -> (r: Result<FrameData, ParseError>)
    ensures
        match r {
            Ok(data) => data_of_object(object@) == Ok::<FrameDataView, ParseError>(data@),
            Err(e) => data_of_object(object@) == Err::<FrameDataView, ParseError>(e),
        },
{
    let kind = match read_string(object, "type") {
        Some(kind) => kind,
        None => {
            return Err(ParseError::BadType);
        },
    };
    if str_eq(kind.as_str(), "subscribe") {
        match read_names(object, "channels") {
            Some(channels) => Ok(FrameData::Subscribe { channels }),
            None => Err(ParseError::BadField),
        }
    } else if str_eq(kind.as_str(), "unsubscribe") {
        match read_names(object, "channels") {
            Some(channels) => Ok(FrameData::Unsubscribe { channels }),
            None => Err(ParseError::BadField),
        }
    } else if str_eq(kind.as_str(), "ready") {
        Ok(FrameData::Ready)
    } else if str_eq(kind.as_str(), "ok") {
        Ok(FrameData::Okay)
    } else if str_eq(kind.as_str(), "err") {
        match (read_u32(object, "code"), read_string(object, "reason")) {
            (Some(code), Some(reason)) => Ok(FrameData::Error { code, reason }),
            _ => Err(ParseError::BadField),
        }
    } else if str_eq(kind.as_str(), "data") {
        match (read_bool(object, "compressed"), read_string(object, "payload")) {
            (Some(compressed), Some(payload)) => Ok(FrameData::Data { compressed, payload }),
            _ => Err(ParseError::BadField),
        }
    } else {
        Err(ParseError::BadType)
    }
}

/// Writes the JSON text of an array of strings.
fn write_names(names: &Vec<String>) -> (r: String)
    ensures
        r@ == names_text(names_view(names@)),
{
    let mut items: Vec<Json> = Vec::new();
    let mut i: usize = 0;
    while i < names.len()
        invariant
            i <= names@.len(),
            items@.len() == i,
            forall|j: int| 0 <= j < i ==> (#[trigger] items@[j])@ == JsonValue::String(names@[j]@),
        decreases names@.len() - i,
    {
        items.push(Json::String(names[i].clone()));
        i += 1;
    }
    proof {
        lemma_items_view(items, items.len() as nat);
        assert(crate::json::items_view(items, items.len() as nat) =~= Seq::new(
            names_view(names@).len(),
            |i: int| JsonValue::String(names_view(names@)[i]),
        ));
    }
    Json::Array(items).to_text()
}

impl FrameData {
    /// Writes the payload from its kind on.
    fn write(&self) -> (r: String)
        ensures
            r@ == data_text(self@),
    {
        match self {
            FrameData::Subscribe { channels } => {
                let mut text = "\"subscribe\",\"channels\":".to_owned();
                text.append(write_names(channels).as_str());
                text
            },
            FrameData::Unsubscribe { channels } => {
                let mut text = "\"unsubscribe\",\"channels\":".to_owned();
                text.append(write_names(channels).as_str());
                text
            },
            FrameData::Ready => "\"ready\"".to_owned(),
            FrameData::Okay => "\"ok\"".to_owned(),
            FrameData::Error { code, reason } => {
                let mut text = "\"err\",\"code\":".to_owned();
                text.append(Json::Number(JsonNumber::PosInt(*code as u64)).to_text().as_str());
                text.append(",\"reason\":");
                text.append(Json::String(reason.clone()).to_text().as_str());
                text
            },
            FrameData::Data { compressed, payload } => {
                let mut text = "\"data\",\"compressed\":".to_owned();
                text.append(if *compressed {
                    "true"
                } else {
                    "false"
                });
                text.append(",\"payload\":");
                text.append(Json::String(payload.clone()).to_text().as_str());
                text
            },
        }
    }
}

impl Frame {
    /// Reads a frame from a document.
    pub fn from_json(value: &Json) -> (r: Result<Frame, ParseError>)
        ensures
            match r {
                Ok(frame) => frame_of_value(value@) == Ok::<FrameView, ParseError>(frame@),
                Err(e) => frame_of_value(value@) == Err::<FrameView, ParseError>(e),
            },
    {
        match value {
            Json::Object(object) => {
                let cseq = match read_u32(object, "cseq") {
                    Some(cseq) => cseq,
                    None => {
                        return Err(ParseError::BadCseq);
                    },
                };
                match read_data(object) {
                    Ok(data) => Ok(Frame { cseq, data }),
                    Err(e) => Err(e),
                }
            },
            _ => Err(ParseError::NotObject),
        }
    }

    /// Reads a frame from its text.
    pub fn decode(text: &str) -> (r: Result<Frame, ParseError>)
        ensures
            match r {
                Ok(frame) => frame_of_text(text@) == Ok::<FrameView, ParseError>(frame@),
                Err(e) => frame_of_text(text@) == Err::<FrameView, ParseError>(e),
            },
    {
        match parse_value(text) {
            Ok(value) => Frame::from_json(&value),
            Err(_) => Err(ParseError::NotJson),
        }
    }

    /// Reads the frame that a message carries.
    pub fn try_from(message: &Message) -> (r: Result<Frame, ParseError>)
        ensures
            match r {
                Ok(frame) => frame_of_message(message@) == Ok::<FrameView, ParseError>(frame@),
                Err(e) => frame_of_message(message@) == Err::<FrameView, ParseError>(e),
            },
    {
        match message {
            Message::Text(text) => Frame::decode(trim(text.as_str())),
            _ => Err(ParseError::NotText),
        }
    }

    /// Writes the frame as its text on the wire.
    pub fn encode(&self) -> (r: String)
        ensures
            r@ == frame_text(self@),
    {
        let mut text = "{\"cseq\":".to_owned();
        text.append(Json::Number(JsonNumber::PosInt(self.cseq as u64)).to_text().as_str());
        text.append(",\"type\":");
        text.append(self.data.write().as_str());
        text.append("}");
        text
    }

    /// The text message that carries the frame.
    pub fn socket_msg(&self) -> (r: Message)
        ensures
            r@ == MessageView::Text(frame_text(self@)),
    {
        Message::Text(self.encode())
    }
}

impl std::str::FromStr for Frame {
    type Err = ParseError;

    /// Reads a frame from its text, as `Frame::decode` does.
    fn from_str(message: &str) -> (r: Result<Frame, ParseError>)
        ensures
            match r {
                Ok(frame) => frame_of_text(message@) == Ok::<FrameView, ParseError>(frame@),
                Err(e) => frame_of_text(message@) == Err::<FrameView, ParseError>(e),
            },
    {
        Frame::decode(message)
    }
}

} // verus!
