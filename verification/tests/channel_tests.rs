use ws_gateway::channel::{Channel, ExtractError, Reward, ThirteenChan};
use ws_gateway::client::{Client, PeerAddr};
use ws_gateway::connection::{greet, react, Incoming, Reaction};
use ws_gateway::broker::EventData;
use ws_gateway::frame::{Frame, FrameData, Message, ParseError};
use ws_gateway::json::{Json, JsonObject};
use ws_gateway::state::State;

fn peer() -> PeerAddr {
    PeerAddr::V4 {
        ip: 0x0a00_0001,
        port: 4000,
    }
}

#[test]
fn the_state_starts_with_its_version() {
    assert_eq!(State::new().static_data.to_text(), r#"{"version":"alpha"}"#);
}

#[test]
fn reward_yields_the_static_data() {
    let mut state = State::new();
    let channel = Reward {};
    assert_eq!(channel.name(), "reward");
    assert_eq!(channel.query(), None);
    assert_eq!(channel.extract_data(&state, None), Ok(state.static_data.clone()));
    state.static_data = Json::Bool(true);
    assert_eq!(
        channel.extract_data(&state, Some("ignored".to_string())),
        Ok(Json::Bool(true))
    );
}

#[test]
fn thirteen_chan_reads_the_payload_of_its_row() {
    let state = State::new();
    let channel = ThirteenChan {};
    assert_eq!(channel.name(), "13");
    assert_eq!(
        channel.query(),
        Some("SELECT payload FROM state WHERE channel = '13'")
    );
    let mut expected = JsonObject::new();
    expected.insert("a".to_string(), Json::Array(vec![Json::Null]));
    assert_eq!(
        channel.extract_data(&state, Some(" {\"a\": [null]} ".to_string())),
        Ok(Json::Object(expected))
    );
}

#[test]
fn thirteen_chan_without_a_payload_yields_the_empty_object() {
    let channel = ThirteenChan {};
    assert_eq!(channel.get(None), Ok(Json::empty_object()));
    assert_eq!(channel.extract_data(&State::new(), None), Ok(Json::empty_object()));
}

#[test]
fn thirteen_chan_fails_on_a_payload_that_is_no_json() {
    let channel = ThirteenChan {};
    assert_eq!(
        channel.get(Some("{\"a\":".to_string())),
        Err(ExtractError::BadPayload)
    );
}

#[test]
fn a_new_client_has_no_subscription_and_the_empty_snapshot() {
    let mut client = Client::new(peer());
    assert_eq!(client.addr(), peer());
    assert!(client.channels().is_empty());
    assert!(client.is_settled());
    assert_eq!(client.take_last_message(), Some(Json::empty_object()));
    assert!(!client.is_settled());
    assert_eq!(client.take_last_message(), None);
    client.set_last_message(Json::Null);
    assert!(!client.is_settled());
    assert_eq!(client.take_last_message(), Some(Json::Null));
}

#[test]
fn subscriptions_form_a_set() {
    let mut client = Client::new(peer());
    client.subscribe("a".to_string());
    client.subscribe("b".to_string());
    client.subscribe("a".to_string());
    assert_eq!(*client.channels(), vec!["a".to_string(), "b".to_string()]);
    assert!(client.is_subscribed("a"));
    client.unsubscribe("a");
    assert!(!client.is_subscribed("a"));
    assert!(client.is_subscribed("b"));
    client.unsubscribe("a");
    client.unsubscribe("zz");
    assert_eq!(*client.channels(), vec!["b".to_string()]);
}

#[test]
fn the_handler_greets_with_a_new_client() {
    let event = greet(peer());
    assert_eq!(event.addr(), peer());
    match event.event_data() {
        EventData::NewClient(mut client) => {
            assert_eq!(client.addr(), peer());
            assert!(client.channels().is_empty());
            assert_eq!(client.take_last_message(), Some(Json::empty_object()));
        }
        other => panic!("no client: {:?}", other),
    }
}

#[test]
fn the_handler_forwards_frames() {
    let incoming = Incoming::Message(Message::Text(" {\"cseq\":3,\"type\":\"ready\"}\n".to_string()));
    match react(peer(), &incoming) {
        Reaction::Forward(event) => {
            assert_eq!(event.addr(), peer());
            match event.event_data() {
                EventData::ClientFrame(frame) => assert_eq!(frame, Frame::new(3, FrameData::Ready)),
                other => panic!("no frame: {:?}", other),
            }
        }
        other => panic!("not forwarded: {:?}", other),
    }
}

#[test]
fn the_handler_skips_what_is_no_frame() {
    assert!(matches!(
        react(peer(), &Incoming::Message(Message::Ping)),
        Reaction::Skip(ParseError::NotText)
    ));
    assert!(matches!(
        react(peer(), &Incoming::Message(Message::Text("hello".to_string()))),
        Reaction::Skip(ParseError::NotJson)
    ));
    assert!(matches!(
        react(peer(), &Incoming::Message(Message::Text("{\"cseq\":1}".to_string()))),
        Reaction::Skip(ParseError::BadType)
    ));
}

#[test]
fn the_handler_hangs_up_at_the_end_and_on_a_failure() {
    for incoming in [Incoming::End, Incoming::Failed] {
        match react(peer(), &incoming) {
            Reaction::Hangup(event) => {
                assert_eq!(event.addr(), peer());
                assert!(matches!(event.event_data(), EventData::Disconnect));
            }
            other => panic!("no hangup: {:?}", other),
        }
    }
}

#[test]
fn a_connection_reports_one_disconnect() {
    let inputs = vec![
        Incoming::Message(Message::Text("{\"cseq\":1,\"type\":\"ready\"}".to_string())),
        Incoming::Message(Message::Binary),
        Incoming::Message(Message::Text("{\"cseq\":2,\"type\":\"ready\"}".to_string())),
        Incoming::Failed,
        Incoming::Message(Message::Text("{\"cseq\":3,\"type\":\"ready\"}".to_string())),
        Incoming::End,
    ];
    let mut kinds = vec!["new"];
    assert!(matches!(greet(peer()).event_data(), EventData::NewClient(_)));
    for incoming in inputs.iter() {
        match react(peer(), incoming) {
            Reaction::Forward(_) => kinds.push("frame"),
            Reaction::Skip(_) => {}
            Reaction::Hangup(_) => {
                kinds.push("disconnect");
                break;
            }
        }
    }
    assert_eq!(kinds, vec!["new", "frame", "frame", "disconnect"]);
}
