use ws_gateway::frame::{Frame, FrameData, Message, ParseError};
use ws_gateway::json::{Json, JsonNumber, JsonObject};

fn object(members: Vec<(&str, Json)>) -> Json {
    let mut object = JsonObject::new();
    for (name, value) in members {
        object.insert(name.to_string(), value);
    }
    Json::Object(object)
}

fn text(s: &str) -> Json {
    Json::String(s.to_string())
}

#[test]
fn subscribe_deserialize() {
    let json = r#"{"cseq":1,"type":"subscribe","channels":["news"]}"#;

    let expected_msg = Frame::new(
        1,
        FrameData::Subscribe {
            channels: vec!["news".to_string()],
        },
    );

    let msg = json.parse::<Frame>().unwrap();

    assert_eq!(msg, expected_msg);
}

#[test]
fn data_frame() {
    let data = object(vec![("t", text("xyz"))]);
    let ready_req = Frame::new(2, FrameData::Ready);

    let expected_frame = Frame::new(
        2,
        FrameData::Data {
            compressed: false,
            payload: r#"{"t":"xyz"}"#.to_string(),
        },
    );

    let response_frame = Frame::create_data_frame(&ready_req, data);

    println!("response_frame {:?}", response_frame);
    assert_eq!(response_frame, expected_frame);
}

#[test]
fn ready() {
    let frame = Frame::new(1, FrameData::Ready);

    let json = frame.encode();

    println!("json: {}", json);
    assert_eq!(json, r#"{"cseq":1,"type":"ready"}"#);
}

#[test]
fn getters_give_the_fields() {
    let frame = Frame::new(77, FrameData::Ready);
    assert_eq!(frame.cseq(), 77);
    assert_eq!(*frame.data(), FrameData::Ready);
}

#[test]
fn answers_carry_the_tag_of_the_request() {
    let request = Frame::new(4_000_000_000, FrameData::Ready);
    assert_eq!(Frame::create_ok_frame(&request), Frame::new(4_000_000_000, FrameData::Okay));
    assert_eq!(
        Frame::create_err_frame(&request, 404, "gone".to_string()),
        Frame::new(
            4_000_000_000,
            FrameData::Error {
                code: 404,
                reason: "gone".to_string()
            }
        )
    );
    assert_eq!(
        Frame::create_data_frame(&request, Json::empty_object()).cseq(),
        4_000_000_000
    );
}

#[test]
fn ok_frame_text() {
    let request = Frame::new(1, FrameData::Ready);
    assert_eq!(Frame::create_ok_frame(&request).encode(), r#"{"cseq":1,"type":"ok"}"#);
}

#[test]
fn data_frame_text() {
    let request = Frame::new(2, FrameData::Ready);
    let payload = object(vec![("reward", object(vec![("version", text("alpha"))]))]);
    let frame = Frame::create_data_frame(&request, payload);
    assert_eq!(
        frame.encode(),
        r#"{"cseq":2,"type":"data","compressed":false,"payload":"{\"reward\":{\"version\":\"alpha\"}}"}"#
    );
}

#[test]
fn err_frame_text() {
    let request = Frame::new(7, FrameData::Ready);
    let frame = Frame::create_err_frame(
        &request,
        404,
        "Following channels were not found: ghost".to_string(),
    );
    assert_eq!(
        frame.encode(),
        r#"{"cseq":7,"type":"err","code":404,"reason":"Following channels were not found: ghost"}"#
    );
}

#[test]
fn subscribe_and_unsubscribe_text() {
    let subscribe = Frame::new(
        3,
        FrameData::Subscribe {
            channels: vec!["a".to_string(), "b\"c".to_string()],
        },
    );
    assert_eq!(
        subscribe.encode(),
        r#"{"cseq":3,"type":"subscribe","channels":["a","b\"c"]}"#
    );
    let unsubscribe = Frame::new(4, FrameData::Unsubscribe { channels: vec![] });
    assert_eq!(
        unsubscribe.encode(),
        r#"{"cseq":4,"type":"unsubscribe","channels":[]}"#
    );
}

#[test]
fn every_kind_is_read_back_from_its_text() {
    let frames = vec![
        Frame::new(
            1,
            FrameData::Subscribe {
                channels: vec!["x".to_string(), "y".to_string()],
            },
        ),
        Frame::new(
            2,
            FrameData::Unsubscribe {
                channels: vec!["x".to_string()],
            },
        ),
        Frame::new(3, FrameData::Ready),
        Frame::new(4, FrameData::Okay),
        Frame::new(
            5,
            FrameData::Error {
                code: 404,
                reason: "no \\ such \n channel".to_string(),
            },
        ),
        Frame::new(
            u32::MAX,
            FrameData::Data {
                compressed: true,
                payload: "N4Ig".to_string(),
            },
        ),
    ];
    for frame in frames {
        assert_eq!(Frame::decode(&frame.encode()), Ok(frame));
    }
}

#[test]
fn members_may_come_in_any_order() {
    let frame = Frame::decode(r#"{"channels":["a"],"other":[1,2],"type":"unsubscribe","cseq":9}"#);
    assert_eq!(
        frame,
        Ok(Frame::new(
            9,
            FrameData::Unsubscribe {
                channels: vec!["a".to_string()]
            }
        ))
    );
}

#[test]
fn text_that_is_no_json_is_refused() {
    assert_eq!(Frame::decode("{\"cseq\":1,"), Err(ParseError::NotJson));
    assert_eq!(Frame::decode(""), Err(ParseError::NotJson));
}

#[test]
fn a_document_that_is_no_object_is_refused() {
    assert_eq!(Frame::decode("[1,2]"), Err(ParseError::NotObject));
    assert_eq!(Frame::from_json(&Json::Null), Err(ParseError::NotObject));
}

#[test]
fn a_bad_tag_is_refused() {
    assert_eq!(Frame::decode(r#"{"type":"ready"}"#), Err(ParseError::BadCseq));
    assert_eq!(Frame::decode(r#"{"cseq":-1,"type":"ready"}"#), Err(ParseError::BadCseq));
    assert_eq!(Frame::decode(r#"{"cseq":1.0,"type":"ready"}"#), Err(ParseError::BadCseq));
    assert_eq!(Frame::decode(r#"{"cseq":"1","type":"ready"}"#), Err(ParseError::BadCseq));
    assert_eq!(
        Frame::decode(r#"{"cseq":4294967296,"type":"ready"}"#),
        Err(ParseError::BadCseq)
    );
    assert_eq!(
        Frame::decode(r#"{"cseq":4294967295,"type":"ready"}"#),
        Ok(Frame::new(u32::MAX, FrameData::Ready))
    );
}

#[test]
fn a_bad_kind_is_refused() {
    assert_eq!(Frame::decode(r#"{"cseq":1}"#), Err(ParseError::BadType));
    assert_eq!(Frame::decode(r#"{"cseq":1,"type":"Ready"}"#), Err(ParseError::BadType));
    assert_eq!(Frame::decode(r#"{"cseq":1,"type":3}"#), Err(ParseError::BadType));
}

#[test]
fn a_bad_field_is_refused() {
    assert_eq!(Frame::decode(r#"{"cseq":1,"type":"subscribe"}"#), Err(ParseError::BadField));
    assert_eq!(
        Frame::decode(r#"{"cseq":1,"type":"subscribe","channels":["a",1]}"#),
        Err(ParseError::BadField)
    );
    assert_eq!(
        Frame::decode(r#"{"cseq":1,"type":"err","code":"404","reason":"x"}"#),
        Err(ParseError::BadField)
    );
    assert_eq!(
        Frame::decode(r#"{"cseq":1,"type":"data","compressed":false}"#),
        Err(ParseError::BadField)
    );
}

#[test]
fn a_message_that_is_no_text_is_refused() {
    assert_eq!(Frame::try_from(&Message::Binary), Err(ParseError::NotText));
    assert_eq!(Frame::try_from(&Message::Ping), Err(ParseError::NotText));
    assert_eq!(Frame::try_from(&Message::Pong), Err(ParseError::NotText));
    assert_eq!(Frame::try_from(&Message::Close), Err(ParseError::NotText));
}

#[test]
fn white_space_around_the_text_is_dropped() {
    let message = Message::Text("\u{a0}\u{2003}\n {\"cseq\":5,\"type\":\"ready\"}\t\u{3000}\u{b}".to_string());
    assert_eq!(Frame::try_from(&message), Ok(Frame::new(5, FrameData::Ready)));
    assert_eq!(
        Frame::decode("\u{a0}{\"cseq\":5,\"type\":\"ready\"}"),
        Err(ParseError::NotJson)
    );
}

#[test]
fn socket_msg_is_the_text_of_the_frame() {
    let frame = Frame::new(1, FrameData::Okay);
    assert_eq!(frame.socket_msg(), Message::Text(r#"{"cseq":1,"type":"ok"}"#.to_string()));
}

fn payload_of_text_length(length: usize) -> Json {
    // {"k":"aaa...a"} has eight characters besides the a's
    object(vec![("k", text(&"a".repeat(length - 8)))])
}

#[test]
fn a_payload_of_a_hundred_bytes_travels_as_it_is() {
    let request = Frame::new(1, FrameData::Ready);
    let payload = payload_of_text_length(100);
    assert_eq!(payload.to_text().len(), 100);
    let frame = Frame::create_data_frame(&request, payload.clone());
    assert_eq!(
        frame,
        Frame::new(
            1,
            FrameData::Data {
                compressed: false,
                payload: payload.to_text()
            }
        )
    );
}

#[test]
fn a_payload_of_a_hundred_and_one_bytes_is_compressed() {
    let request = Frame::new(1, FrameData::Ready);
    let payload = payload_of_text_length(101);
    assert_eq!(payload.to_text().len(), 101);
    let frame = Frame::create_data_frame(&request, payload.clone());
    match frame.data() {
        FrameData::Data { compressed, payload: sent } => {
            assert!(*compressed);
            assert_ne!(*sent, payload.to_text());
            let units = lz_str::decompress_from_encoded_uri_component(sent).unwrap();
            assert_eq!(String::from_utf16(&units).unwrap(), payload.to_text());
        }
        other => panic!("no data frame: {:?}", other),
    }
}

#[test]
fn the_threshold_counts_bytes() {
    // ninety-two characters of two bytes each make 192 bytes
    let request = Frame::new(1, FrameData::Ready);
    let payload = object(vec![("k", text(&"\u{e9}".repeat(50)))]);
    assert_eq!(payload.to_text().chars().count(), 58);
    assert_eq!(payload.to_text().len(), 108);
    match Frame::create_data_frame(&request, payload).data() {
        FrameData::Data { compressed, .. } => assert!(*compressed),
        other => panic!("no data frame: {:?}", other),
    }
}

#[test]
fn compression_crossover() {
    let request = Frame::new(9, FrameData::Ready);
    let payload = payload_of_text_length(120);
    let plain = payload.to_text();
    assert_eq!(plain.len(), 120);
    let frame = Frame::try_create_data_frame(&request, payload).unwrap();
    assert_eq!(frame.cseq(), 9);
    match frame.data() {
        FrameData::Data { compressed, payload } => {
            assert!(*compressed);
            assert!(!payload.is_empty());
            assert_eq!(*payload, lz_str::compress_to_encoded_uri_component(&plain));
            let units = lz_str::decompress_from_encoded_uri_component(payload).unwrap();
            assert_eq!(String::from_utf16(&units).unwrap(), plain);
        }
        other => panic!("no data frame: {:?}", other),
    }
}

#[test]
fn data_frame_of_text_takes_the_text_as_it_is() {
    let request = Frame::new(3, FrameData::Ready);
    assert_eq!(
        Frame::data_frame_of_text(&request, "[1,2,3]".to_string()),
        Frame::new(
            3,
            FrameData::Data {
                compressed: false,
                payload: "[1,2,3]".to_string()
            }
        )
    );
}

#[test]
fn numbers_in_frames() {
    let value = object(vec![
        ("cseq", Json::Number(JsonNumber::PosInt(12))),
        ("type", text("err")),
        ("code", Json::Number(JsonNumber::PosInt(500))),
        ("reason", text("")),
    ]);
    assert_eq!(
        Frame::from_json(&value),
        Ok(Frame::new(
            12,
            FrameData::Error {
                code: 500,
                reason: String::new()
            }
        ))
    );
}
