use jpv_lib::clipboard::{deliver, image_kind, recognized, Delivery, ImageKind};
use jpv_lib::service::{
    after_request, handle_method_call, startup, CallError, Method, NameReply, Ownership, Startup,
};
use jpv_lib::session::{Action, Event, Message, Session, CLOSE_NORMAL, CLOSE_PROTOCOL_ERROR};

const PATH: &[u8] = b"/se/tedro/JapaneseDictionary";

#[test]
fn methods_are_found_by_name() {
    assert_eq!(handle_method_call(Some(PATH), Some(b"GetPort")), Ok(Method::GetPort));
    assert_eq!(handle_method_call(Some(PATH), Some(b"SendClipboardData")), Ok(Method::SendClipboardData));
    assert_eq!(handle_method_call(Some(PATH), Some(b"Shutdown")), Ok(Method::Shutdown));
}

#[test]
fn calls_are_turned_down_in_order() {
    assert_eq!(handle_method_call(None, None), Err(CallError::MissingDestination));
    assert_eq!(handle_method_call(None, Some(b"GetPort")), Err(CallError::MissingDestination));
    assert_eq!(handle_method_call(Some(PATH), None), Err(CallError::MissingMember));
    assert_eq!(handle_method_call(Some(&[0xff]), Some(&[0xff])), Err(CallError::BadPath));
    assert_eq!(handle_method_call(Some(b"/other"), Some(&[0xff])), Err(CallError::UnknownPath));
    assert_eq!(handle_method_call(Some(PATH), Some(&[0xc0, 0x80])), Err(CallError::BadMethod));
    assert_eq!(handle_method_call(Some(PATH), Some(b"getport")), Err(CallError::UnknownMethod));
    assert_eq!(CallError::UnknownMethod.message(), "Unknown method");
    assert_eq!(CallError::MissingDestination.message(), "Missing destination");
    assert_eq!(CallError::MissingMember.message(), "Missing member");
    assert_eq!(CallError::BadPath.message(), "Bad path");
    assert_eq!(CallError::UnknownPath.message(), "Unknown path");
    assert_eq!(CallError::BadMethod.message(), "Bad method");
}

#[test]
fn startup_decisions() {
    assert_eq!(startup(true, false), Startup::Standalone);
    assert_eq!(startup(true, true), Startup::Standalone);
    assert_eq!(startup(false, true), Startup::AskPort);
    assert_eq!(startup(false, false), Startup::RequestName);
    assert_eq!(after_request(NameReply::PrimaryOwner), Ownership::Serve);
    assert_eq!(after_request(NameReply::Exists), Ownership::AskPort);
    assert_eq!(after_request(NameReply::Other), Ownership::Busy);
    assert_eq!(jpv_lib::service::name(), "se.tedro.JapaneseDictionary");
    assert_eq!(jpv_lib::service::path(), "/se/tedro/JapaneseDictionary");
}

#[test]
fn utf8_text_is_sent_as_it_is() {
    for ty in ["UTF8_STRING", "text/plain;charset=utf-8"] {
        match deliver(ty, "食べる".as_bytes().to_vec()) {
            Delivery::Send(parcel) => {
                assert_eq!(parcel.ty.as_deref(), Some("text/plain"));
                assert_eq!(parcel.data, "食べる".as_bytes());
            }
            other => panic!("{other:?}"),
        }
    }
}

#[test]
fn escaped_text_is_decoded() {
    for ty in ["STRING", "text/plain"] {
        match deliver(ty, b"\\u98df\\u3079\\u308b".to_vec()) {
            Delivery::Send(parcel) => {
                assert_eq!(parcel.ty.as_deref(), Some("text/plain"));
                assert_eq!(parcel.data, "食べる".as_bytes());
            }
            other => panic!("{other:?}"),
        }
        assert!(matches!(deliver(ty, b"\\u98".to_vec()), Delivery::Undecodable));
    }
}

#[test]
fn json_keeps_its_type() {
    match deliver("application/json", b"{}".to_vec()) {
        Delivery::Send(parcel) => {
            assert_eq!(parcel.ty.as_deref(), Some("application/json"));
            assert_eq!(parcel.data, b"{}");
        }
        other => panic!("{other:?}"),
    }
}

#[test]
fn images_are_handed_back() {
    assert!(matches!(deliver("image/png", vec![1, 2]), Delivery::Recognize(ImageKind::Png, data) if data == vec![1, 2]));
    assert_eq!(image_kind("image/tiff"), Some(ImageKind::Tiff));
    assert_eq!(image_kind("image/webp"), Some(ImageKind::WebP));
    assert_eq!(image_kind("image/jpeg"), Some(ImageKind::Jpeg));
    assert_eq!(image_kind("image/jpg"), Some(ImageKind::Jpeg));
    assert_eq!(image_kind("image/gif"), None);
    assert!(matches!(deliver("image/gif", Vec::new()), Delivery::Ignore));
    assert!(matches!(deliver("", Vec::new()), Delivery::Ignore));
}

#[test]
fn recognized_text_loses_its_whitespace() {
    let parcel = recognized("日本 語\n");
    assert_eq!(parcel.ty.as_deref(), Some("text/plain"));
    assert_eq!(parcel.data, "日本語".as_bytes());
}

#[test]
fn timeouts_close_in_order() {
    let mut session = Session::new();
    assert!(matches!(session.step(Event::CloseTimeout), Action::Close(CLOSE_NORMAL, "connection timed out")));
    assert!(matches!(session.step(Event::SystemClosed), Action::Close(CLOSE_NORMAL, "system shutting down")));
    assert_eq!(CLOSE_NORMAL, 1000);
    assert_eq!(CLOSE_PROTOCOL_ERROR, 1002);
}

#[test]
fn data_messages_break_the_protocol() {
    let mut session = Session::new();
    assert!(matches!(
        session.step(Event::Received(Message::Text)),
        Action::Close(CLOSE_PROTOCOL_ERROR, "unsupported message")
    ));
    assert!(matches!(
        session.step(Event::Received(Message::Binary)),
        Action::Close(CLOSE_PROTOCOL_ERROR, "unsupported message")
    ));
}

#[test]
fn pings_are_answered() {
    let mut session = Session::new();
    assert!(matches!(session.step(Event::Received(Message::Ping(vec![1, 2, 3]))), Action::SendPong(p) if p == vec![1, 2, 3]));
    assert!(matches!(session.step(Event::Received(Message::Close)), Action::Hangup));
    assert!(matches!(session.step(Event::Ended), Action::Hangup));
}

#[test]
fn pong_settles_the_waiting_ping() {
    let mut session = Session::new();
    assert!(matches!(session.step(Event::Received(Message::Pong(vec![0, 0, 0, 0]))), Action::Continue));
    let payload = match session.step(Event::PingTimeout) {
        Action::SendPing(payload) => payload,
        other => panic!("{other:?}"),
    };
    assert_eq!(payload.len(), 4);
    let mut wrong = payload.clone();
    wrong[0] ^= 1;
    assert!(matches!(session.step(Event::Received(Message::Pong(wrong))), Action::Continue));
    assert!(matches!(session.step(Event::Received(Message::Pong(payload.clone()))), Action::ResetTimers));
    assert!(matches!(session.step(Event::Received(Message::Pong(payload))), Action::Continue));
}

#[test]
fn given_payload_is_sent_in_little_endian() {
    let mut session = Session::new();
    assert!(matches!(session.react(Event::PingTimeout, 0x01020304), Action::SendPing(p) if p == vec![4, 3, 2, 1]));
    assert!(matches!(session.react(Event::Received(Message::Pong(vec![1, 2, 3, 4])), 0), Action::Continue));
    assert!(matches!(session.react(Event::Received(Message::Pong(vec![4, 3, 2, 1])), 0), Action::ResetTimers));
}

#[test]
fn successive_pings_differ() {
    let mut session = Session::new();
    let a = match session.step(Event::PingTimeout) {
        Action::SendPing(payload) => payload,
        other => panic!("{other:?}"),
    };
    let b = match session.step(Event::PingTimeout) {
        Action::SendPing(payload) => payload,
        other => panic!("{other:?}"),
    };
    let c = match session.step(Event::PingTimeout) {
        Action::SendPing(payload) => payload,
        other => panic!("{other:?}"),
    };
    assert!(a != b || b != c);
}
