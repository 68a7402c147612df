use easy_esp::error::{ConnectionError, ServerError};
use easy_esp::message::{create_json_message, Header, Message};

#[test]
fn header_new_sets_every_field() {
    let h = Header::new(200, "text".to_string(), Some("token".to_string()));
    assert_eq!(h.status, Some(200));
    assert_eq!(h.content_type, "text");
    assert_eq!(h.authorization, Some("token".to_string()));
}

#[test]
fn message_new_keeps_header_and_body() {
    let m = Message::new(Header::new(7, "json".to_string(), None), "hi".to_string());
    assert_eq!(m.header.status, Some(7));
    assert_eq!(m.body, "hi");
}

#[test]
fn create_json_message_without_header_uses_json_defaults() {
    let m = create_json_message("hello".to_string(), 404, None);
    assert_eq!(m.body, "hello");
    assert_eq!(m.header.status, Some(404));
    assert_eq!(m.header.content_type, "json");
    assert_eq!(m.header.authorization, None);
}

#[test]
fn create_json_message_keeps_given_header() {
    let h = Header::new(201, "xml".to_string(), Some("abc".to_string()));
    let m = create_json_message("b".to_string(), 500, Some(h));
    assert_eq!(m.header.status, Some(201));
    assert_eq!(m.header.content_type, "xml");
    assert_eq!(m.header.authorization, Some("abc".to_string()));
    assert_eq!(m.body, "b");
}

#[test]
fn clone_copies_every_field() {
    let m = create_json_message("x".to_string(), 1, None);
    let c = m.clone();
    assert_eq!(c.body, m.body);
    assert_eq!(c.header.status, m.header.status);
    assert_eq!(c.header.content_type, m.header.content_type);
    assert_eq!(c.header.authorization, m.header.authorization);
}

#[test]
fn errors_describe_themselves() {
    assert_eq!(ConnectionError::TimedOut.describe(), "Connection Time Out");
    assert_eq!(ConnectionError::Aborted.describe(), "Connection was aborted");
    assert_eq!(ConnectionError::ProtocolError.describe(), "Unexpected protocol used");
    assert_eq!(ConnectionError::Unauthorized.describe(), "Client is not authorized on network");
    assert_eq!(ServerError::BindError.describe(), "Could not bind the listener");
    assert_eq!(ServerError::MalformedEnvelope.describe(), "Malformed envelope");
}
