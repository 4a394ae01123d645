//! The request/response lifecycle: body buffering, write-once responses,
//! the JSON codec, and query parameters.

use webroute::codec::{post_from_json, post_to_json};
use webroute::http::{Method, Request, Response};
use webroute::posts::Post;
use webroute::strings::{parse_u32, parse_u64, u64_to_string};

fn sample_post() -> Post {
    Post {
        id: Some(7),
        title: "A \"quoted\" title".to_string(),
        content: "line one \\ line two".to_string(),
        date: 1461110400,
        author_id: 3,
        url_fragment: "a-quoted-title".to_string(),
    }
}

fn request_with_body(body: &str) -> Request {
    Request::new(Method::Put, "/api/posts", body.to_string()).expect("absolute path")
}

#[test]
fn encodes_canonical_json() {
    let post = Post {
        id: Some(1),
        title: "t".to_string(),
        content: "c".to_string(),
        date: 42,
        author_id: 9,
        url_fragment: "t-frag".to_string(),
    };
    let encoded = post_to_json(&post);
    assert_eq!(
        encoded,
        "{\"id\":1,\"title\":\"t\",\"content\":\"c\",\"date\":42,\"author_id\":9,\"url_fragment\":\"t-frag\"}"
    );
}

#[test]
fn encodes_null_id() {
    let mut post = sample_post();
    post.id = None;
    let encoded = post_to_json(&post);
    assert!(encoded.starts_with("{\"id\":null,"));
}

#[test]
fn escapes_quotes_and_backslashes() {
    let encoded = post_to_json(&sample_post());
    assert!(encoded.contains("\"title\":\"A \\\"quoted\\\" title\""));
    assert!(encoded.contains("\"content\":\"line one \\\\ line two\""));
}

#[test]
fn json_round_trip_equals_original() {
    let post = sample_post();
    let decoded = post_from_json(post_to_json(&post).as_str()).expect("round trip decodes");
    assert_eq!(decoded.id, post.id);
    assert_eq!(decoded.title, post.title);
    assert_eq!(decoded.content, post.content);
    assert_eq!(decoded.date, post.date);
    assert_eq!(decoded.author_id, post.author_id);
    assert_eq!(decoded.url_fragment, post.url_fragment);
}

#[test]
fn json_round_trip_through_response_and_request() {
    // What `json` puts on the wire, read back as a request body, is the post.
    let post = sample_post();
    let res = Response::Fresh.json(&post);
    let wire = match res {
        Response::Done { wire } => wire,
        _ => panic!("json must finish the response"),
    };
    let req = request_with_body(wire.as_str()).body();
    let decoded = req.to_json().expect("wire decodes");
    assert_eq!(decoded.id, post.id);
    assert_eq!(decoded.title, post.title);
    assert_eq!(decoded.date, post.date);
}

#[test]
fn malformed_body_gives_decode_error() {
    let req = request_with_body("not json at all").body();
    assert!(req.to_json().is_err());
}

#[test]
fn trailing_garbage_gives_decode_error() {
    let post = sample_post();
    let mut text = post_to_json(&post);
    text.push_str("x");
    assert!(post_from_json(text.as_str()).is_err());
}

#[test]
fn decoder_tolerates_whitespace_and_field_order() {
    let text = " {\n  \"date\": 42 ,\r\n  \"title\" : \"t\",\n  \"url_fragment\": \"t-frag\",\n  \"id\": null,\n  \"content\":\t\"c\",\n  \"author_id\": 9\n}  ";
    let post = post_from_json(text).expect("formatted body decodes");
    assert_eq!(post.id, None);
    assert_eq!(post.title, "t");
    assert_eq!(post.content, "c");
    assert_eq!(post.date, 42);
    assert_eq!(post.author_id, 9);
    assert_eq!(post.url_fragment, "t-frag");
}

#[test]
fn decoder_takes_the_first_of_duplicate_fields() {
    let text = "{\"id\":1,\"title\":\"t\",\"content\":\"c\",\"date\":2,\"author_id\":3,\"url_fragment\":\"f\",\"id\":9}";
    let post = post_from_json(text).expect("duplicate field decodes");
    assert_eq!(post.id, Some(1));
}

#[test]
fn decoder_ignores_unknown_scalar_fields() {
    let text = "{\"extra\":\"x\",\"id\":1,\"title\":\"t\",\"content\":\"c\",\"date\":2,\"author_id\":3,\"url_fragment\":\"f\"}";
    let post = post_from_json(text).expect("unknown field is ignored");
    assert_eq!(post.id, Some(1));
    assert_eq!(post.title, "t");
}

#[test]
fn control_characters_round_trip_escaped() {
    let mut post = sample_post();
    post.title = "line one\nline two\ttabbed".to_string();
    let encoded = post_to_json(&post);
    // The wire holds the escapes, never a raw control character.
    assert!(encoded.contains("line one\\u000aline two\\u0009tabbed"));
    assert!(!encoded.contains('\n'));
    let decoded = post_from_json(encoded.as_str()).expect("round trip decodes");
    assert_eq!(decoded.title, post.title);
}

#[test]
fn unicode_escapes_are_decoded() {
    let text = "{\"id\":null,\"title\":\"\\u0041b\",\"content\":\"c\",\"date\":1,\"author_id\":2,\"url_fragment\":\"f\"}";
    let post = post_from_json(text).expect("escape decodes");
    assert_eq!(post.title, "Ab");
}

#[test]
fn bad_escapes_and_empty_objects_are_rejected() {
    let bad_escape = "{\"id\":null,\"title\":\"\\q\",\"content\":\"c\",\"date\":1,\"author_id\":2,\"url_fragment\":\"f\"}";
    assert!(post_from_json(bad_escape).is_err());
    let wide_escape = "{\"id\":null,\"title\":\"\\u0a41\",\"content\":\"c\",\"date\":1,\"author_id\":2,\"url_fragment\":\"f\"}";
    assert!(post_from_json(wide_escape).is_err());
    assert!(post_from_json("{}").is_err());
    let missing_field = "{\"id\":null,\"title\":\"t\",\"content\":\"c\",\"date\":1,\"author_id\":2}";
    assert!(post_from_json(missing_field).is_err());
}

#[test]
fn buffering_is_idempotent() {
    let once = request_with_body("payload bytes").body();
    let twice = request_with_body("payload bytes").body().body();
    let body_once = match once {
        Request::Body { body, .. } => body,
        _ => panic!("buffered"),
    };
    let body_twice = match twice {
        Request::Body { body, .. } => body,
        _ => panic!("buffered"),
    };
    assert_eq!(body_once, "payload bytes");
    assert_eq!(body_once, body_twice);
}

#[test]
fn write_once_rejects_second_write() {
    let first = Response::Fresh.text("first");
    let second = first.text("second");
    match second {
        Response::Done { wire } => assert_eq!(wire, "first"),
        _ => panic!("text must finish the response"),
    }
}

#[test]
fn json_after_text_has_no_transport_effect() {
    let first = Response::Fresh.text("first");
    let second = first.json(&sample_post());
    match second {
        Response::Done { wire } => assert_eq!(wire, "first"),
        _ => panic!("response must stay done"),
    }
}

#[test]
fn query_params_are_decoded_and_first_wins() {
    let req = Request::new(
        Method::Get,
        "/api/posts?name=a%20b&name=second&plain=1",
        String::new(),
    )
    .expect("absolute path");
    assert_eq!(req.url(), "/api/posts");
    assert_eq!(req.query_param("name").as_deref(), Some("a b"));
    assert_eq!(req.query_param("plain").as_deref(), Some("1"));
    assert_eq!(req.query_param("missing"), None);
}

#[test]
fn relative_target_is_rejected() {
    assert!(Request::new(Method::Get, "api/posts", String::new()).is_none());
    assert!(Request::new(Method::Get, "", String::new()).is_none());
}

#[test]
fn json_list_encodes_arrays() {
    let empty: Vec<Post> = Vec::new();
    match Response::Fresh.json_list(&empty) {
        Response::Done { wire } => assert_eq!(wire, "[]"),
        _ => panic!("json_list must finish the response"),
    }

    let one = Post {
        id: None,
        title: "t".to_string(),
        content: "c".to_string(),
        date: 1,
        author_id: 2,
        url_fragment: "f".to_string(),
    };
    let two = Post {
        id: Some(5),
        title: "u".to_string(),
        content: "d".to_string(),
        date: 3,
        author_id: 4,
        url_fragment: "g".to_string(),
    };
    let both = vec![one, two];
    match Response::Fresh.json_list(&both) {
        Response::Done { wire } => assert_eq!(
            wire,
            "[{\"id\":null,\"title\":\"t\",\"content\":\"c\",\"date\":1,\"author_id\":2,\"url_fragment\":\"f\"},\
{\"id\":5,\"title\":\"u\",\"content\":\"d\",\"date\":3,\"author_id\":4,\"url_fragment\":\"g\"}]"
        ),
        _ => panic!("json_list must finish the response"),
    }
}

#[test]
fn number_parsing_is_exact() {
    assert_eq!(parse_u32("42"), Some(42));
    assert_eq!(parse_u32("0"), Some(0));
    assert_eq!(parse_u32("4294967295"), Some(u32::MAX));
    assert_eq!(parse_u32("4294967296"), None);
    assert_eq!(parse_u32(""), None);
    assert_eq!(parse_u32("12a"), None);
    assert_eq!(parse_u64("18446744073709551615"), Some(u64::MAX));
    assert_eq!(parse_u64("18446744073709551616"), None);
    assert_eq!(u64_to_string(0), "0");
    assert_eq!(u64_to_string(1461110400), "1461110400");
}
