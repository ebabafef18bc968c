use signal_http::chat::{ChatRequest, ChatResponse, ChatServer};
use signal_http::chat_http::ChatHttpServer;
use signal_http::http::{BodyContent, HttpMethod, HttpRequest, HttpResponse};

fn get(path: &str) -> HttpRequest {
    HttpRequest {
        body: None,
        headers: Vec::new(),
        method: HttpMethod::GET,
        path: path.as_bytes().to_vec(),
        version: b"HTTP/1.1".to_vec(),
    }
}

fn post(path: &str, body: &str) -> HttpRequest {
    HttpRequest {
        body: Some(body.as_bytes().to_vec()),
        headers: vec![(b"Content-Type".to_vec(), b"application/json".to_vec())],
        method: HttpMethod::POST,
        path: path.as_bytes().to_vec(),
        version: b"HTTP/1.1".to_vec(),
    }
}

#[test]
fn test_chat_http_server() {
    let mut chat_server = ChatServer::new();

    assert_eq!(
        chat_server.issue(ChatRequest::StoreContactList {
            id: 1,
            list: vec![1, 2]
        }),
        ChatResponse::ContactListStored
    );

    assert_eq!(
        chat_server.issue(ChatRequest::StoreContactList {
            id: 2,
            list: vec![1, 2]
        }),
        ChatResponse::ContactListStored
    );

    let mut server = ChatHttpServer::new(chat_server);

    // test 404

    assert_eq!(
        server.issue(get("/nope")),
        HttpResponse::new(
            b"HTTP/1.1".to_vec(),
            404,
            &[("Content-Type", "text/plain")],
            BodyContent::Str("The route is unknown")
        )
    );

    // create an unparseable chat

    assert_eq!(
        server.issue(post("/chats", "[]")),
        HttpResponse::new(
            b"HTTP/1.1".to_vec(),
            400,
            &[("Content-Type", "text/plain")],
            BodyContent::Str("The supplied chat was not created due to a parsing error")
        )
    );

    // create a chat between invalid contacts

    assert_eq!(
        server.issue(post("/chats", "{ \"id\": 1, \"participantIds\": [2, 3] }")),
        HttpResponse::new(
            b"HTTP/1.1".to_vec(),
            400,
            &[("Content-Type", "text/plain")],
            BodyContent::Str("The supplied chat was not created due to a validation error")
        )
    );

    // create a valid chat

    assert_eq!(
        server.issue(post("/chats", "{ \"id\": 1, \"participantIds\": [1, 2] }")),
        HttpResponse::new(
            b"HTTP/1.1".to_vec(),
            200,
            &[("Content-Type", "text/plain")],
            BodyContent::Str("The supplied chat was created")
        )
    );

    // create an unparseable chat message

    assert_eq!(
        server.issue(post("/chats/1/messages", "[]")),
        HttpResponse::new(
            b"HTTP/1.1".to_vec(),
            400,
            &[("Content-Type", "text/plain")],
            BodyContent::Str("The supplied message was not added to the chat due to a parsing error")
        )
    );

    // create a chat message for unknown chat

    assert_eq!(
        server.issue(post(
            "/chats/2/messages",
            "{ \"id\": \"a15e7d99-7d6d-490b-acee-ed0356c2a9a9\", \"timestamp\": 0, \"message\": \"test\", \"sourceUserId\": 1, \"destinationUserId\": 2 }"
        )),
        HttpResponse::new(
            b"HTTP/1.1".to_vec(),
            404,
            &[("Content-Type", "text/plain")],
            BodyContent::Str("A chat with the provided id does not exist")
        )
    );

    // create a chat message for known chat, wrong participants

    assert_eq!(
        server.issue(post(
            "/chats/1/messages",
            "{ \"id\": \"d8ae0e72-8dcd-4660-9aa6-68c1df3cdd38\", \"timestamp\": 0, \"message\": \"test\", \"sourceUserId\": 3, \"destinationUserId\": 2 }"
        )),
        HttpResponse::new(
            b"HTTP/1.1".to_vec(),
            404,
            &[("Content-Type", "text/plain")],
            BodyContent::Str("A chat with the provided id does not exist")
        )
    );

    assert_eq!(
        server.issue(post(
            "/chats/1/messages",
            "{ \"id\": \"d8ae0e72-8dcd-4660-9aa6-68c1df3cdd38\", \"timestamp\": 0, \"message\": \"test\", \"sourceUserId\": 1, \"destinationUserId\": 3 }"
        )),
        HttpResponse::new(
            b"HTTP/1.1".to_vec(),
            404,
            &[("Content-Type", "text/plain")],
            BodyContent::Str("A chat with the provided id does not exist")
        )
    );

    // create a valid chat message

    assert_eq!(
        server.issue(post(
            "/chats/1/messages",
            "{ \"id\": \"ed27b825-1ed2-4cde-9895-93d8bdcf0984\", \"timestamp\": 0, \"message\": \"test\", \"sourceUserId\": 1, \"destinationUserId\": 2 }"
        )),
        HttpResponse::new(
            b"HTTP/1.1".to_vec(),
            200,
            &[("Content-Type", "text/plain")],
            BodyContent::Str("The supplied message was added to the chat")
        )
    );

    // get chats by user id

    assert_eq!(
        server.issue(get("/chats?userId=1")),
        HttpResponse::new(
            b"HTTP/1.1".to_vec(),
            200,
            &[("Content-Type", "application/json")],
            BodyContent::String("[{\"id\":1,\"participantIds\":[1,2]}]".to_string())
        )
    );

    assert_eq!(
        server.issue(get("/chats?userId=2")),
        HttpResponse::new(
            b"HTTP/1.1".to_vec(),
            200,
            &[("Content-Type", "application/json")],
            BodyContent::String("[{\"id\":1,\"participantIds\":[1,2]}]".to_string())
        )
    );

    assert_eq!(
        server.issue(get("/chats?userId=3")),
        HttpResponse::new(
            b"HTTP/1.1".to_vec(),
            200,
            &[("Content-Type", "application/json")],
            BodyContent::String("[]".to_string())
        )
    );

    // get known chat messages

    assert_eq!(
        server.issue(get("/chats/1/messages")),
        HttpResponse::new(
            b"HTTP/1.1".to_vec(),
            200,
            &[("Content-Type", "application/json")],
            BodyContent::String("[{\"id\":\"ed27b825-1ed2-4cde-9895-93d8bdcf0984\",\"timestamp\":0,\"message\":\"test\",\"sourceUserId\":1,\"destinationUserId\":2}]".to_string())
        )
    );

    // get unknown chat messages

    assert_eq!(
        server.issue(get("/chats/2/messages")),
        HttpResponse::new(
            b"HTTP/1.1".to_vec(),
            404,
            &[("Content-Type", "text/plain")],
            BodyContent::Str("A chat with the provided id does not exist")
        )
    );
}

#[test]
fn message_text_escapes_round_trip() {
    let mut chat_server = ChatServer::new();
    chat_server.issue(ChatRequest::StoreContactList { id: 1, list: vec![2] });
    chat_server.issue(ChatRequest::StoreContactList { id: 2, list: vec![1] });
    let mut server = ChatHttpServer::new(chat_server);

    assert_eq!(
        server.issue(post("/chats", "{\"id\":1,\"participantIds\":[1,2]}")).status,
        200
    );
    // The message text arrives with escaped quote, backslash and newline.
    assert_eq!(
        server
            .issue(post(
                "/chats/1/messages",
                "{\"id\":\"m1\",\"timestamp\":3,\"message\":\"a \\\"b\\\" \\\\ c\\n\",\"sourceUserId\":1,\"destinationUserId\":2}"
            ))
            .status,
        200
    );
    // Listing serializes it back with the same escapes.
    assert_eq!(
        server.issue(get("/chats/1/messages")),
        HttpResponse::new(
            b"HTTP/1.1".to_vec(),
            200,
            &[("Content-Type", "application/json")],
            BodyContent::String(
                "[{\"id\":\"m1\",\"timestamp\":3,\"message\":\"a \\\"b\\\" \\\\ c\\n\",\"sourceUserId\":1,\"destinationUserId\":2}]".to_string()
            )
        )
    );
}

#[test]
fn bad_chat_identifier_in_path() {
    let mut server = ChatHttpServer::new(ChatServer::new());
    assert_eq!(
        server.issue(get("/chats/zzz/messages")),
        HttpResponse::new(
            b"HTTP/1.1".to_vec(),
            404,
            &[("Content-Type", "text/plain")],
            BodyContent::Str("A chat with the provided id does not exist")
        )
    );
    // An unparsable userId lists nothing rather than failing.
    assert_eq!(
        server.issue(get("/chats?userId=zzz")),
        HttpResponse::new(
            b"HTTP/1.1".to_vec(),
            200,
            &[("Content-Type", "application/json")],
            BodyContent::String("[]".to_string())
        )
    );
}
