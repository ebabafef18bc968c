use signal_http::chat::{Chat, ChatMessage, ChatRequest, ChatResponse, ChatServer, StoredChat};

#[test]
fn test_chat_server() {
    let mut server = ChatServer::new();

    // first, given that there are no loaded contact lists,
    // we assert that we can't create a chat

    assert_eq!(
        server.issue(ChatRequest::CreateChat {
            id: 1,
            participant_ids: [1, 2]
        }),
        ChatResponse::ChatValidationError
    );

    // then, we'll load a contact list and assert that we
    // still cannot create a chat (must be symmetric)

    assert_eq!(
        server.issue(ChatRequest::StoreContactList {
            id: 1,
            list: vec![1, 2]
        }),
        ChatResponse::ContactListStored
    );

    assert_eq!(
        server.issue(ChatRequest::CreateChat {
            id: 1,
            participant_ids: [1, 2]
        }),
        ChatResponse::ChatValidationError
    );

    // next, let's setup the other side and assert that we
    // can now create a contact list

    assert_eq!(
        server.issue(ChatRequest::StoreContactList {
            id: 2,
            list: vec![2, 1]
        }),
        ChatResponse::ContactListStored
    );

    assert_eq!(
        server.issue(ChatRequest::CreateChat {
            id: 1,
            participant_ids: [1, 2]
        }),
        ChatResponse::ChatCreated
    );

    // the chat should be visible for both users

    assert_eq!(
        server.issue(ChatRequest::ListChats { user_id: 1 }),
        ChatResponse::ChatsListed {
            chats: vec![Chat {
                id: 1,
                participant_ids: [1, 2]
            }]
        }
    );

    assert_eq!(
        server.issue(ChatRequest::ListChats { user_id: 2 }),
        ChatResponse::ChatsListed {
            chats: vec![Chat {
                id: 1,
                participant_ids: [1, 2]
            }]
        }
    );

    // and visible by its id (no messages yet)

    assert_eq!(
        server.issue(ChatRequest::ListChat { id: 1 }),
        ChatResponse::ChatListed {
            messages: Vec::new()
        }
    );

    // when we add messages, they should be visible
    // and ordered

    assert_eq!(
        server.issue(ChatRequest::AddMessage {
            id: "aed531ba-7a41-46dd-8e5d-9a5f7c16bfee".to_string(),
            chat_id: 1,
            source_user_id: 1,
            destination_user_id: 2,
            timestamp: 0,
            message: "zero".to_string()
        }),
        ChatResponse::MessageAdded
    );

    assert_eq!(
        server.issue(ChatRequest::AddMessage {
            id: "b213468f-eed5-4119-be6c-bb780120502a".to_string(),
            chat_id: 1,
            source_user_id: 2,
            destination_user_id: 1,
            timestamp: 4,
            message: "four".to_string()
        }),
        ChatResponse::MessageAdded
    );

    assert_eq!(
        server.issue(ChatRequest::AddMessage {
            id: "16cce9af-4086-4219-a54b-8b082b3c42ef".to_string(),
            chat_id: 1,
            source_user_id: 1,
            destination_user_id: 2,
            timestamp: 3,
            message: "three".to_string()
        }),
        ChatResponse::MessageAdded
    );

    assert_eq!(
        server.issue(ChatRequest::ListChat { id: 1 }),
        ChatResponse::ChatListed {
            messages: vec![
                ChatMessage {
                    id: "aed531ba-7a41-46dd-8e5d-9a5f7c16bfee".to_string(),
                    timestamp: 0,
                    message: "zero".to_string(),
                    source_user_id: 1,
                    destination_user_id: 2
                },
                ChatMessage {
                    id: "16cce9af-4086-4219-a54b-8b082b3c42ef".to_string(),
                    timestamp: 3,
                    message: "three".to_string(),
                    source_user_id: 1,
                    destination_user_id: 2
                },
                ChatMessage {
                    id: "b213468f-eed5-4119-be6c-bb780120502a".to_string(),
                    timestamp: 4,
                    message: "four".to_string(),
                    source_user_id: 2,
                    destination_user_id: 1
                }
            ]
        }
    );
}

#[test]
fn test_chart_insert() {
    let mut chat = StoredChat {
        participant_ids: [0, 1],
        messages: Vec::new(),
    };

    let data = [
        (1, "test1"),
        (4, "test2"),
        (3, "test3"),
        (5, "test4"),
        (0, "test5"),
        (6, "test6"),
        (2, "test7"),
        (9, "test8"),
        (0, "test9"),
        (9, "test10"),
    ];

    for (timestamp, message) in data.iter() {
        chat.insert("".to_string(), 0, 0, *timestamp, message.to_string());
    }

    assert_eq!(
        chat.messages
            .iter()
            .map(|msg| msg.message.as_str())
            .collect::<Vec<_>>(),
        vec![
            "test5", "test9", "test1", "test7", "test3", "test2", "test4", "test6", "test8",
            "test10"
        ]
    );
}

#[test]
fn listing_an_unknown_chat_or_user() {
    let mut server = ChatServer::new();
    assert_eq!(
        server.issue(ChatRequest::ListChat { id: 9 }),
        ChatResponse::UnknownChat
    );
    assert_eq!(
        server.issue(ChatRequest::ListChats { user_id: 9 }),
        ChatResponse::ChatsListed { chats: Vec::new() }
    );
}

#[test]
fn duplicate_chat_is_rejected() {
    let mut server = ChatServer::new();
    server.issue(ChatRequest::StoreContactList { id: 1, list: vec![2] });
    server.issue(ChatRequest::StoreContactList { id: 2, list: vec![1] });
    assert_eq!(
        server.issue(ChatRequest::CreateChat { id: 7, participant_ids: [1, 2] }),
        ChatResponse::ChatCreated
    );
    // same identifier
    assert_eq!(
        server.issue(ChatRequest::CreateChat { id: 7, participant_ids: [1, 2] }),
        ChatResponse::ChatAlreadyExists
    );
    // same pair under a fresh identifier
    assert_eq!(
        server.issue(ChatRequest::CreateChat { id: 8, participant_ids: [1, 2] }),
        ChatResponse::ChatAlreadyExists
    );
}

#[test]
fn message_for_wrong_participants_is_unknown() {
    let mut server = ChatServer::new();
    server.issue(ChatRequest::StoreContactList { id: 1, list: vec![2] });
    server.issue(ChatRequest::StoreContactList { id: 2, list: vec![1] });
    server.issue(ChatRequest::CreateChat { id: 1, participant_ids: [1, 2] });
    assert_eq!(
        server.issue(ChatRequest::AddMessage {
            id: "m".to_string(),
            chat_id: 2,
            source_user_id: 1,
            destination_user_id: 2,
            timestamp: 0,
            message: "hi".to_string()
        }),
        ChatResponse::UnknownChat
    );
    assert_eq!(
        server.issue(ChatRequest::AddMessage {
            id: "m".to_string(),
            chat_id: 1,
            source_user_id: 3,
            destination_user_id: 2,
            timestamp: 0,
            message: "hi".to_string()
        }),
        ChatResponse::UnknownChat
    );
}
