use vstd::prelude::*;
use std::collections::HashMap;

verus! {

broadcast use vstd::std_specs::hash::group_hash_axioms;

/// Identifier type for chats, messages and users.
pub type Id = u64;

/// A chat as reported to clients: its identifier and its two participants.
#[derive(Debug)]
pub struct Chat {
    pub id: Id,
    pub participant_ids: [Id; 2],
}

/// One message of a chat.
#[derive(Debug)]
pub struct ChatMessage {
    pub id: String,
    pub timestamp: u64,
    pub message: String,
    pub source_user_id: Id,
    pub destination_user_id: Id,
}

/// The requests of the chat request-response protocol.
pub enum ChatRequest {
    CreateChat { id: Id, participant_ids: [Id; 2] },
    AddMessage {
        id: String,
        chat_id: Id,
        source_user_id: Id,
        destination_user_id: Id,
        timestamp: u64,
        message: String,
    },
    ListChats { user_id: Id },
    ListChat { id: Id },
    StoreContactList { id: Id, list: Vec<Id> },
}

/// The responses of the chat request-response protocol.
#[derive(Debug)]
pub enum ChatResponse {
    ChatCreated,
    ChatAlreadyExists,
    ChatParsingError,
    ChatValidationError,
    ChatListed { messages: Vec<ChatMessage> },
    ChatsListed { chats: Vec<Chat> },
    ContactListStored,
    MessageAdded,
    MessageParsingError,
    UnknownChat,
}

/// A stored chat: its two participants and its messages, kept sorted by
/// timestamp.
#[derive(Debug)]
pub struct StoredChat {
    pub participant_ids: [Id; 2],
    pub messages: Vec<ChatMessage>,
}

/// One chat available to a user: the chat and the other participant.
#[derive(Debug)]
pub struct ChatRef {
    pub id: Id,
    pub destination_user_id: Id,
}

/// The position at which a message with the given timestamp is inserted:
/// scanning from the end, directly before the messages with a strictly later
/// timestamp.
pub open spec fn insert_pos(ms: Seq<ChatMessage>, timestamp: u64) -> int
    decreases ms.len(),
{
    if ms.len() == 0 {
        0
    } else if ms.last().timestamp > timestamp {
        insert_pos(ms.drop_last(), timestamp)
    } else {
        ms.len() as int
    }
}

/// The insertion position lies within the sequence.
pub proof fn lemma_insert_pos_bounds(ms: Seq<ChatMessage>, timestamp: u64)
    ensures
        0 <= insert_pos(ms, timestamp) <= ms.len(),
    decreases ms.len(),
{
    if ms.len() != 0 && ms.last().timestamp > timestamp {
        lemma_insert_pos_bounds(ms.drop_last(), timestamp);
    }
}

impl StoredChat {
    /// Insert a message, scanning from the end of the vector for the spot
    /// directly before the messages with a strictly later timestamp; among
    /// equal timestamps the new message comes last.
    pub fn insert(
        &mut self,
        id: String,
        source_user_id: Id,
        destination_user_id: Id,
        timestamp: u64,
        message: String,
    )
        ensures
            final(self).participant_ids == old(self).participant_ids,
            final(self).messages@ == old(self).messages@.insert(
                insert_pos(old(self).messages@, timestamp),
                (ChatMessage { id, timestamp, message, source_user_id, destination_user_id }),
            ),
    {
        let chat_message = ChatMessage {
            id,
            timestamp,
            message,
            source_user_id,
            destination_user_id,
        };

        let ghost ms = self.messages@;
        let len = self.messages.len();
        let mut i: usize = len;
        assert(ms.take(len as int) =~= ms);
        while i > 0 && self.messages[i - 1].timestamp > timestamp
            invariant
                i <= len,
                len == ms.len(),
                self.messages@ == ms,
                self == old(self),
                insert_pos(ms, timestamp) == insert_pos(ms.take(i as int), timestamp),
            decreases i,
        {
            proof {
                assert(ms.take(i as int).drop_last() =~= ms.take(i - 1));
                assert(ms.take(i as int).last() == ms[i - 1]);
            }
            i = i - 1;
        }
        proof {
            if i > 0 {
                assert(ms.take(i as int).last() == ms[i - 1]);
                assert(insert_pos(ms.take(i as int), timestamp) == i);
            } else {
                assert(ms.take(0) =~= Seq::<ChatMessage>::empty());
            }
        }
        if i == len {
            self.messages.push(chat_message);
            assert(self.messages@ =~= ms.insert(insert_pos(ms, timestamp), chat_message));
        } else {
            self.messages.insert(i, chat_message);
        }
    }
}

/// The identifier of the first chat listed for `dst` among a user's chats.
pub open spec fn find_chat_ref(refs: Seq<ChatRef>, dst: Id) -> Option<Id>
    decreases refs.len(),
{
    if refs.len() == 0 {
        None
    } else if refs[0].destination_user_id == dst {
        Some(refs[0].id)
    } else {
        find_chat_ref(refs.drop_first(), dst)
    }
}

/// The chats a user is listed under, or none.
pub open spec fn refs_of(m: Map<Id, Vec<ChatRef>>, user: Id) -> Seq<ChatRef> {
    if m.contains_key(user) {
        m[user]@
    } else {
        Seq::empty()
    }
}

/// The identifier of the chat between two users, if one is recorded.
pub open spec fn chat_id_spec(m: Map<Id, Vec<ChatRef>>, src: Id, dst: Id) -> Option<Id> {
    if m.contains_key(src) {
        find_chat_ref(m[src]@, dst)
    } else {
        None
    }
}

/// Whether the two users appear in each other's contact lists.
pub open spec fn contacts_symmetric(cl: Map<Id, Vec<Id>>, a: Id, b: Id) -> bool {
    &&& cl.contains_key(a) && cl[a]@.contains(b)
    &&& cl.contains_key(b) && cl[b]@.contains(a)
}

/// The chats reported for a list of chat references: one entry per reference
/// whose chat is still recorded, in reference order.
pub open spec fn listed_chats(refs: Seq<ChatRef>, chats: Map<Id, StoredChat>) -> Seq<Chat>
    decreases refs.len(),
{
    if refs.len() == 0 {
        Seq::empty()
    } else {
        let rest = listed_chats(refs.drop_last(), chats);
        let last = refs.last();
        if chats.contains_key(last.id) {
            rest.push(Chat { id: last.id, participant_ids: chats[last.id].participant_ids })
        } else {
            rest
        }
    }
}

/// The mathematical value of one chat: its identifier and its participants.
pub open spec fn chat_model(c: Chat) -> (Id, Seq<Id>) {
    (c.id, c.participant_ids@)
}

/// The mathematical value of a chat list.
pub open spec fn chats_model(cs: Seq<Chat>) -> Seq<(Id, Seq<Id>)> {
    cs.map_values(|c: Chat| chat_model(c))
}

impl PartialEq for Chat {
    fn eq(&self, other: &Chat) -> (r: bool) {
        let r = self.id == other.id && self.participant_ids[0] == other.participant_ids[0]
            && self.participant_ids[1] == other.participant_ids[1];
        proof {
            if r {
                assert(self.participant_ids@ =~= other.participant_ids@);
            }
        }
        r
    }
}

impl vstd::std_specs::cmp::PartialEqSpecImpl for Chat {
    open spec fn obeys_eq_spec() -> bool {
        true
    }

    open spec fn eq_spec(&self, other: &Chat) -> bool {
        chat_model(*self) == chat_model(*other)
    }
}

/// The mathematical value of one message: its fields, the texts as sequences.
pub open spec fn msg_model(m: ChatMessage) -> (Seq<char>, u64, Seq<char>, Id, Id) {
    (m.id@, m.timestamp, m.message@, m.source_user_id, m.destination_user_id)
}

/// The mathematical value of a message list.
pub open spec fn msgs_model(ms: Seq<ChatMessage>) -> Seq<(Seq<char>, u64, Seq<char>, Id, Id)> {
    ms.map_values(|m: ChatMessage| msg_model(m))
}

/// The domain logic of the chat server: chats by identifier, each user's
/// chats, and the seeded contact lists.
pub struct ChatServer {
    pub chats: HashMap<Id, StoredChat>,
    pub chats_by_user_id: HashMap<Id, Vec<ChatRef>>,
    pub contact_lists: HashMap<Id, Vec<Id>>,
}

/// What issuing a CreateChat request does.
pub open spec fn create_chat_post(
    pre: ChatServer,
    post: ChatServer,
    r: ChatResponse,
    id: Id,
    a: Id,
    b: Id,
) -> bool {
    if pre.chats@.contains_key(id) || chat_id_spec(pre.chats_by_user_id@, a, b) is Some {
        r is ChatAlreadyExists && post == pre
    } else if !contacts_symmetric(pre.contact_lists@, a, b) {
        r is ChatValidationError && post == pre
    } else {
        &&& r is ChatCreated
        &&& post.contact_lists@ == pre.contact_lists@
        &&& post.chats@.dom() == pre.chats@.dom().insert(id)
        &&& post.chats@[id].participant_ids@ == seq![a, b]
        &&& post.chats@[id].messages@ == Seq::<ChatMessage>::empty()
        &&& forall|k: Id| k != id && pre.chats@.contains_key(k) ==> #[trigger] post.chats@[k]
            == pre.chats@[k]
        &&& post.chats_by_user_id@.dom() == pre.chats_by_user_id@.dom().insert(a).insert(b)
        &&& forall|k: Id| k != a && k != b && pre.chats_by_user_id@.contains_key(k)
            ==> #[trigger] post.chats_by_user_id@[k] == pre.chats_by_user_id@[k]
        &&& if a != b {
            post.chats_by_user_id@[a]@ == refs_of(pre.chats_by_user_id@, a).push(
                (ChatRef { id, destination_user_id: b }),
            ) && post.chats_by_user_id@[b]@ == refs_of(pre.chats_by_user_id@, b).push(
                (ChatRef { id, destination_user_id: a }),
            )
        } else {
            post.chats_by_user_id@[a]@ == refs_of(pre.chats_by_user_id@, a).push(
                (ChatRef { id, destination_user_id: b }),
            ).push((ChatRef { id, destination_user_id: a }))
        }
    }
}

/// What issuing an AddMessage request does.
pub open spec fn add_message_post(
    pre: ChatServer,
    post: ChatServer,
    r: ChatResponse,
    id: Seq<char>,
    chat_id: Id,
    src: Id,
    dst: Id,
    timestamp: u64,
    message: Seq<char>,
) -> bool {
    let found = chat_id_spec(pre.chats_by_user_id@, src, dst);
    if found == Some(chat_id) && pre.chats@.contains_key(chat_id) {
        &&& r is MessageAdded
        &&& post.contact_lists@ == pre.contact_lists@
        &&& post.chats_by_user_id@ == pre.chats_by_user_id@
        &&& post.chats@.dom() == pre.chats@.dom()
        &&& forall|k: Id| k != chat_id && pre.chats@.contains_key(k) ==> #[trigger] post.chats@[k]
            == pre.chats@[k]
        &&& post.chats@[chat_id].participant_ids == pre.chats@[chat_id].participant_ids
        &&& ({
            let ms = pre.chats@[chat_id].messages@;
            msgs_model(post.chats@[chat_id].messages@) == msgs_model(ms).insert(
                insert_pos(ms, timestamp),
                (id, timestamp, message, src, dst),
            )
        })
    } else {
        &&& r is UnknownChat
        &&& post.chats@ == pre.chats@
        &&& post.chats_by_user_id@ == pre.chats_by_user_id@
        &&& post.contact_lists@ == pre.contact_lists@
    }
}

impl ChatServer {
    /// A chat server with no chats and no contact lists.
    pub fn new() -> (r: Self)
        ensures
            r.chats@ == Map::<Id, StoredChat>::empty(),
            r.chats_by_user_id@ == Map::<Id, Vec<ChatRef>>::empty(),
            r.contact_lists@ == Map::<Id, Vec<Id>>::empty(),
    {
        Self {
            chats: HashMap::new(),
            chats_by_user_id: HashMap::new(),
            contact_lists: HashMap::new(),
        }
    }

    /// The identifier of the chat between the two users, if one is recorded:
    /// the first chat of the source user whose other participant is the
    /// destination user.
    fn chat_id(&self, source_user_id: Id, destination_user_id: Id) -> (r: Option<Id>)
        ensures
            r == chat_id_spec(self.chats_by_user_id@, source_user_id, destination_user_id),
    {
        let refs = match self.chats_by_user_id.get(&source_user_id) {
            None => {
                return None;
            },
            Some(refs) => refs,
        };
        assert(self.chats_by_user_id@.contains_key(source_user_id) && self.chats_by_user_id@[
            source_user_id
        ] == *refs);
        let n = refs.len();
        let mut i: usize = 0;
        assert(refs@.skip(0) =~= refs@);
        while i < n
            invariant
                i <= n,
                n == refs@.len(),
                self.chats_by_user_id@.contains_key(source_user_id),
                self.chats_by_user_id@[source_user_id]@ == refs@,
                find_chat_ref(refs@, destination_user_id) == find_chat_ref(
                    refs@.skip(i as int),
                    destination_user_id,
                ),
            decreases n - i,
        {
            proof {
                assert(refs@.skip(i as int)[0] == refs@[i as int]);
                assert(refs@.skip(i as int).drop_first() =~= refs@.skip(i as int + 1));
            }
            if refs[i].destination_user_id == destination_user_id {
                return Some(refs[i].id);
            }
            i = i + 1;
        }
        None
    }

    /// Whether the user's contact list contains the other user.
    fn in_contacts(&self, user: Id, other: Id) -> (r: bool)
        ensures
            r == (self.contact_lists@.contains_key(user) && self.contact_lists@[user]@.contains(
                other,
            )),
    {
        let list = match self.contact_lists.get(&user) {
            None => {
                return false;
            },
            Some(list) => list,
        };
        assert(self.contact_lists@.contains_key(user) && self.contact_lists@[user] == *list);
        let n = list.len();
        let mut i: usize = 0;
        while i < n
            invariant
                i <= n,
                n == list@.len(),
                self.contact_lists@.contains_key(user),
                self.contact_lists@[user]@ == list@,
                forall|j: int| 0 <= j < i ==> list@[j] != other,
            decreases n - i,
        {
            if list[i] == other {
                assert(list@.contains(other)) by {
                    assert(list@[i as int] == other);
                }
                return true;
            }
            i = i + 1;
        }
        assert(!list@.contains(other));
        false
    }

    /// Issue one request against the server, mutating its state and returning
    /// the protocol's response:
    /// - CreateChat records a chat between two mutual contacts, unless one
    ///   between them (or with that identifier) already exists;
    /// - AddMessage inserts a message into the chat between the two users,
    ///   provided it is the named chat;
    /// - ListChats reports the chats a user takes part in;
    /// - ListChat reports a chat's messages;
    /// - StoreContactList replaces a user's contact list.
    pub fn issue(&mut self, command: ChatRequest) -> (r: ChatResponse)
        ensures
            match command {
                ChatRequest::CreateChat { id, participant_ids } => create_chat_post(
                    *old(self),
                    *final(self),
                    r,
                    id,
                    participant_ids@[0],
                    participant_ids@[1],
                ),
                ChatRequest::AddMessage {
                    id,
                    chat_id,
                    source_user_id,
                    destination_user_id,
                    timestamp,
                    message,
                } => add_message_post(
                    *old(self),
                    *final(self),
                    r,
                    id@,
                    chat_id,
                    source_user_id,
                    destination_user_id,
                    timestamp,
                    message@,
                ),
                ChatRequest::ListChats { user_id } => *final(self) == *old(self) && (r matches
                    ChatResponse::ChatsListed { chats } && chats@ == listed_chats(
                    refs_of(old(self).chats_by_user_id@, user_id),
                    old(self).chats@,
                )),
                ChatRequest::ListChat { id } => *final(self) == *old(self) && (if old(self).chats@.contains_key(id) {
                    r matches ChatResponse::ChatListed { messages } && msgs_model(messages@)
                        == msgs_model(old(self).chats@[id].messages@)
                } else {
                    r is UnknownChat
                }),
                ChatRequest::StoreContactList { id, list } => r is ContactListStored && final(self).contact_lists@ == old(self).contact_lists@.insert(id, list) && final(self).chats@
                    == old(self).chats@ && final(self).chats_by_user_id@ == old(self).chats_by_user_id@,
            },
    {
        match command {
            ChatRequest::CreateChat { id, participant_ids } => {
                let a = participant_ids[0];
                let b = participant_ids[1];
                if self.chats.contains_key(&id) || self.chat_id(a, b).is_some() {
                    ChatResponse::ChatAlreadyExists
                } else if !(self.in_contacts(a, b) && self.in_contacts(b, a)) {
                    ChatResponse::ChatValidationError
                } else {
                    self.chats.insert(
                        id,
                        StoredChat { participant_ids, messages: Vec::new() },
                    );
                    let mut refs_a = match self.chats_by_user_id.remove(&a) {
                        Some(v) => v,
                        None => Vec::new(),
                    };
                    refs_a.push(ChatRef { id, destination_user_id: b });
                    self.chats_by_user_id.insert(a, refs_a);
                    let mut refs_b = match self.chats_by_user_id.remove(&b) {
                        Some(v) => v,
                        None => Vec::new(),
                    };
                    refs_b.push(ChatRef { id, destination_user_id: a });
                    self.chats_by_user_id.insert(b, refs_b);
                    proof {
                        assert(self.chats@.dom() =~= old(self).chats@.dom().insert(id));
                        assert(self.chats@[id].participant_ids@ =~= seq![a, b]);
                        assert(self.chats_by_user_id@.dom() =~= old(self).chats_by_user_id@.dom().insert(a).insert(b));
                    }
                    ChatResponse::ChatCreated
                }
            },
            ChatRequest::AddMessage {
                id,
                chat_id,
                source_user_id,
                destination_user_id,
                timestamp,
                message,
            } => {
                let found = self.chat_id(source_user_id, destination_user_id);
                let matching = match found {
                    Some(other) => other == chat_id,
                    None => false,
                };
                if !matching {
                    return ChatResponse::UnknownChat;
                }
                match self.chats.remove(&chat_id) {
                    None => {
                        proof {
                            assert(self.chats@ =~= old(self).chats@);
                        }
                        ChatResponse::UnknownChat
                    },
                    Some(mut chat) => {
                        let ghost ms = chat.messages@;
                        chat.insert(id, source_user_id, destination_user_id, timestamp, message);
                        self.chats.insert(chat_id, chat);
                        proof {
                            assert(self.chats@.dom() =~= old(self).chats@.dom());
                            lemma_insert_pos_bounds(ms, timestamp);
                            assert(msgs_model(self.chats@[chat_id].messages@) =~= msgs_model(
                                ms,
                            ).insert(
                                insert_pos(ms, timestamp),
                                (id@, timestamp, message@, source_user_id, destination_user_id),
                            ));
                        }
                        ChatResponse::MessageAdded
                    },
                }
            },
            ChatRequest::ListChats { user_id } => {
                let ghost all_refs = refs_of(self.chats_by_user_id@, user_id);
                match self.chats_by_user_id.get(&user_id) {
                    None => ChatResponse::ChatsListed { chats: Vec::new() },
                    Some(rs) => {
                        let n = rs.len();
                        let mut chats: Vec<Chat> = Vec::new();
                        let mut i: usize = 0;
                        while i < n
                            invariant
                                i <= n,
                                n == rs@.len(),
                                all_refs == rs@,
                                rs@ == refs_of(self.chats_by_user_id@, user_id),
                                chats@ == listed_chats(rs@.take(i as int), self.chats@),
                            decreases n - i,
                        {
                            proof {
                                assert(rs@.take(i as int + 1).drop_last() =~= rs@.take(i as int));
                                assert(rs@.take(i as int + 1).last() == rs@[i as int]);
                            }
                            let r_id = rs[i].id;
                            match self.chats.get(&r_id) {
                                Some(c) => {
                                    chats.push(
                                        Chat { id: r_id, participant_ids: c.participant_ids },
                                    );
                                },
                                None => {},
                            }
                            i = i + 1;
                        }
                        assert(rs@.take(n as int) =~= rs@);
                        ChatResponse::ChatsListed { chats }
                    },
                }
            },
            ChatRequest::ListChat { id } => {
                match self.chats.get(&id) {
                    Some(chat) => ChatResponse::ChatListed {
                        messages: clone_messages(&chat.messages),
                    },
                    None => ChatResponse::UnknownChat,
                }
            },
            ChatRequest::StoreContactList { id, list } => {
                self.contact_lists.insert(id, list);
                ChatResponse::ContactListStored
            },
        }
    }
}

/// A copy of a message list: the same fields, message by message.
fn clone_messages(ms: &Vec<ChatMessage>) -> (r: Vec<ChatMessage>)
    ensures
        msgs_model(r@) == msgs_model(ms@),
{
    let n = ms.len();
    let mut out: Vec<ChatMessage> = Vec::new();
    let mut i: usize = 0;
    while i < n
        invariant
            i <= n,
            n == ms@.len(),
            out@.len() == i,
            forall|j: int| 0 <= j < i ==> msg_model(#[trigger] out@[j]) == msg_model(ms@[j]),
        decreases n - i,
    {
        let m = &ms[i];
        out.push(
            ChatMessage {
                id: m.id.clone(),
                timestamp: m.timestamp,
                message: m.message.clone(),
                source_user_id: m.source_user_id,
                destination_user_id: m.destination_user_id,
            },
        );
        i = i + 1;
    }
    assert(msgs_model(out@) =~= msgs_model(ms@));
    out
}

impl PartialEq for ChatMessage {
    fn eq(&self, other: &ChatMessage) -> (r: bool) {
        self.id == other.id && self.timestamp == other.timestamp && self.message == other.message
            && self.source_user_id == other.source_user_id && self.destination_user_id
            == other.destination_user_id
    }
}

impl vstd::std_specs::cmp::PartialEqSpecImpl for ChatMessage {
    open spec fn obeys_eq_spec() -> bool {
        true
    }

    open spec fn eq_spec(&self, other: &ChatMessage) -> bool {
        msg_model(*self) == msg_model(*other)
    }
}

/// Whether two message lists hold the same messages.
fn messages_eq(a: &Vec<ChatMessage>, b: &Vec<ChatMessage>) -> (r: bool)
    ensures
        r == (msgs_model(a@) == msgs_model(b@)),
{
    if a.len() != b.len() {
        assert(msgs_model(a@).len() != msgs_model(b@).len());
        return false;
    }
    let n = a.len();
    let mut i: usize = 0;
    while i < n
        invariant
            i <= n,
            n == a@.len() == b@.len(),
            forall|j: int| 0 <= j < i ==> msg_model(a@[j]) == msg_model(b@[j]),
        decreases n - i,
    {
        if !(a[i] == b[i]) {
            assert(msgs_model(a@)[i as int] != msgs_model(b@)[i as int]);
            return false;
        }
        i = i + 1;
    }
    assert(msgs_model(a@) =~= msgs_model(b@));
    true
}

/// Whether two chat lists hold the same chats.
fn chats_eq(a: &Vec<Chat>, b: &Vec<Chat>) -> (r: bool)
    ensures
        r == (chats_model(a@) == chats_model(b@)),
{
    if a.len() != b.len() {
        assert(chats_model(a@).len() != chats_model(b@).len());
        return false;
    }
    let n = a.len();
    let mut i: usize = 0;
    while i < n
        invariant
            i <= n,
            n == a@.len() == b@.len(),
            forall|j: int| 0 <= j < i ==> chat_model(a@[j]) == chat_model(b@[j]),
        decreases n - i,
    {
        if !(a[i] == b[i]) {
            assert(chats_model(a@)[i as int] != chats_model(b@)[i as int]);
            return false;
        }
        i = i + 1;
    }
    assert(chats_model(a@) =~= chats_model(b@));
    true
}

impl PartialEq for ChatResponse {
    fn eq(&self, other: &ChatResponse) -> (r: bool) {
        match (self, other) {
            (ChatResponse::ChatCreated, ChatResponse::ChatCreated) => true,
            (ChatResponse::ChatAlreadyExists, ChatResponse::ChatAlreadyExists) => true,
            (ChatResponse::ChatParsingError, ChatResponse::ChatParsingError) => true,
            (ChatResponse::ChatValidationError, ChatResponse::ChatValidationError) => true,
            (
                ChatResponse::ChatListed { messages: a },
                ChatResponse::ChatListed { messages: b },
            ) => messages_eq(a, b),
            (ChatResponse::ChatsListed { chats: a }, ChatResponse::ChatsListed { chats: b }) => {
                chats_eq(a, b)
            },
            (ChatResponse::ContactListStored, ChatResponse::ContactListStored) => true,
            (ChatResponse::MessageAdded, ChatResponse::MessageAdded) => true,
            (ChatResponse::MessageParsingError, ChatResponse::MessageParsingError) => true,
            (ChatResponse::UnknownChat, ChatResponse::UnknownChat) => true,
            _ => false,
        }
    }
}

impl vstd::std_specs::cmp::PartialEqSpecImpl for ChatResponse {
    open spec fn obeys_eq_spec() -> bool {
        true
    }

    open spec fn eq_spec(&self, other: &ChatResponse) -> bool {
        match (self, other) {
            (ChatResponse::ChatCreated, ChatResponse::ChatCreated) => true,
            (ChatResponse::ChatAlreadyExists, ChatResponse::ChatAlreadyExists) => true,
            (ChatResponse::ChatParsingError, ChatResponse::ChatParsingError) => true,
            (ChatResponse::ChatValidationError, ChatResponse::ChatValidationError) => true,
            (
                ChatResponse::ChatListed { messages: a },
                ChatResponse::ChatListed { messages: b },
            ) => msgs_model(a@) == msgs_model(b@),
            (ChatResponse::ChatsListed { chats: a }, ChatResponse::ChatsListed { chats: b }) => {
                chats_model(a@) == chats_model(b@)
            },
            (ChatResponse::ContactListStored, ChatResponse::ContactListStored) => true,
            (ChatResponse::MessageAdded, ChatResponse::MessageAdded) => true,
            (ChatResponse::MessageParsingError, ChatResponse::MessageParsingError) => true,
            (ChatResponse::UnknownChat, ChatResponse::UnknownChat) => true,
            _ => false,
        }
    }
}

} // verus!
