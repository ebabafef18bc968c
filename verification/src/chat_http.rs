use vstd::prelude::*;
use vstd::slice::slice_subrange;
use vstd::utf8::{decode_utf8, encode_utf8, valid_utf8};
use crate::bytes::{all_digits, bytes_eq, copy_range, digits_val, str_bytes, utf8_to_string};
use crate::chat::{
    add_message_post, create_chat_post, listed_chats, msgs_model, refs_of, ChatRequest,
    ChatResponse, ChatServer,
};
use crate::http::{
    find_byte, lemma_find_byte_bounds, status_text_spec, BodyContent, HttpMethod, HttpRequest,
    HttpResponse, RequestModel,
};
use crate::server::Handler;
use crate::json::{chat_fields, chats_to_json, json_chats, json_messages, message_fields,
    messages_to_json, parse_chat_fields, parse_message_fields};

verus! {

/// The segments of a path split on slashes, with a trailing empty segment
/// dropped.
pub open spec fn slash_segs(p: Seq<u8>) -> Seq<Seq<u8>>
    decreases p.len(),
        via slash_segs_dec
{
    if p.len() == 0 {
        Seq::empty()
    } else {
        match find_byte(p, 0, 47) {
            None => seq![p],
            Some(k) => seq![p.subrange(0, k)] + slash_segs(p.subrange(k + 1, p.len() as int)),
        }
    }
}

#[via_fn]
proof fn slash_segs_dec(p: Seq<u8>) {
    lemma_find_byte_bounds(p, 0, 47);
}

/// Byte sequences of a list of path segments.
pub open spec fn segs_view(segs: Seq<Vec<u8>>) -> Seq<Seq<u8>> {
    segs.map_values(|v: Vec<u8>| v@)
}

/// Split a path on slashes.
fn split_path(p: &[u8]) -> (r: Vec<Vec<u8>>)
    ensures
        segs_view(r@) == slash_segs(p@),
    decreases p@.len(),
{
    proof {
        lemma_find_byte_bounds(p@, 0, 47);
    }
    if p.len() == 0 {
        let r: Vec<Vec<u8>> = Vec::new();
        assert(segs_view(r@) =~= slash_segs(p@));
        return r;
    }
    match crate::http::find_byte_in(p, 0, 47) {
        None => {
            let whole = copy_range(p, 0, p.len());
            assert(whole@ =~= p@);
            let mut r: Vec<Vec<u8>> = Vec::new();
            r.push(whole);
            assert(segs_view(r@) =~~= slash_segs(p@));
            r
        },
        Some(k) => {
            let head = copy_range(p, 0, k);
            let tail = slice_subrange(p, k + 1, p.len());
            let mut rest = split_path(tail);
            let ghost rest_snap = rest@;
            rest.insert(0, head);
            assert(segs_view(rest@) =~~= seq![head@] + segs_view(rest_snap));
            rest
        },
    }
}

/// The number a decimal text denotes: an optional plus sign, then digits,
/// fitting a `u64`.
pub open spec fn u64_of_dec(v: Seq<u8>) -> Option<u64> {
    let dgs = if v.len() > 0 && v[0] == 43 {
        v.drop_first()
    } else {
        v
    };
    if dgs.len() > 0 && all_digits(dgs) && digits_val(dgs) <= u64::MAX {
        Some(digits_val(dgs) as u64)
    } else {
        None
    }
}

/// Read the number a decimal text denotes.
fn parse_u64_dec(v: &[u8]) -> (r: Option<u64>)
    ensures
        r == u64_of_dec(v@),
{
    let from: usize = if v.len() > 0 && v[0] == 43 {
        1
    } else {
        0
    };
    let ghost dgs = if v@.len() > 0 && v@[0] == 43 {
        v@.drop_first()
    } else {
        v@
    };
    assert(dgs =~= v@.subrange(from as int, v@.len() as int));
    crate::bytes::parse_u64_digits(v, from, v.len())
}

/// Whether a segment begins with the given prefix.
pub open spec fn has_prefix(s: Seq<u8>, pre: Seq<u8>) -> bool {
    s.len() >= pre.len() && s.subrange(0, pre.len() as int) == pre
}

/// Check whether a segment begins with the given prefix.
fn check_prefix(s: &[u8], pre: &[u8]) -> (r: bool)
    ensures
        r == has_prefix(s@, pre@),
{
    if s.len() < pre.len() {
        return false;
    }
    bytes_eq(slice_subrange(s, 0, pre.len()), pre)
}

/// A plain-text response: the echoed version, the status with its derived
/// text, one Content-Type header, and the given body.
pub open spec fn plain_post(version: Seq<u8>, status: u16, body: Seq<u8>, r: HttpResponse) -> bool {
    &&& r.version@ == version
    &&& r.status == status
    &&& r.status_text@ == status_text_spec(status)
    &&& r.headers@.len() == 1
    &&& r.headers@[0].0@ == "Content-Type"@
    &&& r.headers@[0].1@ == "text/plain"@
    &&& r.body@ == body
}

/// A JSON response carrying the given wire bytes (or an empty array when the
/// bytes are not a well-formed text).
pub open spec fn json_post(version: Seq<u8>, body: Seq<u8>, r: HttpResponse) -> bool {
    &&& r.version@ == version
    &&& r.status == 200
    &&& r.status_text@ == status_text_spec(200)
    &&& r.headers@.len() == 1
    &&& r.headers@[0].0@ == "Content-Type"@
    &&& r.headers@[0].1@ == "application/json"@
    &&& valid_utf8(body) ==> r.body@ == body
    &&& !valid_utf8(body) ==> r.body@ == encode_utf8("[]"@)
}

/// The response each protocol answer is encoded as.
pub open spec fn encode_post(version: Seq<u8>, v: ChatResponse, r: HttpResponse) -> bool {
    match v {
        ChatResponse::ChatCreated => plain_post(
            version,
            200,
            encode_utf8("The supplied chat was created"@),
            r,
        ),
        ChatResponse::ChatAlreadyExists => plain_post(
            version,
            400,
            encode_utf8("The supplied chat was not created because one already exists"@),
            r,
        ),
        ChatResponse::ChatParsingError => plain_post(
            version,
            400,
            encode_utf8("The supplied chat was not created due to a parsing error"@),
            r,
        ),
        ChatResponse::ChatValidationError => plain_post(
            version,
            400,
            encode_utf8("The supplied chat was not created due to a validation error"@),
            r,
        ),
        ChatResponse::ChatListed { messages } => json_post(version, json_messages(messages@), r),
        ChatResponse::ChatsListed { chats } => json_post(version, json_chats(chats@), r),
        ChatResponse::ContactListStored => plain_post(
            version,
            501,
            encode_utf8("Contact lists cannot be managed over HTTP"@),
            r,
        ),
        ChatResponse::MessageAdded => plain_post(
            version,
            200,
            encode_utf8("The supplied message was added to the chat"@),
            r,
        ),
        ChatResponse::MessageParsingError => plain_post(
            version,
            400,
            encode_utf8("The supplied message was not added to the chat due to a parsing error"@),
            r,
        ),
        ChatResponse::UnknownChat => plain_post(
            version,
            404,
            encode_utf8("A chat with the provided id does not exist"@),
            r,
        ),
    }
}

/// The fixed response to a path no route recognises.
pub open spec fn unknown_route_post(version: Seq<u8>, r: HttpResponse) -> bool {
    plain_post(version, 404, encode_utf8("The route is unknown"@), r)
}

/// The chat server's state is as it was.
pub open spec fn server_unchanged(pre: ChatServer, post: ChatServer) -> bool {
    &&& post.chats@ == pre.chats@
    &&& post.chats_by_user_id@ == pre.chats_by_user_id@
    &&& post.contact_lists@ == pre.contact_lists@
}

/// The body of a request, or nothing.
pub open spec fn body_of(req: RequestModel) -> Seq<u8> {
    match req.body {
        Some(b) => b,
        None => Seq::empty(),
    }
}

/// Wraps a `ChatServer` and translates its protocol to the wire: requests are
/// routed by method and path, bodies decoded, and the server's answers turned
/// into responses.
pub struct ChatHttpServer {
    pub server: ChatServer,
}

impl ChatHttpServer {
    /// A translation layer around the supplied chat server.
    pub fn new(server: ChatServer) -> (r: Self)
        ensures
            r.server == server,
    {
        Self { server }
    }

    /// Encode one protocol answer as a response that echoes the request's
    /// version: a fixed text with a status per answer, or the listed chats or
    /// messages as a JSON body.
    fn encode(request: &HttpRequest, resp: ChatResponse) -> (r: HttpResponse)
        ensures
            encode_post(request.version@, resp, r),
    {
        let version = copy_range(request.version.as_slice(), 0, request.version.len());
        assert(version@ =~= request.version@);
        match resp {
            ChatResponse::UnknownChat => HttpResponse::new(
                version,
                404,
                &[("Content-Type", "text/plain")],
                BodyContent::Str("A chat with the provided id does not exist"),
            ),
            ChatResponse::ChatAlreadyExists => HttpResponse::new(
                version,
                400,
                &[("Content-Type", "text/plain")],
                BodyContent::Str("The supplied chat was not created because one already exists"),
            ),
            ChatResponse::ChatParsingError => HttpResponse::new(
                version,
                400,
                &[("Content-Type", "text/plain")],
                BodyContent::Str("The supplied chat was not created due to a parsing error"),
            ),
            ChatResponse::ChatValidationError => HttpResponse::new(
                version,
                400,
                &[("Content-Type", "text/plain")],
                BodyContent::Str("The supplied chat was not created due to a validation error"),
            ),
            ChatResponse::ChatCreated => HttpResponse::new(
                version,
                200,
                &[("Content-Type", "text/plain")],
                BodyContent::Str("The supplied chat was created"),
            ),
            ChatResponse::ContactListStored => HttpResponse::new(
                version,
                501,
                &[("Content-Type", "text/plain")],
                BodyContent::Str("Contact lists cannot be managed over HTTP"),
            ),
            ChatResponse::ChatListed { messages } => {
                let bytes = messages_to_json(&messages);
                let ghost jb = bytes@;
                let body = match utf8_to_string(bytes) {
                    Some(s) => BodyContent::String(s),
                    None => BodyContent::Str("[]"),
                };
                proof {
                    if valid_utf8(jb) {
                        vstd::utf8::decode_utf8_encode_utf8(jb);
                    }
                }
                HttpResponse::new(version, 200, &[("Content-Type", "application/json")], body)
            },
            ChatResponse::ChatsListed { chats } => {
                let bytes = chats_to_json(&chats);
                let ghost jb = bytes@;
                let body = match utf8_to_string(bytes) {
                    Some(s) => BodyContent::String(s),
                    None => BodyContent::Str("[]"),
                };
                proof {
                    if valid_utf8(jb) {
                        vstd::utf8::decode_utf8_encode_utf8(jb);
                    }
                }
                HttpResponse::new(version, 200, &[("Content-Type", "application/json")], body)
            },
            ChatResponse::MessageAdded => HttpResponse::new(
                version,
                200,
                &[("Content-Type", "text/plain")],
                BodyContent::Str("The supplied message was added to the chat"),
            ),
            ChatResponse::MessageParsingError => HttpResponse::new(
                version,
                400,
                &[("Content-Type", "text/plain")],
                BodyContent::Str(
                    "The supplied message was not added to the chat due to a parsing error",
                ),
            ),
        }
    }

    /// Process one request, returning the appropriate response.
    ///
    /// The path is split on slashes (discarding the segment before the
    /// leading slash) and routed: POST to chats creates a chat from the JSON
    /// body; POST to a chat's messages adds a message from the JSON body; GET
    /// with a userId query lists a user's chats; GET on a chat's messages
    /// lists them; anything else is an unknown route.
    pub fn issue(&mut self, request: HttpRequest) -> (r: HttpResponse)
        ensures
            ({
                let segs = slash_segs(request.path@);
                let body = body_of(request@);
                let ver = request.version@;
                let pre_srv = old(self).server;
                let post_srv = final(self).server;
                if request.method is POST && segs.len() == 2 && segs[1] == encode_utf8("chats"@) {
                    match chat_fields(body) {
                        None => server_unchanged(pre_srv, post_srv) && encode_post(
                            ver,
                            ChatResponse::ChatParsingError,
                            r,
                        ),
                        Some((cid, p0, p1)) => exists|v: ChatResponse|
                            #[trigger] encode_post(ver, v, r) && create_chat_post(
                                pre_srv,
                                post_srv,
                                v,
                                cid,
                                p0,
                                p1,
                            ),
                    }
                } else if request.method is POST && segs.len() >= 4 && segs[1] == encode_utf8(
                    "chats"@,
                ) && segs[3] == encode_utf8("messages"@) {
                    match message_fields(body) {
                        None => server_unchanged(pre_srv, post_srv) && encode_post(
                            ver,
                            ChatResponse::MessageParsingError,
                            r,
                        ),
                        Some((idb, ts, mb, src, dst)) => match u64_of_dec(segs[2]) {
                            None => server_unchanged(pre_srv, post_srv) && encode_post(
                                ver,
                                ChatResponse::UnknownChat,
                                r,
                            ),
                            Some(cid) => if valid_utf8(idb) && valid_utf8(mb) {
                                exists|v: ChatResponse|
                                    #[trigger] encode_post(ver, v, r) && add_message_post(
                                        pre_srv,
                                        post_srv,
                                        v,
                                        decode_utf8(idb),
                                        cid,
                                        src,
                                        dst,
                                        ts,
                                        decode_utf8(mb),
                                    )
                            } else {
                                server_unchanged(pre_srv, post_srv) && encode_post(
                                    ver,
                                    ChatResponse::MessageParsingError,
                                    r,
                                )
                            },
                        },
                    }
                } else if request.method is GET && segs.len() == 2 && has_prefix(
                    segs[1],
                    encode_utf8("chats?userId="@),
                ) {
                    let tail = segs[1].subrange(
                        encode_utf8("chats?userId="@).len() as int,
                        segs[1].len() as int,
                    );
                    server_unchanged(pre_srv, post_srv) && exists|v: ChatResponse|
                        #[trigger] encode_post(ver, v, r) && (v matches ChatResponse::ChatsListed {
                            chats,
                        } && chats@ == (match u64_of_dec(tail) {
                            Some(uid) => listed_chats(
                                refs_of(pre_srv.chats_by_user_id@, uid),
                                pre_srv.chats@,
                            ),
                            None => Seq::<crate::chat::Chat>::empty(),
                        }))
                } else if request.method is GET && segs.len() >= 4 && segs[1] == encode_utf8(
                    "chats"@,
                ) && segs[3] == encode_utf8("messages"@) {
                    server_unchanged(pre_srv, post_srv) && (match u64_of_dec(segs[2]) {
                        None => encode_post(ver, ChatResponse::UnknownChat, r),
                        Some(cid) => if pre_srv.chats@.contains_key(cid) {
                            exists|v: ChatResponse|
                                #[trigger] encode_post(ver, v, r) && (v
                                    matches ChatResponse::ChatListed { messages } && msgs_model(
                                    messages@,
                                ) == msgs_model(pre_srv.chats@[cid].messages@))
                        } else {
                            encode_post(ver, ChatResponse::UnknownChat, r)
                        },
                    })
                } else {
                    server_unchanged(pre_srv, post_srv) && unknown_route_post(ver, r)
                }
            }),
    {
        let empty_body: Vec<u8> = Vec::new();
        let body: &[u8] = match &request.body {
            Some(b) => b.as_slice(),
            None => empty_body.as_slice(),
        };
        assert(body@ =~= body_of(request@));
        let segs = split_path(request.path.as_slice());
        let ghost sv = slash_segs(request.path@);
        let nsegs = segs.len();
        let is_post = request.method() == HttpMethod::POST;
        let is_get = request.method() == HttpMethod::GET;

        if is_post && nsegs == 2 && bytes_eq(segs[1].as_slice(), str_bytes("chats")) {
            assert(sv[1] == segs@[1]@);
            match parse_chat_fields(body) {
                None => Self::encode(&request, ChatResponse::ChatParsingError),
                Some((cid, p0, p1)) => {
                    let v = self.server.issue(
                        ChatRequest::CreateChat { id: cid, participant_ids: [p0, p1] },
                    );
                    let ghost gv = v;
                    proof {
                        assert([p0, p1]@[0] == p0 && [p0, p1]@[1] == p1);
                    }
                    let r = Self::encode(&request, v);
                    proof {
                        assert(encode_post(request.version@, gv, r) && create_chat_post(
                            old(self).server,
                            self.server,
                            gv,
                            cid,
                            p0,
                            p1,
                        ));
                    }
                    r
                },
            }
        } else if is_post && nsegs >= 4 && bytes_eq(segs[1].as_slice(), str_bytes("chats"))
            && bytes_eq(segs[3].as_slice(), str_bytes("messages")) {
            assert(sv[1] == segs@[1]@ && sv[2] == segs@[2]@ && sv[3] == segs@[3]@);
            match parse_message_fields(body) {
                None => Self::encode(&request, ChatResponse::MessageParsingError),
                Some((idb, ts, mb, src, dst)) => {
                    let ghost idb_snap = idb@;
                    let ghost mb_snap = mb@;
                    match parse_u64_dec(segs[2].as_slice()) {
                        None => Self::encode(&request, ChatResponse::UnknownChat),
                        Some(cid) => {
                            let id_s = utf8_to_string(idb);
                            let msg_s = utf8_to_string(mb);
                            match (id_s, msg_s) {
                                (Some(id_s), Some(msg_s)) => {
                                    let v = self.server.issue(
                                        ChatRequest::AddMessage {
                                            id: id_s,
                                            chat_id: cid,
                                            source_user_id: src,
                                            destination_user_id: dst,
                                            timestamp: ts,
                                            message: msg_s,
                                        },
                                    );
                                    let ghost gv = v;
                                    let r = Self::encode(&request, v);
                                    proof {
                                        assert(encode_post(request.version@, gv, r)
                                            && add_message_post(
                                            old(self).server,
                                            self.server,
                                            gv,
                                            decode_utf8(idb_snap),
                                            cid,
                                            src,
                                            dst,
                                            ts,
                                            decode_utf8(mb_snap),
                                        ));
                                    }
                                    r
                                },
                                _ => Self::encode(&request, ChatResponse::MessageParsingError),
                            }
                        },
                    }
                },
            }
        } else if is_get && nsegs == 2 && check_prefix(
            segs[1].as_slice(),
            str_bytes("chats?userId="),
        ) {
            assert(sv[1] == segs@[1]@);
            let seg1 = &segs[1];
            let pre_len = str_bytes("chats?userId=").len();
            let tail = slice_subrange(seg1.as_slice(), pre_len, seg1.len());
            let v = match parse_u64_dec(tail) {
                Some(uid) => self.server.issue(ChatRequest::ListChats { user_id: uid }),
                None => ChatResponse::ChatsListed { chats: Vec::new() },
            };
            let ghost gv = v;
            let r = Self::encode(&request, v);
            proof {
                assert(encode_post(request.version@, gv, r));
                assert(gv matches ChatResponse::ChatsListed { chats });
            }
            r
        } else if is_get && nsegs >= 4 && bytes_eq(segs[1].as_slice(), str_bytes("chats"))
            && bytes_eq(segs[3].as_slice(), str_bytes("messages")) {
            assert(sv[1] == segs@[1]@ && sv[2] == segs@[2]@ && sv[3] == segs@[3]@);
            match parse_u64_dec(segs[2].as_slice()) {
                None => Self::encode(&request, ChatResponse::UnknownChat),
                Some(cid) => {
                    let v = self.server.issue(ChatRequest::ListChat { id: cid });
                    let ghost gv = v;
                    let r = Self::encode(&request, v);
                    proof {
                        assert(encode_post(request.version@, gv, r));
                    }
                    r
                },
            }
        } else {
            let version = copy_range(request.version.as_slice(), 0, request.version.len());
            assert(version@ =~= request.version@);
            HttpResponse::new(
                version,
                404,
                &[("Content-Type", "text/plain")],
                BodyContent::Str("The route is unknown"),
            )
        }
    }
}

impl Handler for ChatHttpServer {
    /// The chat server is the application-level handler of this system: each
    /// fully parsed request is answered by routing it through `issue`.
    fn handle(&mut self, request: HttpRequest) -> HttpResponse {
        self.issue(request)
    }
}

} // verus!
