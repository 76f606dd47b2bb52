//! The HTTP side of the service: the backend pushes messages to a
//! connection with `PUT /<id>` and closes it with `DELETE /<id>`.
use crate::http_client::HttpMethod;
use crate::text::parse_u16;
use crate::ws_engine::WebsocketEngine;
use futures_channel::mpsc::UnboundedSender;
use tungstenite::protocol::Message;
use vstd::prelude::*;

verus! {

/// The connection identifier named by a request target: all of it but its
/// first character (the leading `/`).
pub open spec fn id_of(uri: Seq<char>) -> Seq<char> {
    uri.drop_first()
}

/// The JSON body of an answer carrying `code`.
pub open spec fn code_json(code: Seq<char>) -> Seq<char> {
    "{\"code\": \""@ + code + "\"}"@
}

/// The code that answers a request with `method` on connection `id`, whose
/// body has `len` bytes.
pub open spec fn request_reply(engine: WebsocketEngine, method: HttpMethod, id: Seq<char>, len: nat) -> Seq<char> {
    match method {
        HttpMethod::Put => crate::ws_engine::send_reply(
            engine.connections().contains_key(id),
            len,
            engine.max_pages() as nat,
        ),
        HttpMethod::Delete => crate::ws_engine::close_reply(engine.connections().contains_key(id)),
        _ => "BAD_REQUEST"@,
    }
}

/// What a request with `method` on connection `id` does to the WebSocket
/// side, answered `code`: `PUT` pushes `body`, `DELETE` closes the
/// connection, and any other method changes nothing.
pub open spec fn request_effect(
    before: WebsocketEngine,
    after: WebsocketEngine,
    method: HttpMethod,
    id: Seq<char>,
    body: Seq<u8>,
    code: Seq<char>,
) -> bool {
    match method {
        HttpMethod::Put => crate::ws_engine::push_effect(before, after, id, body, code),
        HttpMethod::Delete => crate::ws_engine::close_effect(before, after, id, code),
        _ => after == before,
    }
}

/// The connection identifier named by the request target `uri`.
pub fn get_id(uri: &String) -> (id: String)
    requires
        uri@.len() > 0,
    ensures
        id@ == id_of(uri@),
{
    let s = uri.as_str();
    let n = s.unicode_len();
    String::from_str(s.substring_char(1, n))
}

/// The JSON body of an answer carrying `code`.
pub fn response_body(code: &String) -> (body: String)
    ensures
        body@ == code_json(code@),
{
    let mut body = String::from_str("{\"code\": \"");
    body.append(code.as_str());
    body.append("\"}");
    body
}

/// The HTTP side of the service, with the WebSocket side it drives.
pub struct HttpServer {
    port: u16,
    ws_engine: WebsocketEngine,
}

impl HttpServer {
    /// The port the HTTP listener binds.
    pub closed spec fn port_value(self) -> u16 {
        self.port
    }

    /// The WebSocket side.
    pub closed spec fn engine(self) -> WebsocketEngine {
        self.ws_engine
    }

    /// A server on the port that `port` spells in decimal.
    pub fn new(port: String, ws_engine: WebsocketEngine) -> (s: HttpServer)
        requires
            crate::text::parse_unsigned(port@, u16::MAX as nat) is Some,
        ensures
            s.port_value() as nat == crate::text::parse_unsigned(port@, u16::MAX as nat)->0,
            s.engine() == ws_engine,
    {
        let p = match parse_u16(port.as_str()) {
            Some(p) => p,
            None => 0,
        };
        HttpServer { port: p, ws_engine: ws_engine }
    }

    /// The port the HTTP listener binds.
    pub fn port(&self) -> (p: u16)
        ensures
            p == self.port_value(),
    {
        self.port
    }

    /// The WebSocket side.
    pub fn ws_engine(&self) -> (e: &WebsocketEngine)
        ensures
            *e == self.engine(),
    {
        &self.ws_engine
    }

    /// Records the open connection `id`, whose messages go out through `tx`.
    pub fn register_connection(&mut self, id: String, tx: UnboundedSender<Message>)
        ensures
            final(self).engine().connections().remove(id@) == old(self).engine().connections().remove(id@),
            final(self).engine().connections().contains_key(id@),
            final(self).engine().connections()[id@].sender() == tx,
            final(self).engine().connections()[id@].pushed() == Seq::<Seq<u8>>::empty(),
            !final(self).engine().connections()[id@].shut(),
            final(self).engine().closed_log() == old(self).engine().closed_log(),
            crate::ws_engine::same_settings(old(self).engine(), final(self).engine()),
            final(self).port_value() == old(self).port_value(),
    {
        self.ws_engine.register(id, tx);
    }

    /// Forgets the connection `id`.
    pub fn unregister_connection(&mut self, id: &String)
        ensures
            final(self).engine().connections() == old(self).engine().connections().remove(id@),
            final(self).engine().closed_log() == old(self).engine().closed_log(),
            crate::ws_engine::same_settings(old(self).engine(), final(self).engine()),
            final(self).port_value() == old(self).port_value(),
    {
        self.ws_engine.unregister(id);
    }

    /// Answers a request from the backend: `PUT` pushes `body` to the
    /// connection that `uri` names, `DELETE` closes it, and any other method
    /// is a bad request that changes nothing. The answer is a JSON body
    /// carrying a code.
    pub fn handle_request(&mut self, method: HttpMethod, uri: &String, body: Vec<u8>) -> (answer:
        String)
        requires
            uri@.len() > 0,
        ensures
            answer@ == code_json(
                request_reply(old(self).engine(), method, id_of(uri@), body@.len()),
            ),
            request_effect(
                old(self).engine(),
                final(self).engine(),
                method,
                id_of(uri@),
                body@,
                request_reply(old(self).engine(), method, id_of(uri@), body@.len()),
            ),
            final(self).port_value() == old(self).port_value(),
    {
        let id = get_id(uri);
        let code = match method {
            HttpMethod::Put => self.ws_engine.send_msg(&id, body),
            HttpMethod::Delete => self.ws_engine.close_ws(&id),
            _ => String::from_str("BAD_REQUEST"),
        };
        response_body(&code)
    }
}

/// What the backend's requests do, whatever the bodies: a `PUT` of fewer
/// than `max_page * 32768` bytes to an open connection is answered `OK` and
/// hands that body to it; a longer `PUT` is answered `MESSAGE_TOO_LONG`, and
/// one to an unknown connection `NOT_FOUND`, both changing nothing; a
/// `DELETE` of an open connection is answered `OK`, removes it and closes
/// its channel; any other method is answered `BAD_REQUEST` and changes nothing.
pub proof fn law_requests(
    e: WebsocketEngine,
    e2: WebsocketEngine,
    method: HttpMethod,
    id: Seq<char>,
    body: Seq<u8>,
)
    requires
        request_effect(e, e2, method, id, body, request_reply(e, method, id, body.len())),
    ensures
        ({
            let code = request_reply(e, method, id, body.len());
            let open = e.connections().contains_key(id);
            let fits = body.len() < e.max_pages() * 32768;
            &&& method == HttpMethod::Put && fits && open ==> {
                &&& code == "OK"@
                &&& e2.connections().dom() == e.connections().dom()
                &&& e2.connections().remove(id) == e.connections().remove(id)
                &&& e2.connections()[id].pushed() == e.connections()[id].pushed().push(body)
                &&& e2.connections()[id].sender() == e.connections()[id].sender()
            }
            &&& method == HttpMethod::Put && !fits ==> code == "MESSAGE_TOO_LONG"@
                && e2.connections() == e.connections()
            &&& method == HttpMethod::Put && fits && !open ==> code == "NOT_FOUND"@
                && e2.connections() == e.connections()
            &&& method == HttpMethod::Delete && open ==> {
                &&& code == "OK"@
                &&& e2.connections() == e.connections().remove(id)
                &&& e2.closed_log().last().0 == id
                &&& e2.closed_log().last().1.shut()
                &&& e2.closed_log().last().1.sender() == e.connections()[id].sender()
            }
            &&& method == HttpMethod::Delete && !open ==> code == "NOT_FOUND"@
                && e2.connections() == e.connections() && e2.closed_log() == e.closed_log()
            &&& (method != HttpMethod::Put && method != HttpMethod::Delete) ==> code
                == "BAD_REQUEST"@ && e2 == e
        }),
{
    reveal_strlit("OK");
    reveal_strlit("NOT_FOUND");
    reveal_strlit("MESSAGE_TOO_LONG");
    assert("OK"@.len() != "NOT_FOUND"@.len());
    assert("OK"@.len() != "MESSAGE_TOO_LONG"@.len());
    crate::ws_engine::law_too_long_is_refused(
        e.connections().contains_key(id),
        body.len(),
        e.max_pages() as nat,
    );
    if !e.connections().contains_key(id) {
        assert(e.connections().remove(id) =~= e.connections());
    }
}

/// A backend that was told a connection lives at `<local>/<id>` reaches it
/// with the request target `/<id>`, which names that same connection.
pub proof fn law_path_names_connection(id: Seq<char>)
    ensures
        id_of("/"@ + id) == id,
{
    reveal_strlit("/");
    assert(("/"@ + id).drop_first() =~= id);
}

} // verus!
