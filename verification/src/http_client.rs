//! The requests that the service sends to the backend it serves: one when a
//! client connects, one for each message a client sends, one when a client
//! leaves.
use crate::answer::{decode_string, read_answer_code};
use crate::text::decimal_text;
use vstd::prelude::*;

verus! {

/// The HTTP methods that the service tells apart.
#[derive(PartialEq, Eq, Structural, Clone, Copy, Debug)]
pub enum HttpMethod {
    Get,
    Post,
    Put,
    Delete,
    Other,
}

/// A request to be sent: method, target, headers (name, value) in order, and body.
pub struct OutgoingRequest {
    pub method: HttpMethod,
    pub uri: String,
    pub headers: Vec<(String, String)>,
    pub body: String,
}

/// The text of each header: name and value.
pub open spec fn header_texts(headers: Seq<(String, String)>) -> Seq<(Seq<char>, Seq<char>)> {
    headers.map_values(|h: (String, String)| (h.0@, h.1@))
}

/// `base`, a slash, then `id`.
pub open spec fn join_path(base: Seq<char>, id: Seq<char>) -> Seq<char> {
    base + "/"@ + id
}

/// The body announcing a new connection to the backend.
pub open spec fn connect_body(ws_uri: Seq<char>, timeout: nat) -> Seq<char> {
    "{\"code\": \"NEW_CONNECTION\",\"ws_uri\":\""@ + ws_uri + "\",\"timeout\":"@ + crate::text::decimal(timeout)
        + "}"@
}

/// The body announcing to the backend that a connection closed.
pub open spec fn disconnect_body(ws_uri: Seq<char>) -> Seq<char> {
    "{\"code\": \"CONNECTION_CLOSE\", \"ws_uri\": \""@ + ws_uri + "\"}"@
}

/// The text of each header is its name's and its value's text, in order.
pub proof fn law_header_texts(headers: Seq<(String, String)>)
    ensures
        header_texts(headers).len() == headers.len(),
        forall|i: int|
            0 <= i < headers.len() ==> #[trigger] header_texts(headers)[i] == (
                headers[i].0@,
                headers[i].1@,
            ),
{
}

/// A connection's address is the base address followed by a request target
/// that names the connection: `/` and then its identifier.
pub proof fn law_join_path_names_connection(base: Seq<char>, id: Seq<char>)
    ensures
        join_path(base, id).subrange(0, base.len() as int) == base,
        crate::http_server::id_of(join_path(base, id).subrange(base.len() as int, join_path(base, id).len() as int)) == id,
        join_path(base, id)[base.len() as int] == '/',
{
    reveal_strlit("/");
    let j = join_path(base, id);
    assert(j.subrange(0, base.len() as int) =~= base);
    assert(j.subrange(base.len() as int, j.len() as int) =~= "/"@ + id);
    crate::http_server::law_path_names_connection(id);
}

/// The body announcing a new connection carries the connection's address
/// and then, after `"timeout":`, a number that reads back to exactly the
/// configured timeout, before the closing brace.
pub proof fn law_connect_body_announces_timeout(ws_uri: Seq<char>, timeout: u16)
    ensures
        ({
            let b = connect_body(ws_uri, timeout as nat);
            let head = "{\"code\": \"NEW_CONNECTION\",\"ws_uri\":\""@ + ws_uri
                + "\",\"timeout\":"@;
            &&& b.len() > head.len()
            &&& b.subrange(0, head.len() as int) == head
            &&& b.last() == '}'
            &&& crate::text::parse_unsigned(
                b.subrange(head.len() as int, b.len() - 1),
                u16::MAX as nat,
            ) == Some(timeout as nat)
        }),
{
    reveal_strlit("}");
    let b = connect_body(ws_uri, timeout as nat);
    let head = "{\"code\": \"NEW_CONNECTION\",\"ws_uri\":\""@ + ws_uri + "\",\"timeout\":"@;
    let d = crate::text::decimal(timeout as nat);
    assert(b == head + d + "}"@);
    crate::text::law_parse_reads_decimal(timeout as nat, u16::MAX as nat);
    crate::text::lemma_decimal_nonempty(timeout as nat);
    assert(b.subrange(0, head.len() as int) =~= head);
    assert(b.subrange(head.len() as int, b.len() - 1) =~= d);
}

/// The HTTP status that accepts a new connection.
pub const STATUS_OK: u16 = 200;

/// `base`, a slash, then `id`.
pub fn join_path_text(base: &String, id: &String) -> (s: String)
    ensures
        s@ == join_path(base@, id@),
{
    let mut s = base.clone();
    s.append("/");
    s.append(id.as_str());
    s
}

/// Talks to the backend: `target_uri` is where the backend listens,
/// `local_uri` is where this service can be reached.
#[derive(Clone)]
pub struct LocalHttpClient {
    target_uri: String,
    local_uri: String,
}

impl LocalHttpClient {
    /// The backend's base address.
    pub closed spec fn target(self) -> Seq<char> {
        self.target_uri@
    }

    /// This service's base address.
    pub closed spec fn local(self) -> Seq<char> {
        self.local_uri@
    }

    pub fn new(target_uri: String, local_uri: String) -> (c: LocalHttpClient)
        ensures
            c.target() == target_uri@,
            c.local() == local_uri@,
    {
        LocalHttpClient { target_uri: target_uri, local_uri: local_uri }
    }

    /// Where the backend hears about the connection `id`.
    pub fn resource_uri(&self, id: &String) -> (u: String)
        ensures
            u@ == join_path(self.target(), id@),
    {
        join_path_text(&self.target_uri, id)
    }

    /// Where the backend can reach the connection `id` through this service.
    pub fn ws_uri(&self, id: &String) -> (u: String)
        ensures
            u@ == join_path(self.local(), id@),
    {
        join_path_text(&self.local_uri, id)
    }

    /// The request that asks the backend whether the new connection `id`
    /// may open, passing on the client's `Authorization` header.
    pub fn connect_request(&self, id: &String, auth_header: String, timeout: u16) -> (r:
        OutgoingRequest)
        ensures
            r.method == HttpMethod::Post,
            r.uri@ == join_path(self.target(), id@),
            header_texts(r.headers@) == seq![
                ("content-type"@, "application/json"@),
                ("Authorization"@, auth_header@),
            ],
            r.body@ == connect_body(join_path(self.local(), id@), timeout as nat),
    {
        let uri = self.resource_uri(id);
        let mut body = String::from_str("{\"code\": \"NEW_CONNECTION\",\"ws_uri\":\"");
        let ws = self.ws_uri(id);
        body.append(ws.as_str());
        body.append("\",\"timeout\":");
        let t = decimal_text(timeout as u64);
        body.append(t.as_str());
        body.append("}");
        let mut headers: Vec<(String, String)> = Vec::new();
        headers.push((String::from_str("content-type"), String::from_str("application/json")));
        headers.push((String::from_str("Authorization"), auth_header));
        let r = OutgoingRequest { method: HttpMethod::Post, uri, headers, body };
        assert(header_texts(r.headers@) =~= seq![
            ("content-type"@, "application/json"@),
            ("Authorization"@, auth_header@),
        ]);
        r
    }

    /// Whether the backend's answer to a connection request accepts the
    /// connection: it must have status 200 and a JSON body whose `code` is
    /// `OK`; any other code refuses it.
    pub fn connect_accepted(status: u16, body: &Vec<u8>) -> (ok: bool)
        ensures
            ok == crate::answer::answer_accepts(status, body@),
    {
        if status != STATUS_OK {
            return false;
        }
        match read_answer_code(body) {
            Some(Some(c)) => match decode_string(&c) {
                Some(u) => {
                    if u.len() == 2 && u[0] == 79 && u[1] == 75 {
                        assert(u@ =~= crate::answer::ok_units());
                        true
                    } else {
                        proof {
                            if u@ == crate::answer::ok_units() {
                                assert(u@[0] == 79u32 && u@[1] == 75u32);
                            }
                        }
                        false
                    }
                },
                None => false,
            },
            _ => false,
        }
    }

    /// The request that hands the backend the message `msg` from connection `id`.
    pub fn message_request(&self, id: &String, msg: String) -> (r: OutgoingRequest)
        ensures
            r.method == HttpMethod::Put,
            r.uri@ == join_path(self.target(), id@),
            header_texts(r.headers@) == seq![("Content-Type"@, "application/json"@)],
            r.body@ == msg@,
    {
        let uri = self.resource_uri(id);
        let mut headers: Vec<(String, String)> = Vec::new();
        headers.push((String::from_str("Content-Type"), String::from_str("application/json")));
        let r = OutgoingRequest { method: HttpMethod::Put, uri, headers, body: msg };
        assert(header_texts(r.headers@) =~= seq![("Content-Type"@, "application/json"@)]);
        r
    }

    /// The request that tells the backend that connection `id` closed.
    pub fn disconnect_request(&self, id: &String) -> (r: OutgoingRequest)
        ensures
            r.method == HttpMethod::Delete,
            r.uri@ == join_path(self.target(), id@),
            header_texts(r.headers@) == seq![("Content-Type"@, "application/json"@)],
            r.body@ == disconnect_body(join_path(self.local(), id@)),
    {
        let uri = self.resource_uri(id);
        let mut body = String::from_str("{\"code\": \"CONNECTION_CLOSE\", \"ws_uri\": \"");
        let ws = self.ws_uri(id);
        body.append(ws.as_str());
        body.append("\"}");
        let mut headers: Vec<(String, String)> = Vec::new();
        headers.push((String::from_str("Content-Type"), String::from_str("application/json")));
        let r = OutgoingRequest { method: HttpMethod::Delete, uri, headers, body };
        assert(header_texts(r.headers@) =~= seq![("Content-Type"@, "application/json"@)]);
        r
    }
}

} // verus!
