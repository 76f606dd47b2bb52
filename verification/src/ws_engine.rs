//! The WebSocket side of the service: the table of open connections, and the
//! pushes and closes that the backend asks for.
use crate::http_client::LocalHttpClient;
use crate::session::{message_pages, Phase, Session};
use crate::string_map::StringMap;
use crate::connection::Connection;
use futures_channel::mpsc::UnboundedSender;
use tungstenite::protocol::Message;
use vstd::prelude::*;

verus! {

/// Whether `c` is a lower-case hexadecimal digit.
pub open spec fn is_lower_hex(c: char) -> bool {
    ||| ('0' as int) <= (c as int) <= ('9' as int)
    ||| ('a' as int) <= (c as int) <= ('f' as int)
}

/// The hyphenated lower-case text of a random (version 4, RFC 4122 variant)
/// UUID: 36 characters, hyphens at 8, 13, 18 and 23, hexadecimal digits
/// elsewhere, `4` at 14 and one of `8`, `9`, `a`, `b` at 19.
pub open spec fn is_uuid_v4_text(s: Seq<char>) -> bool {
    &&& s.len() == 36
    &&& forall|i: int|
        0 <= i < 36 ==> if i == 8 || i == 13 || i == 18 || i == 23 {
            #[trigger] s[i] == '-'
        } else {
            is_lower_hex(s[i])
        }
    &&& s[14] == '4'
    &&& (s[19] == '8' || s[19] == '9' || s[19] == 'a' || s[19] == 'b')
}

/// A fresh random identifier: calls `uuid::Uuid::new_v4` and formats the
/// result with its `Display` impl. The contract claims what the uuid source
/// shows of that text (hyphenated, lower case, version and variant bits set
/// by `new_v4`); which identifier comes out is left free, as it rests on chance.
#[verifier::external_body]
fn new_uuid_text() -> (s: String)
    ensures
        is_uuid_v4_text(s@),
{
    uuid::Uuid::new_v4().to_string()
}

/// The answer to a push of `len` bytes to a connection that is (or is not)
/// `registered`, when messages may span at most `max_page` pages.
pub open spec fn send_reply(registered: bool, len: nat, max_page: nat) -> Seq<char> {
    if crate::session::pages(len) > max_page {
        "MESSAGE_TOO_LONG"@
    } else if registered {
        "OK"@
    } else {
        "NOT_FOUND"@
    }
}

/// The answer to a request to close a connection that is (or is not) `registered`.
pub open spec fn close_reply(registered: bool) -> Seq<char> {
    if registered {
        "OK"@
    } else {
        "NOT_FOUND"@
    }
}

/// The settings of `after` are those of `before`.
pub open spec fn same_settings(before: WebsocketEngine, after: WebsocketEngine) -> bool {
    &&& after.timeout_value() == before.timeout_value()
    &&& after.max_pages() == before.max_pages()
    &&& after.port_text() == before.port_text()
    &&& after.client() == before.client()
}

/// `after` is `before` with `body` handed, as one binary message, to the
/// channel of connection `id`, and nothing else changed.
pub open spec fn pushed_once(
    before: Map<Seq<char>, Connection>,
    after: Map<Seq<char>, Connection>,
    id: Seq<char>,
    body: Seq<u8>,
) -> bool {
    &&& after.dom() == before.dom()
    &&& after.remove(id) == before.remove(id)
    &&& after[id].sender() == before[id].sender()
    &&& after[id].shut() == before[id].shut()
    &&& after[id].pushed() == before[id].pushed().push(body)
}

/// What a push of `body` to connection `id` does, answered `code`: the code
/// is `send_reply`'s; on `OK` the body is handed once to that connection's
/// channel; otherwise no connection changes.
pub open spec fn push_effect(
    before: WebsocketEngine,
    after: WebsocketEngine,
    id: Seq<char>,
    body: Seq<u8>,
    code: Seq<char>,
) -> bool {
    &&& code == send_reply(
        before.connections().contains_key(id),
        body.len(),
        before.max_pages() as nat,
    )
    &&& same_settings(before, after)
    &&& after.closed_log() == before.closed_log()
    &&& if code == "OK"@ {
        pushed_once(before.connections(), after.connections(), id, body)
    } else {
        after.connections() == before.connections()
    }
}

/// What a close of connection `id` does, answered `code`: the connection
/// leaves the table; when there was one, its channel is closed, with nothing
/// more handed to it, and it is logged as closed; otherwise nothing changes.
pub open spec fn close_effect(
    before: WebsocketEngine,
    after: WebsocketEngine,
    id: Seq<char>,
    code: Seq<char>,
) -> bool {
    &&& code == close_reply(before.connections().contains_key(id))
    &&& same_settings(before, after)
    &&& after.connections() == before.connections().remove(id)
    &&& if before.connections().contains_key(id) {
        let c = after.closed_log().last();
        &&& after.closed_log().len() == before.closed_log().len() + 1
        &&& after.closed_log().drop_last() == before.closed_log()
        &&& c.0 == id
        &&& c.1.shut()
        &&& c.1.sender() == before.connections()[id].sender()
        &&& c.1.pushed() == before.connections()[id].pushed()
    } else {
        after.closed_log() == before.closed_log()
    }
}

/// The WebSocket side of the service.
pub struct WebsocketEngine {
    timeout: u16,
    max_page: usize,
    port: String,
    connections: StringMap<Connection>,
    http_client: LocalHttpClient,
    closed: Ghost<Seq<(Seq<char>, Connection)>>,
}

impl WebsocketEngine {
    /// The table of connections is well formed.
    #[verifier::type_invariant]
    spec fn wf(self) -> bool {
        self.connections.wf()
    }

    /// The timeout announced to the backend for each connection.
    pub closed spec fn timeout_value(self) -> u16 {
        self.timeout
    }

    /// The most pages that a pushed message may span.
    pub closed spec fn max_pages(self) -> usize {
        self.max_page
    }

    /// The port that WebSocket clients connect to.
    pub closed spec fn port_text(self) -> Seq<char> {
        self.port@
    }

    /// The client that talks to the backend.
    pub closed spec fn client(self) -> LocalHttpClient {
        self.http_client
    }

    /// The open connections, by identifier.
    pub closed spec fn connections(self) -> Map<Seq<char>, Connection> {
        self.connections@
    }

    /// The connections closed at the backend's request, in order, each as it
    /// was when closed.
    pub closed spec fn closed_log(self) -> Seq<(Seq<char>, Connection)> {
        self.closed@
    }

    pub fn new(port: String, timeout: u16, max_page: usize, client: LocalHttpClient) -> (e:
        WebsocketEngine)
        ensures
            e.timeout_value() == timeout,
            e.max_pages() == max_page,
            e.port_text() == port@,
            e.client() == client,
            e.connections() == Map::<Seq<char>, Connection>::empty(),
            e.closed_log() == Seq::<(Seq<char>, Connection)>::empty(),
    {
        WebsocketEngine {
            timeout: timeout,
            max_page: max_page,
            port: port,
            connections: StringMap::new(),
            http_client: client,
            closed: Ghost(Seq::empty()),
        }
    }

    /// The client that talks to the backend.
    pub fn http_client(&self) -> (c: &LocalHttpClient)
        ensures
            *c == self.client(),
    {
        &self.http_client
    }

    /// The timeout announced to the backend for each connection.
    pub fn timeout(&self) -> (t: u16)
        ensures
            t == self.timeout_value(),
    {
        self.timeout
    }

    /// The most pages that a pushed message may span.
    pub fn max_page(&self) -> (m: usize)
        ensures
            m == self.max_pages(),
    {
        self.max_page
    }

    /// The address the WebSocket listener binds: the loopback host and the port.
    pub fn listen_address(&self) -> (a: String)
        ensures
            a@ == "127.0.0.1:"@ + self.port_text(),
    {
        let mut a = String::from_str("127.0.0.1:");
        a.append(self.port.as_str());
        a
    }

    /// A new connection with a fresh random identifier, at the start of its life.
    pub fn new_session(&self) -> (s: Session)
        ensures
            is_uuid_v4_text(s.id_text()),
            s.timeout_value() == self.timeout_value(),
            s.current() == Phase::Handshake,
    {
        let id = new_uuid_text();
        Session::new(id, self.timeout)
    }

    /// Records the open connection `id`, whose messages go out through `tx`.
    pub fn register(&mut self, id: String, tx: UnboundedSender<Message>)
        ensures
            final(self).connections().remove(id@) == old(self).connections().remove(id@),
            final(self).connections().contains_key(id@),
            final(self).connections()[id@].sender() == tx,
            final(self).connections()[id@].pushed() == Seq::<Seq<u8>>::empty(),
            !final(self).connections()[id@].shut(),
            final(self).closed_log() == old(self).closed_log(),
            same_settings(*old(self), *final(self)),
    {
        proof {
            use_type_invariant(&*self);
        }
        let ghost k = id@;
        let mut table = StringMap::new();
        std::mem::swap(&mut table, &mut self.connections);
        table.insert(id, Connection::new(tx));
        self.connections = table;
        assert(self.connections().remove(k) =~= old(self).connections().remove(k));
    }

    /// Forgets the connection `id` (its client has gone).
    pub fn unregister(&mut self, id: &String)
        ensures
            final(self).connections() == old(self).connections().remove(id@),
            final(self).closed_log() == old(self).closed_log(),
            same_settings(*old(self), *final(self)),
    {
        proof {
            use_type_invariant(&*self);
        }
        let mut table = StringMap::new();
        std::mem::swap(&mut table, &mut self.connections);
        let _ = table.remove(id);
        self.connections = table;
    }

    /// Pushes `body` to the connection `id`: when it fits in `max_page`
    /// pages and the connection exists, hands the body unchanged to its
    /// channel as one binary message and answers `OK`; otherwise hands
    /// nothing to any channel and answers `MESSAGE_TOO_LONG` or `NOT_FOUND`.
    pub fn send_msg(&mut self, id: &String, body: Vec<u8>) -> (code: String)
        ensures
            push_effect(*old(self), *final(self), id@, body@, code@),
    {
        proof {
            use_type_invariant(&*self);
            reveal_strlit("MESSAGE_TOO_LONG");
            reveal_strlit("OK");
            reveal_strlit("NOT_FOUND");
            assert("OK"@.len() != "MESSAGE_TOO_LONG"@.len());
            assert("OK"@.len() != "NOT_FOUND"@.len());
        }
        let ghost before = self.connections();
        let ghost body_text = body@;
        let message_length = message_pages(body.len());
        if message_length > self.max_page {
            return String::from_str("MESSAGE_TOO_LONG");
        }
        let mut table = StringMap::new();
        std::mem::swap(&mut table, &mut self.connections);
        match table.remove(id) {
            Some(connection) => {
                let mut connection = connection;
                connection.push_binary(body);
                table.insert(id.clone(), connection);
                self.connections = table;
                proof {
                    let after = self.connections();
                    assert(after.remove(id@) =~= before.remove(id@));
                    assert(after.dom() =~= before.dom());
                }
                String::from_str("OK")
            },
            None => {
                self.connections = table;
                proof {
                    assert(self.connections() =~= before);
                }
                String::from_str("NOT_FOUND")
            },
        }
    }

    /// Closes the connection `id`: takes it out of the table, closes its
    /// channel from the sending side and answers `OK`, or answers
    /// `NOT_FOUND` when there is no such connection.
    pub fn close_ws(&mut self, id: &String) -> (code: String)
        ensures
            close_effect(*old(self), *final(self), id@, code@),
    {
        proof {
            use_type_invariant(&*self);
        }
        let ghost before = self.connections();
        let mut table = StringMap::new();
        std::mem::swap(&mut table, &mut self.connections);
        let taken = table.remove(id);
        self.connections = table;
        match taken {
            Some(connection) => {
                let mut connection = connection;
                connection.close();
                proof {
                    let old_log = self.closed@;
                    self.closed@ = self.closed@.push((id@, connection));
                    assert(self.closed@.drop_last() =~= old_log);
                }
                String::from_str("OK")
            },
            None => String::from_str("NOT_FOUND"),
        }
    }
}

/// Once a connection is registered, a push to it that fits is answered
/// `OK` and hands it the body; once it is closed, a push to it is answered
/// `NOT_FOUND` and hands nothing to any connection, and closing it again is
/// answered `NOT_FOUND` and closes nothing more.
pub proof fn law_push_after_close(
    e0: WebsocketEngine,
    e1: WebsocketEngine,
    e2: WebsocketEngine,
    e3: WebsocketEngine,
    id: Seq<char>,
    body: Seq<u8>,
    code1: Seq<char>,
    code2: Seq<char>,
    code3: Seq<char>,
)
    requires
        close_effect(e0, e1, id, code1),
        push_effect(e1, e2, id, body, code2),
        close_effect(e2, e3, id, code3),
        crate::session::pages(body.len()) <= e0.max_pages(),
    ensures
        code2 == "NOT_FOUND"@,
        e2.connections() == e1.connections(),
        code3 == "NOT_FOUND"@,
        e3.connections() == e2.connections(),
        e3.closed_log() == e1.closed_log(),
{
    reveal_strlit("OK");
    reveal_strlit("NOT_FOUND");
    assert("OK"@.len() != "NOT_FOUND"@.len());
    assert(!e1.connections().contains_key(id));
    assert(e3.connections() =~= e2.connections());
}

/// A push to a registered connection that fits hands it exactly that body,
/// after what it was handed before, and leaves every other connection as it was.
pub proof fn law_push_reaches_connection(
    before: WebsocketEngine,
    after: WebsocketEngine,
    id: Seq<char>,
    other: Seq<char>,
    body: Seq<u8>,
    code: Seq<char>,
)
    requires
        push_effect(before, after, id, body, code),
        before.connections().contains_key(id),
        crate::session::pages(body.len()) <= before.max_pages(),
        other != id,
    ensures
        code == "OK"@,
        after.connections()[id].pushed() == before.connections()[id].pushed().push(body),
        after.connections().contains_key(other) == before.connections().contains_key(other),
        before.connections().contains_key(other) ==> after.connections()[other]
            == before.connections()[other],
{
    assert(before.connections().remove(id).contains_key(other) == before.connections().contains_key(other));
    assert(after.connections().remove(id)[other] == after.connections()[other]);
}

/// A push of a message that spans more pages than allowed is refused with
/// `MESSAGE_TOO_LONG`, whether or not the connection exists; a message of
/// at most `max_page * 32768 - 1` bytes is never refused so.
pub proof fn law_too_long_is_refused(registered: bool, len: nat, max_page: nat)
    ensures
        crate::session::pages(len) > max_page <==> send_reply(registered, len, max_page) == "MESSAGE_TOO_LONG"@,
        len < max_page * 32768 ==> crate::session::pages(len) <= max_page,
        len >= max_page * 32768 ==> crate::session::pages(len) > max_page,
        send_reply(registered, len, max_page) == "MESSAGE_TOO_LONG"@ <==> len >= max_page * 32768,
        len < max_page * 32768 && registered ==> send_reply(registered, len, max_page) == "OK"@,
        len < max_page * 32768 && !registered ==> send_reply(registered, len, max_page)
            == "NOT_FOUND"@,
{
    crate::session::law_pages_exact(len);
    reveal_strlit("MESSAGE_TOO_LONG");
    reveal_strlit("OK");
    reveal_strlit("NOT_FOUND");
    assert("OK"@.len() != "MESSAGE_TOO_LONG"@.len());
    assert("NOT_FOUND"@.len() != "MESSAGE_TOO_LONG"@.len());
    let p = crate::session::pages(len);
    if len < max_page * 32768 {
        assert(p <= max_page) by (nonlinear_arith)
            requires
                len < max_page * 32768,
                (p - 1) * 32768 <= len,
        ;
    } else {
        assert(p > max_page) by (nonlinear_arith)
            requires
                len >= max_page * 32768,
                len < p * 32768,
        ;
    }
}

} // verus!
