//! One open client connection, as the service sees it: the sending half of
//! the channel whose messages go out on the client's WebSocket, with a record
//! of what the service handed to it.
use futures_channel::mpsc::UnboundedSender;
use tungstenite::protocol::Message;
use vstd::prelude::*;

verus! {

/// The sending half of a channel whose messages go out on one WebSocket.
#[verifier::external_type_specification]
#[verifier::external_body]
#[verifier::reject_recursive_types(T)]
pub struct ExUnboundedSender<T>(UnboundedSender<T>);

/// A WebSocket message.
#[verifier::external_type_specification]
#[verifier::external_body]
pub struct ExMessage(Message);

/// An open connection: its channel, the bodies handed to that channel (in
/// order, each as one binary message), and whether the channel was closed.
pub struct Connection {
    tx: UnboundedSender<Message>,
    pushed: Ghost<Seq<Seq<u8>>>,
    shut: Ghost<bool>,
}

impl Connection {
    /// The sending half of the connection's channel.
    pub closed spec fn sender(self) -> UnboundedSender<Message> {
        self.tx
    }

    /// The bodies handed to the channel, in order, each as one binary message.
    pub closed spec fn pushed(self) -> Seq<Seq<u8>> {
        self.pushed@
    }

    /// Whether the channel was closed from this side.
    pub closed spec fn shut(self) -> bool {
        self.shut@
    }

    /// A connection whose messages go out through `tx`; nothing handed yet.
    pub fn new(tx: UnboundedSender<Message>) -> (c: Connection)
        ensures
            c.sender() == tx,
            c.pushed() == Seq::<Seq<u8>>::empty(),
            !c.shut(),
    {
        Connection { tx, pushed: Ghost(Seq::empty()), shut: Ghost(false) }
    }

    /// Hands `body`, unchanged, to the channel as one binary message: calls
    /// `tungstenite::Message::from(Vec<u8>)` (which makes `Message::Binary`
    /// of the bytes) and `futures_channel::mpsc::UnboundedSender::unbounded_send`.
    /// The contract records the hand-over in `pushed`; whether the receiving
    /// side still listens, and so whether the message reaches the client, is
    /// not claimed, and a refused send is dropped.
    #[verifier::external_body]
    pub(crate) fn push_binary(&mut self, body: Vec<u8>)
        ensures
            final(self).pushed() == old(self).pushed().push(body@),
            final(self).shut() == old(self).shut(),
            final(self).sender() == old(self).sender(),
    {
        let _ = self.tx.unbounded_send(Message::from(body));
    }

    /// Closes the channel from the sending side: calls
    /// `futures_channel::mpsc::UnboundedSender::close_channel`. The contract
    /// records the close in `shut`.
    #[verifier::external_body]
    pub(crate) fn close(&mut self)
        ensures
            final(self).shut(),
            final(self).pushed() == old(self).pushed(),
            final(self).sender() == old(self).sender(),
    {
        self.tx.close_channel()
    }
}

} // verus!
