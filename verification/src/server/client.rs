//! One accepted connection, as the server tracks it: its token, its
//! connection phase, and the ordered queue of messages owed to it.

use vstd::prelude::*;

use std::collections::VecDeque;

use crate::frame::{Message, MessageView, msg_views};

verus! {

/// The phase of a client's connection.  The handshake is reserved: the
/// core keeps every connection in `Connected`.
#[derive(Clone, Copy, Debug, PartialEq, Eq, Structural)]
pub enum ClientState {
    /// The TCP connection has been opened.
    Connected,
    /// The client has sent an initial hello message.
    Hello,
    /// The client has successfully authenticated.
    Authenticated,
}

/// A connected client, identified by its reactor token.  The socket
/// itself lives with the event loop, outside the library.
pub struct GameClient {
    /// The reactor token, equal to the client's id.
    pub token: u32,
    /// The connection phase; reserved, and `Connected` throughout.
    pub state: ClientState,
    /// Messages owed to this client, front first.
    pub send_queue: VecDeque<Message>,
}

impl GameClient {
    /// A fresh record for an accepted connection.
    pub fn new(token: u32) -> (r: GameClient)
        ensures
            r.token == token,
            r.send_queue@ == Seq::<Message>::empty(),
            r.state is Connected,
    {
        GameClient {
            token,
            state: ClientState::Connected,
            // A guess at the average backlog of messages per client.
            send_queue: VecDeque::with_capacity(15),
        }
    }

    /// Take the frontmost queued message, if any: the one to write next.
    pub fn pop_front_message(&mut self) -> (r: Option<Message>)
        ensures
            final(self).token == old(self).token,
            match r {
                Some(m) => old(self).send_queue@.len() > 0 && m == old(self).send_queue@[0]
                    && final(self).send_queue@ == old(self).send_queue@.drop_first(),
                None => old(self).send_queue@.len() == 0 && final(self).send_queue@ == old(
                    self,
                ).send_queue@,
            },
    {
        self.send_queue.pop_front()
    }

    /// Put a message back at the front of the queue, to be retried when
    /// the socket next becomes writable.
    pub fn push_front_message(&mut self, message: Message)
        ensures
            final(self).token == old(self).token,
            final(self).send_queue@ == seq![message] + old(self).send_queue@,
    {
        self.send_queue.push_front(message);
        assert(self.send_queue@ =~= seq![message] + old(self).send_queue@);
    }

    /// The queued messages, as their mathematical images.
    pub open spec fn queue_view(&self) -> Seq<MessageView> {
        msg_views(self.send_queue@)
    }
}

} // verus!
