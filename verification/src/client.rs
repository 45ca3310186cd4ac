//! The client-side connection core: the state shared between the
//! application and the worker that runs the reactor against the one
//! server connection.
//!
//! The application updates the local transform and queues outbound
//! messages; the worker drains the send queue to the socket, surfaces
//! received messages, and intercepts the server's `ClientUpdate` frames,
//! which carry the client's own id assignment.

use vstd::prelude::*;

use std::collections::VecDeque;

use crate::frame::{
    frame_bytes, msg_views, Message, MessageFrame, MessageView, ToFrame,
};
use crate::state::{
    initial_client_state, lemma_state_bytes_len, ClientState, Position, Rotation, Transform,
};

verus! {

/// The one token on the client side: the connection to the server.
pub const CLIENT_TOKEN: u32 = 1;

/// Everything the client's worker and application share about the one
/// connection: the id the server assigned, the reactor interest, the
/// outbound frame queue, the inbound message queue, and the local state
/// to report on the next tick.
pub struct ClientData {
    /// The id the server assigned; 0 until the first `ClientUpdate`
    /// arrives.
    pub id: u32,
    /// The reactor token of the server connection.
    pub token: u32,
    /// Whether writable interest will be asserted at reregistration.
    pub interest_writable: bool,
    /// Outbound frames, front first.
    pub send_queue: VecDeque<MessageFrame>,
    /// Received messages not yet collected by the application.
    pub receive_queue: Vec<Message>,
    /// The local state the next tick will report.
    pub client_state: ClientState,
    /// Whether the local state changed since the last report.
    pub state_updated: bool,
}

impl ClientData {
    /// Whether writable interest is currently asserted.
    pub open spec fn writable(&self) -> bool {
        self.interest_writable
    }

    /// The queued outbound frames, each as its wire bytes, front first.
    pub open spec fn send_frames(&self) -> Seq<Seq<u8>> {
        self.send_queue@.map_values(|f: MessageFrame| f@)
    }

    /// The received messages not yet collected by the application.
    pub open spec fn received(&self) -> Seq<MessageView> {
        msg_views(self.receive_queue@)
    }

    /// The local state the next tick will report.
    pub open spec fn local_state(&self) -> ClientState {
        self.client_state
    }

    /// Whether the local state changed since the last report.
    pub open spec fn state_dirty(&self) -> bool {
        self.state_updated
    }

    /// A fresh record for a connection that was just opened.
    pub fn new() -> (r: ClientData)
        ensures
            r.id == 0,
            r.token == CLIENT_TOKEN,
            !r.writable(),
            r.send_frames() == Seq::<Seq<u8>>::empty(),
            r.received() == Seq::<MessageView>::empty(),
            r.local_state() == initial_client_state(CLIENT_TOKEN),
            !r.state_dirty(),
    {
        let r = ClientData {
            id: 0,
            token: CLIENT_TOKEN,
            interest_writable: false,
            send_queue: VecDeque::new(),
            // Tuned for the low per-tick message count.
            receive_queue: Vec::with_capacity(2),
            client_state: ClientState::new(CLIENT_TOKEN),
            state_updated: false,
        };
        proof {
            assert(r.send_frames() =~= Seq::<Seq<u8>>::empty());
            assert(r.received() =~= Seq::<MessageView>::empty());
        }
        r
    }

    /// Assert writable interest for the next reregistration.
    pub fn set_writable(&mut self)
        ensures
            final(self).writable(),
            final(self).id == old(self).id,
            final(self).token == old(self).token,
            final(self).send_frames() == old(self).send_frames(),
            final(self).received() == old(self).received(),
            final(self).local_state() == old(self).local_state(),
            final(self).state_dirty() == old(self).state_dirty(),
    {
        self.interest_writable = true;
    }

    /// Drop back to readable-only interest.
    pub fn set_read_only(&mut self)
        ensures
            !final(self).writable(),
            final(self).id == old(self).id,
            final(self).token == old(self).token,
            final(self).send_frames() == old(self).send_frames(),
            final(self).received() == old(self).received(),
            final(self).local_state() == old(self).local_state(),
            final(self).state_dirty() == old(self).state_dirty(),
    {
        self.interest_writable = false;
    }

    /// Whether any outbound frame waits to be written.
    pub fn has_messages_to_send(&self) -> (r: bool)
        ensures
            r == (self.send_frames().len() > 0),
    {
        self.send_queue.len() > 0
    }

    /// Encode a message into a frame, queue it, and assert writable
    /// interest so the worker reregisters for write readiness.
    pub fn send_message<T: ToFrame>(&mut self, message: &T)
        requires
            message.frame_ok(),
        ensures
            final(self).send_frames() == old(self).send_frames().push(message.spec_frame_bytes()),
            final(self).writable(),
            final(self).id == old(self).id,
            final(self).token == old(self).token,
            final(self).received() == old(self).received(),
            final(self).local_state() == old(self).local_state(),
            final(self).state_dirty() == old(self).state_dirty(),
    {
        self.send_queue.push_back(message.to_frame());
        self.interest_writable = true;
        proof {
            assert(final(self).send_frames() =~= old(self).send_frames().push(
                message.spec_frame_bytes(),
            ));
        }
    }

    /// Take the frontmost outbound frame: the one to write next.
    pub fn pop_send_frame(&mut self) -> (r: Option<MessageFrame>)
        ensures
            final(self).id == old(self).id,
            final(self).token == old(self).token,
            final(self).writable() == old(self).writable(),
            final(self).received() == old(self).received(),
            final(self).local_state() == old(self).local_state(),
            final(self).state_dirty() == old(self).state_dirty(),
            match r {
                Some(f) => old(self).send_frames().len() > 0 && f@ == old(self).send_frames()[0]
                    && final(self).send_frames() == old(self).send_frames().drop_first(),
                None => old(self).send_frames().len() == 0 && final(self).send_frames() == old(
                    self,
                ).send_frames(),
            },
    {
        let r = self.send_queue.pop_front();
        proof {
            if old(self).send_frames().len() > 0 {
                assert(final(self).send_frames() =~= old(self).send_frames().drop_first());
            }
        }
        r
    }

    /// Put a frame back at the front of the queue after a write could
    /// not complete, so it is retried first.
    pub fn push_front_send_frame(&mut self, frame: MessageFrame)
        ensures
            final(self).send_frames() == seq![frame@] + old(self).send_frames(),
            final(self).id == old(self).id,
            final(self).token == old(self).token,
            final(self).writable() == old(self).writable(),
            final(self).received() == old(self).received(),
            final(self).local_state() == old(self).local_state(),
            final(self).state_dirty() == old(self).state_dirty(),
    {
        self.send_queue.push_front(frame);
        proof {
            assert(final(self).send_frames() =~= seq![frame@] + old(self).send_frames());
        }
    }

    /// Accept one message read from the server.  A `ClientUpdate` is the
    /// client's own id assignment: it is latched, not surfaced.  Every
    /// other message joins the receive queue for the application.
    pub fn on_message_received(&mut self, message: Message)
        ensures
            final(self).token == old(self).token,
            final(self).writable() == old(self).writable(),
            final(self).send_frames() == old(self).send_frames(),
            final(self).state_dirty() == old(self).state_dirty(),
            match message@ {
                MessageView::ClientUpdate(cs) => {
                    &&& final(self).id == cs.id
                    &&& final(self).local_state() == (ClientState {
                        id: cs.id,
                        position: old(self).local_state().position,
                        rotation: old(self).local_state().rotation,
                    })
                    &&& final(self).received() == old(self).received()
                },
                _ => {
                    &&& final(self).id == old(self).id
                    &&& final(self).local_state() == old(self).local_state()
                    &&& final(self).received() == old(self).received().push(message@)
                },
            },
    {
        match message {
            Message::ClientUpdate(client_state) => {
                self.client_state.id = client_state.id;
                self.id = client_state.id;
            },
            other => {
                self.receive_queue.push(other);
                proof {
                    assert(final(self).received() =~= old(self).received().push(other@));
                }
            },
        }
    }

    /// Hand the application everything received so far, leaving the
    /// receive queue empty; `None` when nothing arrived.
    pub fn pop_received_messages(&mut self) -> (r: Option<Vec<Message>>)
        ensures
            final(self).id == old(self).id,
            final(self).token == old(self).token,
            final(self).writable() == old(self).writable(),
            final(self).send_frames() == old(self).send_frames(),
            final(self).local_state() == old(self).local_state(),
            final(self).state_dirty() == old(self).state_dirty(),
            match r {
                Some(v) => old(self).received().len() > 0 && msg_views(v@) == old(self).received()
                    && final(self).received() == Seq::<MessageView>::empty(),
                None => old(self).received().len() == 0 && final(self).received() == old(
                    self,
                ).received(),
            },
    {
        if self.receive_queue.len() == 0 {
            None
        } else {
            let mut out: Vec<Message> = Vec::new();
            core::mem::swap(&mut out, &mut self.receive_queue);
            proof {
                assert(final(self).received() =~= Seq::<MessageView>::empty());
            }
            Some(out)
        }
    }

    /// The local state as last set, including the latched id.
    pub fn get_client_state(&self) -> (r: ClientState)
        ensures
            r == self.local_state(),
    {
        self.client_state
    }

    /// Update the position and rotation of the client, to be reported on
    /// the next tick.  The id is untouched.
    pub fn set_transform(&mut self, transform: Transform)
        ensures
            final(self).local_state() == (ClientState {
                id: old(self).local_state().id,
                position: transform.position,
                rotation: transform.rotation,
            }),
            final(self).state_dirty(),
            final(self).id == old(self).id,
            final(self).token == old(self).token,
            final(self).writable() == old(self).writable(),
            final(self).send_frames() == old(self).send_frames(),
            final(self).received() == old(self).received(),
    {
        self.client_state.position = transform.position;
        self.client_state.rotation = transform.rotation;
        self.state_updated = true;
    }

    /// Update the position of the client, keeping the current rotation.
    pub fn set_position(&mut self, position: Position)
        ensures
            final(self).local_state() == (ClientState {
                id: old(self).local_state().id,
                position,
                rotation: old(self).local_state().rotation,
            }),
            final(self).state_dirty(),
            final(self).id == old(self).id,
            final(self).token == old(self).token,
            final(self).writable() == old(self).writable(),
            final(self).send_frames() == old(self).send_frames(),
            final(self).received() == old(self).received(),
    {
        let current_rotation = self.get_rotation();
        self.set_transform(Transform::from_components(position, current_rotation));
    }

    /// Update the rotation of the client, keeping the current position.
    pub fn set_rotation(&mut self, rotation: Rotation)
        ensures
            final(self).local_state() == (ClientState {
                id: old(self).local_state().id,
                position: old(self).local_state().position,
                rotation,
            }),
            final(self).state_dirty(),
            final(self).id == old(self).id,
            final(self).token == old(self).token,
            final(self).writable() == old(self).writable(),
            final(self).send_frames() == old(self).send_frames(),
            final(self).received() == old(self).received(),
    {
        let current_position = self.get_position();
        self.set_transform(Transform::from_components(current_position, rotation));
    }

    /// The client's current position.
    pub fn get_position(&self) -> (r: Position)
        ensures
            r == self.local_state().position,
    {
        self.get_transform().position
    }

    /// The client's current rotation.
    pub fn get_rotation(&self) -> (r: Rotation)
        ensures
            r == self.local_state().rotation,
    {
        self.get_transform().rotation
    }

    /// The client's current position and rotation.
    pub fn get_transform(&self) -> (r: Transform)
        ensures
            r == (Transform {
                position: self.local_state().position,
                rotation: self.local_state().rotation,
            }),
    {
        Transform::from_components(self.client_state.position, self.client_state.rotation)
    }

    /// One worker tick: if the local state is dirty, queue one
    /// `ClientUpdate` frame reporting it, then set the interest with
    /// which the worker reregisters: writable exactly when frames wait.
    pub fn tick(&mut self)
        ensures
            final(self).id == old(self).id,
            final(self).token == old(self).token,
            final(self).received() == old(self).received(),
            final(self).local_state() == old(self).local_state(),
            !final(self).state_dirty(),
            final(self).send_frames() == if old(self).state_dirty() {
                old(self).send_frames().push(
                    frame_bytes(MessageView::ClientUpdate(old(self).local_state())),
                )
            } else {
                old(self).send_frames()
            },
            final(self).writable() == (final(self).send_frames().len() > 0),
    {
        if self.state_updated {
            let client_state = self.client_state;
            let message = Message::new_client_update_message(&client_state);
            proof {
                lemma_state_bytes_len(client_state);
            }
            self.send_queue.push_back(message.to_frame());
            self.state_updated = false;
            proof {
                assert(self.send_frames() =~= old(self).send_frames().push(
                    frame_bytes(MessageView::ClientUpdate(old(self).local_state())),
                ));
            }
        }
        if self.send_queue.len() > 0 {
            self.interest_writable = true;
        } else {
            self.interest_writable = false;
        }
    }
}

} // verus!
