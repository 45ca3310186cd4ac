//! The server orchestrator core: the slab of connection records, the
//! routing table of unicast and broadcast mailboxes, the authoritative
//! game state, and the tick that drains mailboxes into send queues.
//!
//! Sockets and the reactor live outside the library.  The event loop
//! feeds decoded messages, hangups and accepted connections into this
//! state machine and writes out what the send queues hold.

use vstd::prelude::*;

use crate::frame::{msg_views, Message, MessageView};
use crate::server::client::GameClient;
use crate::state::{
    initial_client_state, lemma_lookup_none_no_entry, lemma_lookup_present, state_lookup,
    state_remove, state_upsert, ClientState, GameState,
};

verus! {

/// The lowest connection token: token 0 is the reactor's sentinel and
/// token 1 the listening socket, so clients start at 2.
pub const FIRST_CLIENT_TOKEN: u32 = 2;

/// The capacity of the connection slab.
pub const MAX_CLIENTS: usize = 128;

/// Whether a token can denote a connection: one of the slab's 128 slots.
pub open spec fn token_in_range(token: u32) -> bool {
    FIRST_CLIENT_TOKEN <= token && token < FIRST_CLIENT_TOKEN + MAX_CLIENTS as u32
}

/// The staging area for outbound messages: one mailbox per connection
/// slot, and one broadcast mailbox copied to every client at tick time.
pub struct RoutingTable {
    unicast: Vec<Vec<Message>>,
    broadcast: Vec<Message>,
}

impl RoutingTable {
    /// One mailbox per slot.
    pub closed spec fn wf(&self) -> bool {
        self.unicast@.len() == MAX_CLIENTS
    }

    /// The messages staged for one token, in order.
    pub closed spec fn mailbox_view(&self, token: u32) -> Seq<MessageView> {
        if token_in_range(token) {
            msg_views(self.unicast@[token - FIRST_CLIENT_TOKEN]@)
        } else {
            Seq::empty()
        }
    }

    /// The messages staged for every client, in order.
    pub closed spec fn broadcast_view(&self) -> Seq<MessageView> {
        msg_views(self.broadcast@)
    }

    /// An empty routing table.
    pub fn new() -> (r: RoutingTable)
        ensures
            r.wf(),
            r.broadcast_view() == Seq::<MessageView>::empty(),
            forall|t: u32| r.mailbox_view(t) == Seq::<MessageView>::empty(),
    {
        let mut unicast: Vec<Vec<Message>> = Vec::new();
        let mut i: usize = 0;
        while i < MAX_CLIENTS
            invariant
                i <= MAX_CLIENTS,
                unicast@.len() == i,
                forall|k: int| 0 <= k < i ==> unicast@[k]@.len() == 0,
            decreases MAX_CLIENTS - i,
        {
            unicast.push(Vec::new());
            i += 1;
        }
        let r = RoutingTable { unicast, broadcast: Vec::new() };
        proof {
            assert forall|t: u32| r.mailbox_view(t) == Seq::<MessageView>::empty() by {
                if token_in_range(t) {
                    assert(r.mailbox_view(t) =~= Seq::<MessageView>::empty());
                }
            }
        }
        r
    }

    /// Stage a message for one token's next tick.
    pub fn push_unicast(&mut self, token: u32, message: Message)
        requires
            old(self).wf(),
            token_in_range(token),
        ensures
            final(self).wf(),
            final(self).mailbox_view(token) == old(self).mailbox_view(token).push(message@),
            forall|t: u32|
                t != token ==> final(self).mailbox_view(t) == old(self).mailbox_view(t),
            final(self).broadcast_view() == old(self).broadcast_view(),
    {
        let idx = (token - FIRST_CLIENT_TOKEN) as usize;
        let mb = vstd::std_specs::vec::vec_index_mut(&mut self.unicast, idx);
        mb.push(message);
        proof {
            assert(final(self).mailbox_view(token) =~= old(self).mailbox_view(token).push(
                message@,
            ));
            assert forall|t: u32|
                t != token implies final(self).mailbox_view(t) == old(self).mailbox_view(t) by {
                if token_in_range(t) {
                    assert(self.unicast@[t - FIRST_CLIENT_TOKEN] == old(
                        self,
                    ).unicast@[t - FIRST_CLIENT_TOKEN]);
                }
            }
        }
    }

    /// Drain one token's mailbox, returning the staged messages in order.
    pub fn take_unicast(&mut self, token: u32) -> (r: Vec<Message>)
        requires
            old(self).wf(),
            token_in_range(token),
        ensures
            final(self).wf(),
            msg_views(r@) == old(self).mailbox_view(token),
            final(self).mailbox_view(token) == Seq::<MessageView>::empty(),
            forall|t: u32|
                t != token ==> final(self).mailbox_view(t) == old(self).mailbox_view(t),
            final(self).broadcast_view() == old(self).broadcast_view(),
    {
        let idx = (token - FIRST_CLIENT_TOKEN) as usize;
        let mut taken: Vec<Message> = Vec::new();
        let slot = vstd::std_specs::vec::vec_index_mut(&mut self.unicast, idx);
        core::mem::swap(&mut taken, slot);
        proof {
            assert(final(self).mailbox_view(token) =~= Seq::<MessageView>::empty());
            assert forall|t: u32|
                t != token implies final(self).mailbox_view(t) == old(self).mailbox_view(t) by {
                if token_in_range(t) {
                    assert(self.unicast@[t - FIRST_CLIENT_TOKEN] == old(
                        self,
                    ).unicast@[t - FIRST_CLIENT_TOKEN]);
                }
            }
        }
        taken
    }

    /// Empty one token's mailbox, dropping the staged messages.
    pub fn clear_mailbox(&mut self, token: u32)
        requires
            old(self).wf(),
            token_in_range(token),
        ensures
            final(self).wf(),
            final(self).mailbox_view(token) == Seq::<MessageView>::empty(),
            forall|t: u32|
                t != token ==> final(self).mailbox_view(t) == old(self).mailbox_view(t),
            final(self).broadcast_view() == old(self).broadcast_view(),
    {
        let _ = self.take_unicast(token);
    }

    /// Stage a message for every client's next tick.
    pub fn push_broadcast(&mut self, message: Message)
        requires
            old(self).wf(),
        ensures
            final(self).wf(),
            final(self).broadcast_view() == old(self).broadcast_view().push(message@),
            forall|t: u32| final(self).mailbox_view(t) == old(self).mailbox_view(t),
    {
        self.broadcast.push(message);
        proof {
            assert(final(self).broadcast_view() =~= old(self).broadcast_view().push(message@));
        }
    }

    /// How many messages the broadcast mailbox holds.
    pub fn broadcast_len(&self) -> (r: usize)
        ensures
            r == self.broadcast_view().len(),
    {
        self.broadcast.len()
    }

    /// A copy of the `i`-th broadcast message.
    pub fn clone_broadcast_at(&self, i: usize) -> (r: Message)
        requires
            i < self.broadcast_view().len(),
        ensures
            r@ == self.broadcast_view()[i as int],
    {
        self.broadcast[i].clone()
    }

    /// Empty the broadcast mailbox.
    pub fn clear_broadcast(&mut self)
        requires
            old(self).wf(),
        ensures
            final(self).wf(),
            final(self).broadcast_view() == Seq::<MessageView>::empty(),
            forall|t: u32| final(self).mailbox_view(t) == old(self).mailbox_view(t),
    {
        self.broadcast.clear();
        proof {
            assert(final(self).broadcast_view() =~= Seq::<MessageView>::empty());
        }
    }
}

/// The server core: connection slab, routing table, authoritative game
/// state and the dirty flag that schedules the next broadcast.
pub struct AuthoritativeServerState {
    clients: Vec<Option<GameClient>>,
    message_queue: RoutingTable,
    game_state: GameState,
    game_state_updated: bool,
}

impl AuthoritativeServerState {
    /// The slab holds 128 slots; slot `i` serves token `i + 2`; every
    /// record carries its slot's token; ids in the game state are unique.
    pub closed spec fn wf(&self) -> bool {
        &&& self.clients@.len() == MAX_CLIENTS
        &&& forall|k: int|
            0 <= k < MAX_CLIENTS ==> (#[trigger] self.clients@[k] matches Some(c) ==> c.token == k
                + FIRST_CLIENT_TOKEN)
        &&& self.message_queue.wf()
        &&& self.game_state.wf()
    }

    /// Whether a connection record exists for this token.
    pub closed spec fn has_client(&self, token: u32) -> bool {
        token_in_range(token) && self.clients@[token - FIRST_CLIENT_TOKEN] is Some
    }

    /// The send queue owed to this token, as message images.
    pub closed spec fn queue_view(&self, token: u32) -> Seq<MessageView> {
        if self.has_client(token) {
            self.clients@[token - FIRST_CLIENT_TOKEN].unwrap().queue_view()
        } else {
            Seq::empty()
        }
    }

    /// The unicast mailbox staged for this token.
    pub closed spec fn mailbox_view(&self, token: u32) -> Seq<MessageView> {
        self.message_queue.mailbox_view(token)
    }

    /// The broadcast mailbox.
    pub closed spec fn broadcast_view(&self) -> Seq<MessageView> {
        self.message_queue.broadcast_view()
    }

    /// The authoritative game state, in storage order.
    pub closed spec fn game_view(&self) -> Seq<ClientState> {
        self.game_state@
    }

    /// Whether the game state changed since the last broadcast.
    pub closed spec fn dirty(&self) -> bool {
        self.game_state_updated
    }

    /// What the next tick appends to every connected client's queue,
    /// after that client's own mailbox: the staged broadcasts, then, if
    /// the state is dirty, one snapshot of the whole game state.
    pub open spec fn tick_deliveries(&self) -> Seq<MessageView> {
        self.broadcast_view() + if self.dirty() {
            seq![MessageView::GameStateUpdate(self.game_view())]
        } else {
            Seq::empty()
        }
    }

    /// Neither the set of connections nor any send queue changes.
    pub open spec fn clients_unchanged(pre: Self, post: Self) -> bool {
        forall|t: u32|
            #![trigger post.has_client(t)]
            #![trigger post.queue_view(t)]
            post.has_client(t) == pre.has_client(t) && post.queue_view(t) == pre.queue_view(t)
    }

    /// Neither any mailbox nor the broadcast mailbox changes.
    pub open spec fn routing_unchanged(pre: Self, post: Self) -> bool {
        &&& forall|t: u32| #[trigger] post.mailbox_view(t) == pre.mailbox_view(t)
        &&& post.broadcast_view() == pre.broadcast_view()
    }

    /// Neither the game state nor the dirty flag changes.
    pub open spec fn game_unchanged(pre: Self, post: Self) -> bool {
        post.game_view() == pre.game_view() && post.dirty() == pre.dirty()
    }

    /// An empty server: no connections, nothing staged, a clean state.
    pub fn new() -> (r: AuthoritativeServerState)
        ensures
            r.wf(),
            forall|t: u32| !r.has_client(t),
            forall|t: u32| r.mailbox_view(t) == Seq::<MessageView>::empty(),
            r.broadcast_view() == Seq::<MessageView>::empty(),
            r.game_view() == Seq::<ClientState>::empty(),
            !r.dirty(),
    {
        let mut clients: Vec<Option<GameClient>> = Vec::new();
        let mut i: usize = 0;
        while i < MAX_CLIENTS
            invariant
                i <= MAX_CLIENTS,
                clients@.len() == i,
                forall|k: int| 0 <= k < i ==> clients@[k] is None,
            decreases MAX_CLIENTS - i,
        {
            clients.push(None);
            i += 1;
        }
        AuthoritativeServerState {
            clients,
            message_queue: RoutingTable::new(),
            game_state: GameState::new(),
            game_state_updated: false,
        }
    }

    /// Whether a connection record exists for this token.
    pub fn is_client_connected(&self, token: u32) -> (r: bool)
        requires
            self.wf(),
        ensures
            r == self.has_client(token),
    {
        if token < FIRST_CLIENT_TOKEN || token >= FIRST_CLIENT_TOKEN + MAX_CLIENTS as u32 {
            return false;
        }
        let idx = (token - FIRST_CLIENT_TOKEN) as usize;
        self.clients[idx].is_some()
    }

    /// A copy of the authoritative game state, in storage order.
    pub fn game_snapshot(&self) -> (r: Vec<ClientState>)
        ensures
            r@ == self.game_view(),
    {
        self.game_state.values()
    }

    /// The record the game state holds for an id, if any.
    pub fn get_game_state_entry(&self, id: u32) -> (r: Option<ClientState>)
        ensures
            r == state_lookup(self.game_view(), id),
    {
        self.game_state.get(id)
    }

    /// Take the first free slot for a newly accepted connection and hand
    /// back its token; `None` when all 128 slots are taken.
    pub fn allocate_client(&mut self) -> (r: Option<u32>)
        requires
            old(self).wf(),
        ensures
            final(self).wf(),
            Self::routing_unchanged(*old(self), *final(self)),
            Self::game_unchanged(*old(self), *final(self)),
            match r {
                Some(token) => {
                    &&& token_in_range(token)
                    &&& !old(self).has_client(token)
                    &&& forall|t: u32|
                        token_in_range(t) && t < token ==> #[trigger] old(self).has_client(t)
                    &&& final(self).has_client(token)
                    &&& final(self).queue_view(token) == Seq::<MessageView>::empty()
                    &&& forall|t: u32|
                        t != token ==> #[trigger] final(self).has_client(t) == old(
                            self,
                        ).has_client(t) && final(self).queue_view(t) == old(self).queue_view(t)
                },
                None => {
                    &&& forall|t: u32| token_in_range(t) ==> #[trigger] old(self).has_client(t)
                    &&& Self::clients_unchanged(*old(self), *final(self))
                },
            },
    {
        let mut i: usize = 0;
        while i < MAX_CLIENTS
            invariant
                i <= MAX_CLIENTS,
                old(self).wf(),
                *self == *old(self),
                forall|k: int| 0 <= k < i ==> self.clients@[k] is Some,
            decreases MAX_CLIENTS - i,
        {
            let is_free = self.clients[i].is_none();
            if is_free {
                let token = i as u32 + FIRST_CLIENT_TOKEN;
                self.clients.set(i, Some(GameClient::new(token)));
                proof {
                    assert(final(self).queue_view(token) =~= Seq::<MessageView>::empty());
                    assert forall|t: u32|
                        t != token implies #[trigger] final(self).has_client(t) == old(
                        self,
                    ).has_client(t) && final(self).queue_view(t) == old(self).queue_view(t) by {
                        if token_in_range(t) {
                            assert(self.clients@[t - FIRST_CLIENT_TOKEN] == old(
                                self,
                            ).clients@[t - FIRST_CLIENT_TOKEN]);
                        }
                    }
                }
                return Some(token);
            }
            i += 1;
        }
        proof {
            assert forall|t: u32| token_in_range(t) implies old(self).has_client(t) by {
                assert(self.clients@[t - FIRST_CLIENT_TOKEN] is Some);
            }
        }
        None
    }

    /// Overwrite the game state's record for `client_state.id` and mark
    /// the state dirty, so the next tick broadcasts a snapshot.
    pub fn update_client_in_game_state(&mut self, client_state: &ClientState)
        requires
            old(self).wf(),
        ensures
            final(self).wf(),
            final(self).game_view() == state_upsert(old(self).game_view(), *client_state),
            final(self).dirty(),
            Self::clients_unchanged(*old(self), *final(self)),
            Self::routing_unchanged(*old(self), *final(self)),
    {
        self.game_state.insert(*client_state);
        self.game_state_updated = true;
    }

    /// Stage a message for one client's next tick.
    pub fn send_message_to_client(&mut self, token: u32, message: Message)
        requires
            old(self).wf(),
            token_in_range(token),
        ensures
            final(self).wf(),
            final(self).mailbox_view(token) == old(self).mailbox_view(token).push(message@),
            forall|t: u32|
                t != token ==> #[trigger] final(self).mailbox_view(t) == old(self).mailbox_view(t),
            final(self).broadcast_view() == old(self).broadcast_view(),
            Self::clients_unchanged(*old(self), *final(self)),
            Self::game_unchanged(*old(self), *final(self)),
    {
        self.message_queue.push_unicast(token, message);
    }

    /// Stage a message for every client's next tick.
    pub fn broadcast(&mut self, message: Message)
        requires
            old(self).wf(),
        ensures
            final(self).wf(),
            final(self).broadcast_view() == old(self).broadcast_view().push(message@),
            forall|t: u32| #[trigger] final(self).mailbox_view(t) == old(self).mailbox_view(t),
            Self::clients_unchanged(*old(self), *final(self)),
            Self::game_unchanged(*old(self), *final(self)),
    {
        self.message_queue.push_broadcast(message);
    }

    /// Put a fresh record for a new connection into the game state and
    /// stage the `ClientUpdate` that tells the client its id: the id it
    /// learns equals its connection token.
    fn construct_state_for_new_client(&mut self, token: u32)
        requires
            old(self).wf(),
            token_in_range(token),
        ensures
            final(self).wf(),
            final(self).game_view() == state_upsert(
                old(self).game_view(),
                initial_client_state(token),
            ),
            final(self).dirty(),
            final(self).mailbox_view(token) == old(self).mailbox_view(token).push(
                MessageView::ClientUpdate(initial_client_state(token)),
            ),
            forall|t: u32|
                t != token ==> #[trigger] final(self).mailbox_view(t) == old(self).mailbox_view(t),
            final(self).broadcast_view() == old(self).broadcast_view(),
            Self::clients_unchanged(*old(self), *final(self)),
    {
        let state = ClientState::new(token);
        self.update_client_in_game_state(&state);
        self.send_message_to_client(token, Message::new_client_update_message(&state));
    }

    /// Called when a new client's connection has been registered with the
    /// reactor: give it a record in the game state and tell it its id.
    pub fn on_new_client_registered(&mut self, token: u32)
        requires
            old(self).wf(),
            token_in_range(token),
        ensures
            final(self).wf(),
            final(self).game_view() == state_upsert(
                old(self).game_view(),
                initial_client_state(token),
            ),
            final(self).dirty(),
            final(self).mailbox_view(token) == old(self).mailbox_view(token).push(
                MessageView::ClientUpdate(initial_client_state(token)),
            ),
            forall|t: u32|
                t != token ==> #[trigger] final(self).mailbox_view(t) == old(self).mailbox_view(t),
            final(self).broadcast_view() == old(self).broadcast_view(),
            Self::clients_unchanged(*old(self), *final(self)),
    {
        self.construct_state_for_new_client(token);
    }

    /// Whether any messages are owed to the given client.
    pub fn has_messages_for_client(&self, client: &GameClient) -> (r: bool)
        ensures
            r == (client.queue_view().len() > 0),
    {
        client.send_queue.len() > 0
    }

    /// Dispatch one decoded message read from the client at `token`.
    ///
    /// A `Text` joins the broadcast mailbox; a `Ping` is dropped; a
    /// `ClientUpdate` whose id equals the sender's token overwrites that
    /// client's game-state record and marks the state dirty, while one
    /// whose id differs is an imposter's frame and changes nothing; a
    /// `GameStateUpdate` from a client is a protocol violation and
    /// changes nothing.
    pub fn handle_message(&mut self, token: u32, message: Message)
        requires
            old(self).wf(),
        ensures
            final(self).wf(),
            Self::clients_unchanged(*old(self), *final(self)),
            match message@ {
                MessageView::Text { .. } => {
                    &&& final(self).broadcast_view() == old(self).broadcast_view().push(message@)
                    &&& forall|t: u32|
                        #[trigger] final(self).mailbox_view(t) == old(self).mailbox_view(t)
                    &&& Self::game_unchanged(*old(self), *final(self))
                },
                MessageView::ClientUpdate(cs) => {
                    &&& Self::routing_unchanged(*old(self), *final(self))
                    &&& if cs.id == token {
                        final(self).game_view() == state_upsert(old(self).game_view(), cs)
                            && final(self).dirty()
                    } else {
                        Self::game_unchanged(*old(self), *final(self))
                    }
                },
                MessageView::Ping => {
                    Self::routing_unchanged(*old(self), *final(self)) && Self::game_unchanged(
                        *old(self),
                        *final(self),
                    )
                },
                MessageView::GameStateUpdate(..) => {
                    Self::routing_unchanged(*old(self), *final(self)) && Self::game_unchanged(
                        *old(self),
                        *final(self),
                    )
                },
            },
    {
        match message {
            Message::Text { .. } => {
                self.message_queue.push_broadcast(message);
            },
            Message::Ping => {},
            Message::ClientUpdate(client_state) => {
                if client_state.id != token {
                    // An imposter: a client reporting under another id.
                    // The frame is dropped.
                } else {
                    self.update_client_in_game_state(&client_state);
                }
            },
            Message::GameStateUpdate(..) => {
                // Clients never legitimately send snapshots; drop it.
            },
        }
    }

    /// Remove a hung-up connection: drop its record and its mailbox,
    /// take its id out of the game state, and mark the state dirty so
    /// the next broadcast reflects the departure.
    pub fn on_hangup(&mut self, token: u32)
        requires
            old(self).wf(),
        ensures
            final(self).wf(),
            !final(self).has_client(token),
            forall|t: u32|
                t != token ==> #[trigger] final(self).has_client(t) == old(self).has_client(t)
                    && final(self).queue_view(t) == old(self).queue_view(t),
            final(self).game_view() == state_remove(old(self).game_view(), token),
            state_lookup(final(self).game_view(), token) is None,
            forall|id: u32|
                id != token ==> state_lookup(final(self).game_view(), id) == state_lookup(
                    old(self).game_view(),
                    id,
                ),
            final(self).dirty(),
            final(self).mailbox_view(token) == Seq::<MessageView>::empty(),
            forall|t: u32|
                t != token ==> #[trigger] final(self).mailbox_view(t) == old(self).mailbox_view(t),
            final(self).broadcast_view() == old(self).broadcast_view(),
    {
        if token >= FIRST_CLIENT_TOKEN && token < FIRST_CLIENT_TOKEN + MAX_CLIENTS as u32 {
            let idx = (token - FIRST_CLIENT_TOKEN) as usize;
            self.clients.set(idx, None);
            self.message_queue.clear_mailbox(token);
        }
        self.game_state.remove(token);
        self.game_state_updated = true;
        proof {
            assert forall|t: u32|
                t != token implies #[trigger] final(self).has_client(t) == old(self).has_client(t)
                && final(self).queue_view(t) == old(self).queue_view(t) by {
                if token_in_range(t) && token_in_range(token) {
                    assert(self.clients@[t - FIRST_CLIENT_TOKEN] == old(
                        self,
                    ).clients@[t - FIRST_CLIENT_TOKEN]);
                }
            }
        }
    }

    /// Take the frontmost message owed to `token`: the next one to write
    /// to its socket.
    pub fn pop_send_message(&mut self, token: u32) -> (r: Option<Message>)
        requires
            old(self).wf(),
        ensures
            final(self).wf(),
            Self::routing_unchanged(*old(self), *final(self)),
            Self::game_unchanged(*old(self), *final(self)),
            forall|t: u32| #[trigger] final(self).has_client(t) == old(self).has_client(t),
            forall|t: u32|
                t != token ==> #[trigger] final(self).queue_view(t) == old(self).queue_view(t),
            match r {
                Some(m) => old(self).has_client(token) && old(self).queue_view(token).len() > 0
                    && m@ == old(self).queue_view(token)[0] && final(self).queue_view(token) == old(
                    self,
                ).queue_view(token).drop_first(),
                None => (!old(self).has_client(token) || old(self).queue_view(token).len() == 0)
                    && final(self).queue_view(token) == old(self).queue_view(token),
            },
    {
        if token < FIRST_CLIENT_TOKEN || token >= FIRST_CLIENT_TOKEN + MAX_CLIENTS as u32 {
            return None;
        }
        let idx = (token - FIRST_CLIENT_TOKEN) as usize;
        let slot = vstd::std_specs::vec::vec_index_mut(&mut self.clients, idx);
        match slot {
            None => None,
            Some(c) => {
                let r = c.pop_front_message();
                proof {
                    if old(self).queue_view(token).len() > 0 {
                        assert(final(self).queue_view(token) =~= old(self).queue_view(
                            token,
                        ).drop_first());
                    }
                    assert forall|t: u32|
                        t != token implies #[trigger] final(self).queue_view(t) == old(
                        self,
                    ).queue_view(t) by {
                        if token_in_range(t) {
                            assert(self.clients@[t - FIRST_CLIENT_TOKEN] == old(
                                self,
                            ).clients@[t - FIRST_CLIENT_TOKEN]);
                        }
                    }
                }
                r
            },
        }
    }

    /// Put a message back at the front of `token`'s queue after a write
    /// could not complete, so it is retried first.
    pub fn push_front_send_message(&mut self, token: u32, message: Message)
        requires
            old(self).wf(),
            old(self).has_client(token),
        ensures
            final(self).wf(),
            Self::routing_unchanged(*old(self), *final(self)),
            Self::game_unchanged(*old(self), *final(self)),
            forall|t: u32| #[trigger] final(self).has_client(t) == old(self).has_client(t),
            forall|t: u32|
                t != token ==> #[trigger] final(self).queue_view(t) == old(self).queue_view(t),
            final(self).queue_view(token) == seq![message@] + old(self).queue_view(token),
    {
        let idx = (token - FIRST_CLIENT_TOKEN) as usize;
        let slot = vstd::std_specs::vec::vec_index_mut(&mut self.clients, idx);
        match slot {
            None => {},
            Some(c) => {
                c.push_front_message(message);
            },
        }
        proof {
            assert(final(self).queue_view(token) =~= seq![message@] + old(self).queue_view(token));
            assert forall|t: u32|
                t != token implies #[trigger] final(self).queue_view(t) == old(self).queue_view(
                t,
            ) by {
                if token_in_range(t) {
                    assert(self.clients@[t - FIRST_CLIENT_TOKEN] == old(
                        self,
                    ).clients@[t - FIRST_CLIENT_TOKEN]);
                }
            }
        }
    }

    /// One reactor tick: if the state is dirty, stage one snapshot of the
    /// whole game state as a broadcast; drain every connected client's
    /// mailbox and then copy every broadcast message into its send queue;
    /// clear the broadcast mailbox; and report, per connected client in
    /// token order, whether it now has something to write.
    pub fn tick(&mut self) -> (dirs: Vec<(u32, bool)>)
        requires
            old(self).wf(),
        ensures
            final(self).wf(),
            forall|t: u32| #[trigger] final(self).has_client(t) == old(self).has_client(t),
            final(self).game_view() == old(self).game_view(),
            !final(self).dirty(),
            final(self).broadcast_view() == Seq::<MessageView>::empty(),
            forall|t: u32|
                old(self).has_client(t) ==> #[trigger] final(self).mailbox_view(t) == Seq::<
                    MessageView,
                >::empty(),
            forall|t: u32|
                !old(self).has_client(t) ==> #[trigger] final(self).mailbox_view(t) == old(
                    self,
                ).mailbox_view(t),
            forall|t: u32|
                old(self).has_client(t) ==> #[trigger] final(self).queue_view(t) == old(
                    self,
                ).queue_view(t) + old(self).mailbox_view(t) + old(self).tick_deliveries(),
            dirs@.len() <= MAX_CLIENTS,
            forall|j: int|
                0 <= j < dirs@.len() ==> final(self).has_client((#[trigger] dirs@[j]).0) && (
                dirs@[j].1 == (final(self).queue_view(dirs@[j].0).len() > 0)),
            forall|j1: int, j2: int| 0 <= j1 < j2 < dirs@.len() ==> dirs@[j1].0 < dirs@[j2].0,
            forall|t: u32|
                #[trigger] old(self).has_client(t) ==> exists|j: int|
                    0 <= j < dirs@.len() && (#[trigger] dirs@[j]).0 == t,
    {
        let ghost d = old(self).tick_deliveries();
        if self.game_state_updated {
            let snapshot = self.game_state.values();
            self.message_queue.push_broadcast(Message::GameStateUpdate(snapshot));
            self.game_state_updated = false;
        }
        proof {
            assert(self.message_queue.broadcast_view() =~= d);
        }
        let mut dirs: Vec<(u32, bool)> = Vec::new();
        let mut i: usize = 0;
        while i < MAX_CLIENTS
            invariant
                i <= MAX_CLIENTS,
                old(self).wf(),
                self.clients@.len() == MAX_CLIENTS,
                self.message_queue.wf(),
                self.game_state@ == old(self).game_state@,
                self.game_state.wf(),
                self.game_state_updated == false,
                self.message_queue.broadcast_view() == d,
                d == old(self).tick_deliveries(),
                forall|k: int|
                    i <= k < MAX_CLIENTS ==> #[trigger] self.clients@[k] == old(self).clients@[k],
                forall|k: int|
                    0 <= k < i ==> ((#[trigger] self.clients@[k] is Some) == (old(
                        self,
                    ).clients@[k] is Some)),
                forall|k: int|
                    0 <= k < i ==> (#[trigger] old(self).clients@[k] matches Some(c)
                        ==> self.clients@[k].unwrap().token == c.token
                        && self.clients@[k].unwrap().queue_view() == c.queue_view() + old(
                        self,
                    ).mailbox_view(c.token) + d),
                forall|k: int|
                    0 <= k < MAX_CLIENTS ==> (#[trigger] self.clients@[k] matches Some(c)
                        ==> c.token == k + FIRST_CLIENT_TOKEN),
                forall|k: int|
                    0 <= k < i && self.clients@[k] is Some
                        ==> #[trigger] self.message_queue.mailbox_view(
                        (k + FIRST_CLIENT_TOKEN) as u32,
                    ).len() == 0,
                forall|t: u32|
                    !(FIRST_CLIENT_TOKEN <= t && t < i + FIRST_CLIENT_TOKEN && self.clients@[t
                        - FIRST_CLIENT_TOKEN] is Some)
                        ==> #[trigger] self.message_queue.mailbox_view(t) == old(
                        self,
                    ).mailbox_view(t),
                dirs@.len() <= i,
                forall|j: int|
                    0 <= j < dirs@.len() ==> FIRST_CLIENT_TOKEN <= (#[trigger] dirs@[j]).0
                        && dirs@[j].0 < i + FIRST_CLIENT_TOKEN,
                forall|j: int|
                    0 <= j < dirs@.len() ==> self.clients@[(#[trigger] dirs@[j]).0
                        - FIRST_CLIENT_TOKEN] is Some,
                forall|j: int|
                    0 <= j < dirs@.len() ==> ((#[trigger] dirs@[j]).1 == (self.clients@[dirs@[j].0
                        - FIRST_CLIENT_TOKEN].unwrap().queue_view().len() > 0)),
                forall|j1: int, j2: int| 0 <= j1 < j2 < dirs@.len() ==> dirs@[j1].0 < dirs@[j2].0,
                forall|k: int|
                    0 <= k < i && self.clients@[k] is Some ==> exists|j: int|
                        0 <= j < dirs@.len() && (#[trigger] dirs@[j]).0 == k + FIRST_CLIENT_TOKEN,
            decreases MAX_CLIENTS - i,
        {
            let ghost pre = *self;
            let ghost predirs = dirs@;
            let dir = deliver_slot(&mut self.clients, &mut self.message_queue, i);
            if let Some(pair) = dir {
                dirs.push(pair);
            }
            proof {
                assert forall|k: int|
                    0 <= k < i + 1 && self.clients@[k] is Some implies #[trigger] self
                    .message_queue
                    .mailbox_view((k + FIRST_CLIENT_TOKEN) as u32).len() == 0 by {
                    if k < i {
                        assert(pre.message_queue.mailbox_view((k + FIRST_CLIENT_TOKEN) as u32).len()
                            == 0);
                    }
                }
                assert forall|k: int|
                    0 <= k < i + 1 && self.clients@[k] is Some implies exists|j: int|
                        0 <= j < dirs@.len() && (#[trigger] dirs@[j]).0 == k
                            + FIRST_CLIENT_TOKEN by {
                    if k < i {
                        let j0 = choose|j: int|
                            0 <= j < predirs.len() && (#[trigger] predirs[j]).0 == k
                                + FIRST_CLIENT_TOKEN;
                        assert(dirs@[j0].0 == k + FIRST_CLIENT_TOKEN);
                    } else {
                        assert(dirs@[dirs@.len() - 1].0 == k + FIRST_CLIENT_TOKEN);
                    }
                }
            }
            i += 1;
        }
        self.message_queue.clear_broadcast();
        proof {
            assert forall|t: u32|
                old(self).has_client(t) implies #[trigger] final(self).mailbox_view(t) == Seq::<
                MessageView,
            >::empty() by {
                let k = t - FIRST_CLIENT_TOKEN;
                assert(self.clients@[k] is Some);
                assert((k + FIRST_CLIENT_TOKEN) as u32 == t);
                assert(self.message_queue.mailbox_view((k + FIRST_CLIENT_TOKEN) as u32).len()
                    == 0);
                assert(final(self).mailbox_view(t) =~= Seq::<MessageView>::empty());
            }
            assert forall|t: u32|
                old(self).has_client(t) implies #[trigger] final(self).queue_view(t) == old(
                self,
            ).queue_view(t) + old(self).mailbox_view(t) + old(self).tick_deliveries() by {
                let k = t - FIRST_CLIENT_TOKEN;
                assert(old(self).clients@[k] matches Some(c) && c.token == t);
            }
        }
        dirs
    }
}

/// Drain one slab slot at tick time: take the slot's mailbox and append
/// it, then a copy of every broadcast message, to the record's send
/// queue.  An empty slot is left untouched.
fn deliver_slot(clients: &mut Vec<Option<GameClient>>, rt: &mut RoutingTable, i: usize) -> (dir:
    Option<(u32, bool)>)
    requires
        old(clients)@.len() == MAX_CLIENTS,
        i < MAX_CLIENTS,
        old(rt).wf(),
        old(clients)@[i as int] matches Some(c) ==> c.token == i + FIRST_CLIENT_TOKEN,
    ensures
        final(clients)@.len() == MAX_CLIENTS,
        final(rt).wf(),
        forall|k: int|
            0 <= k < MAX_CLIENTS && k != i ==> #[trigger] final(clients)@[k] == old(clients)@[k],
        final(rt).broadcast_view() == old(rt).broadcast_view(),
        forall|t: u32|
            t != i + FIRST_CLIENT_TOKEN ==> #[trigger] final(rt).mailbox_view(t) == old(
                rt,
            ).mailbox_view(t),
        match old(clients)@[i as int] {
            None => final(clients)@[i as int] is None && final(rt).mailbox_view(
                (i + FIRST_CLIENT_TOKEN as usize) as u32,
            ) == old(rt).mailbox_view((i + FIRST_CLIENT_TOKEN as usize) as u32) && dir is None,
            Some(c) => {
                &&& final(clients)@[i as int] is Some
                &&& final(clients)@[i as int].unwrap().token == c.token
                &&& final(clients)@[i as int].unwrap().queue_view() == c.queue_view() + old(
                    rt,
                ).mailbox_view(c.token) + old(rt).broadcast_view()
                &&& final(rt).mailbox_view(c.token) == Seq::<MessageView>::empty()
                &&& dir == Some(
                    (c.token, final(clients)@[i as int].unwrap().queue_view().len() > 0),
                )
            },
        },
{
    let token = i as u32 + FIRST_CLIENT_TOKEN;
    let mut slot: Option<GameClient> = None;
    let slot_ref = vstd::std_specs::vec::vec_index_mut(clients, i);
    core::mem::swap(&mut slot, slot_ref);
    match slot {
        None => {
            assert(final(clients)@ =~= old(clients)@);
            None
        },
        Some(mut c) => {
            let ms = rt.take_unicast(token);
            let ghost q0 = c.queue_view();
            let n = ms.len();
            let mut j: usize = 0;
            while j < n
                invariant
                    j <= n,
                    n == ms@.len(),
                    c.token == token,
                    msg_views(c.send_queue@) == q0 + msg_views(ms@).take(j as int),
                decreases n - j,
            {
                let m = ms[j].clone();
                let ghost oldq = c.send_queue@;
                proof {
                    assert(m@ == ms@[j as int]@);
                    assert(msg_views(ms@)[j as int] == ms@[j as int]@);
                }
                c.send_queue.push_back(m);
                proof {
                    assert(c.send_queue@ == oldq.push(m));
                    let lhs = msg_views(c.send_queue@);
                    let rhs = q0 + msg_views(ms@).take(j as int + 1);
                    assert(c.send_queue@.len() == oldq.len() + 1);
                    assert(lhs.len() == c.send_queue@.len());
                    assert(msg_views(oldq) == q0 + msg_views(ms@).take(j as int));
                    assert(msg_views(oldq).len() == oldq.len());
                    assert(msg_views(ms@).len() == ms@.len());
                    assert(msg_views(ms@).take(j as int).len() == j);
                    assert(msg_views(ms@).take(j as int + 1).len() == j + 1);
                    assert(rhs.len() == q0.len() + j + 1);
                    assert(lhs.len() == rhs.len());
                    assert forall|x: int| 0 <= x < lhs.len() implies lhs[x] == rhs[x] by {
                        assert(lhs[x] == c.send_queue@[x]@);
                        if x < oldq.len() {
                            assert(c.send_queue@[x] == oldq[x]);
                            assert(msg_views(oldq)[x] == oldq[x]@);
                            assert(msg_views(oldq) == q0 + msg_views(ms@).take(j as int));
                        } else {
                            assert(c.send_queue@[x] == m);
                        }
                    }
                    assert(lhs =~= rhs);
                }
                j += 1;
            }
            proof {
                assert(msg_views(ms@).take(n as int) =~= msg_views(ms@));
            }
            let ghost q1 = msg_views(c.send_queue@);
            let bl = rt.broadcast_len();
            let mut k: usize = 0;
            while k < bl
                invariant
                    k <= bl,
                    bl == rt.broadcast_view().len(),
                    c.token == token,
                    msg_views(c.send_queue@) == q1 + rt.broadcast_view().take(k as int),
                decreases bl - k,
            {
                let bm = rt.clone_broadcast_at(k);
                let ghost oldq = c.send_queue@;
                proof {
                    assert(bm@ == rt.broadcast_view()[k as int]);
                }
                c.send_queue.push_back(bm);
                proof {
                    assert(c.send_queue@ == oldq.push(bm));
                    let lhs = msg_views(c.send_queue@);
                    let rhs = q1 + rt.broadcast_view().take(k as int + 1);
                    assert(msg_views(oldq) == q1 + rt.broadcast_view().take(k as int));
                    assert(msg_views(oldq).len() == oldq.len());
                    assert(lhs.len() == rhs.len());
                    assert forall|x: int| 0 <= x < lhs.len() implies lhs[x] == rhs[x] by {
                        assert(lhs[x] == c.send_queue@[x]@);
                        if x < oldq.len() {
                            assert(c.send_queue@[x] == oldq[x]);
                            assert(msg_views(oldq)[x] == oldq[x]@);
                        } else {
                            assert(c.send_queue@[x] == bm);
                        }
                    }
                    assert(lhs =~= rhs);
                }
                k += 1;
            }
            proof {
                assert(rt.broadcast_view().take(bl as int) =~= rt.broadcast_view());
            }
            let nonempty = c.send_queue.len() > 0;
            clients.set(i, Some(c));
            Some((token, nonempty))
        },
    }
}

/// How many times a message occurs in a delivery sequence.
pub open spec fn count_of(s: Seq<MessageView>, m: MessageView) -> int
    decreases s.len(),
{
    if s.len() == 0 {
        0
    } else {
        (if s[0] == m {
            1int
        } else {
            0int
        }) + count_of(s.drop_first(), m)
    }
}

/// Occurrences in a concatenation add up.
pub proof fn lemma_count_concat(a: Seq<MessageView>, b: Seq<MessageView>, m: MessageView)
    ensures
        count_of(a + b, m) == count_of(a, m) + count_of(b, m),
    decreases a.len(),
{
    if a.len() == 0 {
        assert(a + b =~= b);
    } else {
        lemma_count_concat(a.drop_first(), b, m);
        assert((a + b).drop_first() =~= a.drop_first() + b);
        assert((a + b)[0] == a[0]);
    }
}

/// Law (broadcast fan-out): a text message staged exactly once in the
/// broadcast mailbox is delivered exactly once in the next tick's
/// deliveries — which `tick` appends once to every connected client's
/// queue, the sender included.
pub proof fn lemma_broadcast_fanout(s: AuthoritativeServerState, m: MessageView)
    requires
        m is Text,
        count_of(s.broadcast_view(), m) == 1,
    ensures
        count_of(s.tick_deliveries(), m) == 1,
{
    if s.dirty() {
        let tail = seq![MessageView::GameStateUpdate(s.game_view())];
        lemma_count_concat(s.broadcast_view(), tail, m);
        assert(tail.drop_first() =~= Seq::<MessageView>::empty());
        assert(count_of(Seq::<MessageView>::empty(), m) == 0);
        assert(count_of(tail, m) == 0);
    } else {
        assert(s.broadcast_view() + Seq::<MessageView>::empty() =~= s.broadcast_view());
    }
}

/// Law (id assignment): the record a new connection receives carries the
/// connection token as its id, so the `ClientUpdate` that
/// `on_new_client_registered` stages tells the client exactly its token.
pub proof fn lemma_id_assignment(token: u32)
    ensures
        initial_client_state(token).id == token,
{
}

/// Law (game-state consistency): on a dirty server, the last delivery of
/// the next tick is one snapshot of the whole game state; whatever record
/// the game state holds for an id — such as one just written by
/// `handle_message` for an authorised `ClientUpdate` — stands in that
/// snapshot with the same transform.
pub proof fn lemma_game_state_consistency(s: AuthoritativeServerState, id: u32, cs: ClientState)
    requires
        s.dirty(),
        state_lookup(s.game_view(), id) == Some(cs),
    ensures
        s.tick_deliveries().len() > 0,
        s.tick_deliveries().last() == MessageView::GameStateUpdate(s.game_view()),
        cs.id == id,
        exists|j: int| 0 <= j < s.game_view().len() && #[trigger] s.game_view()[j] == cs,
{
    lemma_lookup_present(s.game_view(), id);
}

/// Law (departure broadcast): once an id is gone from the game state —
/// as `on_hangup` ensures for a departed client's token — the snapshot
/// the next tick broadcasts contains no record with that id.
pub proof fn lemma_departure_broadcast(s: AuthoritativeServerState, token: u32)
    requires
        s.dirty(),
        state_lookup(s.game_view(), token) is None,
    ensures
        s.tick_deliveries().len() > 0,
        s.tick_deliveries().last() == MessageView::GameStateUpdate(s.game_view()),
        forall|j: int| 0 <= j < s.game_view().len() ==> s.game_view()[j].id != token,
{
    lemma_lookup_none_no_entry(s.game_view(), token);
}

} // verus!
