//! Transforms, per-client state and the aggregated game state.
//!
//! A `ClientState` is the 20-byte wire record `{ id, x, y, z, rot }`.  The
//! server owns one `GameState`, a mapping from client id to `ClientState`
//! kept as a vector with pairwise-distinct ids; each client rebuilds a local
//! `GameState` from the broadcasts it receives.

use vstd::prelude::*;

use crate::frame::DecodeError;
use crate::wire::{
    be_u32_val, i32_be_bytes, i32_to_u32, push_i32_be, push_u32_be, read_i32_be, read_u32_be,
    u32_be_bytes, u32_to_i32, lemma_u32_be_round_trip, lemma_i32_u32_round_trip,
};

verus! {

/// A world location: an ordered triple of signed 32-bit coordinates.
#[derive(Clone, Copy, Debug, PartialEq, Eq, Structural)]
pub struct Position(pub i32, pub i32, pub i32);

/// A yaw angle, the only rotational degree of freedom on the wire.
#[derive(Clone, Copy, Debug, PartialEq, Eq, Structural)]
pub struct Rotation(pub i32);

/// A position paired with a rotation.
#[derive(Clone, Copy, Debug, PartialEq, Eq, Structural)]
pub struct Transform {
    pub position: Position,
    pub rotation: Rotation,
}

impl Position {
    /// The origin.
    pub fn zero() -> (r: Position)
        ensures
            r == Position(0i32, 0i32, 0i32),
    {
        Position(0, 0, 0)
    }

    /// Componentwise sum of two positions.
    pub fn add(self, other: Position) -> (r: Position)
        requires
            i32::MIN <= self.0 + other.0 <= i32::MAX,
            i32::MIN <= self.1 + other.1 <= i32::MAX,
            i32::MIN <= self.2 + other.2 <= i32::MAX,
        ensures
            r == Position((self.0 + other.0) as i32, (self.1 + other.1) as i32, (self.2
                + other.2) as i32),
    {
        Position(self.0 + other.0, self.1 + other.1, self.2 + other.2)
    }
}

impl Rotation {
    /// The neutral rotation.
    pub fn zero() -> (r: Rotation)
        ensures
            r == Rotation(0i32),
    {
        Rotation(0)
    }
}

impl Transform {
    /// The identity transform: origin position, neutral rotation.
    pub fn new() -> (r: Transform)
        ensures
            r == (Transform { position: Position(0i32, 0i32, 0i32), rotation: Rotation(0i32) }),
    {
        Self::from_components(Position::zero(), Rotation::zero())
    }

    /// A transform with the given position and neutral rotation.
    pub fn from_position(position: Position) -> (r: Transform)
        ensures
            r == (Transform { position, rotation: Rotation(0i32) }),
    {
        Self::from_components(position, Rotation::zero())
    }

    /// A transform at the origin with the given rotation.
    pub fn from_rotation(rotation: Rotation) -> (r: Transform)
        ensures
            r == (Transform { position: Position(0i32, 0i32, 0i32), rotation }),
    {
        Self::from_components(Position::zero(), rotation)
    }

    /// A transform from both components.
    pub fn from_components(position: Position, rotation: Rotation) -> (r: Transform)
        ensures
            r == (Transform { position, rotation }),
    {
        Transform { position, rotation }
    }
}

/// One client's authoritative record: its id and its transform.
#[derive(Clone, Copy, Debug, PartialEq, Eq, Structural)]
pub struct ClientState {
    /// The client id; equal to the server-side connection token.
    pub id: u32,
    /// The world location of this client.
    pub position: Position,
    /// The rotational yaw of this client.
    pub rotation: Rotation,
}

/// The state a freshly connected client starts in: its id, at the origin.
pub open spec fn initial_client_state(id: u32) -> ClientState {
    ClientState { id, position: Position(0i32, 0i32, 0i32), rotation: Rotation(0i32) }
}

/// The 20-byte big-endian wire image of a `ClientState`.
pub open spec fn state_bytes(cs: ClientState) -> Seq<u8> {
    u32_be_bytes(cs.id) + i32_be_bytes(cs.position.0) + i32_be_bytes(cs.position.1) + i32_be_bytes(
        cs.position.2,
    ) + i32_be_bytes(cs.rotation.0)
}

/// The `ClientState` denoted by a 20-byte wire image.
pub open spec fn state_of_bytes(b: Seq<u8>) -> ClientState
    recommends
        b.len() == 20,
{
    ClientState {
        id: be_u32_val(b.subrange(0, 4)) as u32,
        position: Position(
            u32_to_i32(be_u32_val(b.subrange(4, 8)) as u32),
            u32_to_i32(be_u32_val(b.subrange(8, 12)) as u32),
            u32_to_i32(be_u32_val(b.subrange(12, 16)) as u32),
        ),
        rotation: Rotation(u32_to_i32(be_u32_val(b.subrange(16, 20)) as u32)),
    }
}

/// A wire image is always exactly 20 bytes.
pub proof fn lemma_state_bytes_len(cs: ClientState)
    ensures
        state_bytes(cs).len() == 20,
{
}

/// Decoding the wire image of a record yields the record, all fields equal.
pub proof fn lemma_state_round_trip(cs: ClientState)
    ensures
        state_of_bytes(state_bytes(cs)) == cs,
{
    let b = state_bytes(cs);
    assert(b.subrange(0, 4) =~= u32_be_bytes(cs.id));
    assert(b.subrange(4, 8) =~= i32_be_bytes(cs.position.0));
    assert(b.subrange(8, 12) =~= i32_be_bytes(cs.position.1));
    assert(b.subrange(12, 16) =~= i32_be_bytes(cs.position.2));
    assert(b.subrange(16, 20) =~= i32_be_bytes(cs.rotation.0));
    lemma_u32_be_round_trip(cs.id);
    lemma_u32_be_round_trip(i32_to_u32(cs.position.0));
    lemma_u32_be_round_trip(i32_to_u32(cs.position.1));
    lemma_u32_be_round_trip(i32_to_u32(cs.position.2));
    lemma_u32_be_round_trip(i32_to_u32(cs.rotation.0));
    lemma_i32_u32_round_trip(cs.position.0);
    lemma_i32_u32_round_trip(cs.position.1);
    lemma_i32_u32_round_trip(cs.position.2);
    lemma_i32_u32_round_trip(cs.rotation.0);
}

impl ClientState {
    /// A record for the given id, at the origin with neutral rotation.
    pub fn new(id: u32) -> (r: ClientState)
        ensures
            r == initial_client_state(id),
    {
        ClientState { id, position: Position::zero(), rotation: Rotation::zero() }
    }

    /// Serialize this record into its 20-byte wire image.
    pub fn to_bytes(&self) -> (r: Vec<u8>)
        ensures
            r@ == state_bytes(*self),
    {
        let mut out: Vec<u8> = Vec::new();
        push_u32_be(&mut out, self.id);
        push_i32_be(&mut out, self.position.0);
        push_i32_be(&mut out, self.position.1);
        push_i32_be(&mut out, self.position.2);
        push_i32_be(&mut out, self.rotation.0);
        assert(out@ =~= state_bytes(*self));
        out
    }

    /// Parse the 20-byte record starting at `offset`.
    pub fn read_at(input: &[u8], offset: usize) -> (r: ClientState)
        requires
            offset + 20 <= input@.len(),
        ensures
            r == state_of_bytes(input@.subrange(offset as int, offset as int + 20)),
    {
        let n = input.len();
        let ghost b = input@.subrange(offset as int, offset as int + 20);
        let id = read_u32_be(input, offset);
        let x = read_i32_be(input, offset + 4);
        let y = read_i32_be(input, offset + 8);
        let z = read_i32_be(input, offset + 12);
        let rot = read_i32_be(input, offset + 16);
        proof {
            assert(input@.subrange(offset as int, offset as int + 4) =~= b.subrange(0, 4));
            assert(input@.subrange(offset as int + 4, offset as int + 8) =~= b.subrange(4, 8));
            assert(input@.subrange(offset as int + 8, offset as int + 12) =~= b.subrange(8, 12));
            assert(input@.subrange(offset as int + 12, offset as int + 16) =~= b.subrange(12, 16));
            assert(input@.subrange(offset as int + 16, offset as int + 20) =~= b.subrange(16, 20));
        }
        ClientState { id, position: Position(x, y, z), rotation: Rotation(rot) }
    }

    /// Parse a record from the front of a byte slice, reporting a short
    /// input as the codec does.
    pub fn read_slice(input: &[u8]) -> (r: Result<ClientState, DecodeError>)
        ensures
            input@.len() >= 20 ==> r == Ok::<ClientState, DecodeError>(
                state_of_bytes(input@.subrange(0, 20)),
            ),
            input@.len() < 20 ==> r == Err::<ClientState, DecodeError>(DecodeError::ShortPayload),
    {
        if input.len() < 20 {
            Err(DecodeError::ShortPayload)
        } else {
            Ok(Self::read_at(input, 0))
        }
    }
}

/// The concatenated wire images of a sequence of records, 20 bytes each.
pub open spec fn states_bytes(s: Seq<ClientState>) -> Seq<u8>
    decreases s.len(),
{
    if s.len() == 0 {
        Seq::empty()
    } else {
        state_bytes(s[0]) + states_bytes(s.drop_first())
    }
}

/// The concatenation is 20 bytes per record.
pub proof fn lemma_states_bytes_len(s: Seq<ClientState>)
    ensures
        states_bytes(s).len() == 20 * s.len(),
    decreases s.len(),
{
    if s.len() > 0 {
        lemma_states_bytes_len(s.drop_first());
    }
}

/// Record `i`'s image occupies bytes `20 * i .. 20 * i + 20`.
pub proof fn lemma_states_bytes_index(s: Seq<ClientState>, i: int)
    requires
        0 <= i < s.len(),
    ensures
        states_bytes(s).subrange(20 * i, 20 * i + 20) == state_bytes(s[i]),
    decreases i,
{
    lemma_states_bytes_len(s.drop_first());
    if i == 0 {
        assert(states_bytes(s).subrange(0, 20) =~= state_bytes(s[0]));
    } else {
        lemma_states_bytes_index(s.drop_first(), i - 1);
        assert(states_bytes(s).subrange(20 * i, 20 * i + 20) =~= states_bytes(
            s.drop_first(),
        ).subrange(20 * (i - 1), 20 * (i - 1) + 20));
    }
}

/// Appending one record appends its 20-byte image.
pub proof fn lemma_states_bytes_push(s: Seq<ClientState>, cs: ClientState)
    ensures
        states_bytes(s.push(cs)) == states_bytes(s) + state_bytes(cs),
    decreases s.len(),
{
    if s.len() == 0 {
        assert(s.push(cs).drop_first() =~= Seq::<ClientState>::empty());
        assert(s.push(cs)[0] == cs);
        assert(states_bytes(s.push(cs)) == state_bytes(cs) + states_bytes(
            s.push(cs).drop_first(),
        ));
        assert(states_bytes(s.push(cs).drop_first()) =~= Seq::<u8>::empty());
        assert(states_bytes(s.push(cs)) =~= states_bytes(s) + state_bytes(cs));
    } else {
        lemma_states_bytes_push(s.drop_first(), cs);
        assert(s.push(cs).drop_first() =~= s.drop_first().push(cs));
        assert(s.push(cs)[0] == s[0]);
        assert(states_bytes(s.push(cs)) == state_bytes(s[0]) + states_bytes(
            s.drop_first().push(cs),
        ));
        assert(states_bytes(s.push(cs)) =~= states_bytes(s) + state_bytes(cs));
    }
}

/// No two records in the sequence share an id.
pub open spec fn ids_unique(s: Seq<ClientState>) -> bool {
    forall|i: int, j: int| 0 <= i < j < s.len() ==> s[i].id != s[j].id
}

/// The first record with the given id, if any.
pub open spec fn state_lookup(s: Seq<ClientState>, id: u32) -> Option<ClientState>
    decreases s.len(),
{
    if s.len() == 0 {
        None
    } else if s[0].id == id {
        Some(s[0])
    } else {
        state_lookup(s.drop_first(), id)
    }
}

/// Overwrite the first record with `cs.id`, or append `cs` if none exists.
pub open spec fn state_upsert(s: Seq<ClientState>, cs: ClientState) -> Seq<ClientState>
    decreases s.len(),
{
    if s.len() == 0 {
        seq![cs]
    } else if s[0].id == cs.id {
        seq![cs] + s.drop_first()
    } else {
        seq![s[0]] + state_upsert(s.drop_first(), cs)
    }
}

/// Remove the first record with the given id, keeping the others in order.
pub open spec fn state_remove(s: Seq<ClientState>, id: u32) -> Seq<ClientState>
    decreases s.len(),
{
    if s.len() == 0 {
        Seq::empty()
    } else if s[0].id == id {
        s.drop_first()
    } else {
        seq![s[0]] + state_remove(s.drop_first(), id)
    }
}

/// The game state that results from replaying a sequence of records in
/// order, later records overwriting earlier ones with the same id.
pub open spec fn states_replay(s: Seq<ClientState>) -> Seq<ClientState>
    decreases s.len(),
{
    if s.len() == 0 {
        Seq::empty()
    } else {
        state_upsert(states_replay(s.drop_last()), s.last())
    }
}

/// Uniqueness of ids survives dropping the first record.
pub proof fn lemma_ids_unique_drop_first(s: Seq<ClientState>)
    requires
        ids_unique(s),
        s.len() > 0,
    ensures
        ids_unique(s.drop_first()),
{
    assert forall|i: int, j: int| 0 <= i < j < s.drop_first().len() implies s.drop_first()[i].id
        != s.drop_first()[j].id by {
        assert(s[i + 1].id != s[j + 1].id);
    }
}

/// Uniqueness of ids survives dropping the last record.
pub proof fn lemma_ids_unique_drop_last(s: Seq<ClientState>)
    requires
        ids_unique(s),
        s.len() > 0,
    ensures
        ids_unique(s.drop_last()),
{
    assert forall|i: int, j: int| 0 <= i < j < s.drop_last().len() implies s.drop_last()[i].id
        != s.drop_last()[j].id by {
        assert(s[i].id != s[j].id);
    }
}

/// A lookup that hits at the first matching index returns that record.
pub proof fn lemma_lookup_first_match(s: Seq<ClientState>, id: u32, i: int)
    requires
        0 <= i < s.len(),
        s[i].id == id,
        forall|k: int| 0 <= k < i ==> s[k].id != id,
    ensures
        state_lookup(s, id) == Some(s[i]),
    decreases i,
{
    if i > 0 {
        lemma_lookup_first_match(s.drop_first(), id, i - 1);
    }
}

/// A lookup over a sequence without the id returns nothing.
pub proof fn lemma_lookup_absent(s: Seq<ClientState>, id: u32)
    requires
        forall|k: int| 0 <= k < s.len() ==> s[k].id != id,
    ensures
        state_lookup(s, id) is None,
    decreases s.len(),
{
    if s.len() > 0 {
        lemma_lookup_absent(s.drop_first(), id);
    }
}

/// An empty lookup means no record carries the id.
pub proof fn lemma_lookup_none_no_entry(s: Seq<ClientState>, id: u32)
    requires
        state_lookup(s, id) is None,
    ensures
        forall|k: int| 0 <= k < s.len() ==> s[k].id != id,
    decreases s.len(),
{
    if s.len() > 0 {
        lemma_lookup_none_no_entry(s.drop_first(), id);
        assert forall|k: int| 0 <= k < s.len() implies s[k].id != id by {
            if k > 0 {
                assert(s.drop_first()[k - 1].id != id);
            }
        }
    }
}

/// A successful lookup names a record that stands in the sequence.
pub proof fn lemma_lookup_present(s: Seq<ClientState>, id: u32)
    requires
        state_lookup(s, id) is Some,
    ensures
        exists|i: int|
            0 <= i < s.len() && s[i] == state_lookup(s, id).unwrap() && s[i].id == id,
    decreases s.len(),
{
    if s.len() > 0 && s[0].id != id {
        lemma_lookup_present(s.drop_first(), id);
        let i = choose|i: int|
            0 <= i < s.drop_first().len() && s.drop_first()[i] == state_lookup(
                s.drop_first(),
                id,
            ).unwrap() && s.drop_first()[i].id == id;
        assert(s[i + 1] == s.drop_first()[i]);
    }
}

/// Overwriting at the first matching index is a pointwise update.
pub proof fn lemma_upsert_at(s: Seq<ClientState>, cs: ClientState, i: int)
    requires
        0 <= i < s.len(),
        s[i].id == cs.id,
        forall|k: int| 0 <= k < i ==> s[k].id != cs.id,
    ensures
        state_upsert(s, cs) == s.update(i, cs),
    decreases i,
{
    if i == 0 {
        assert(state_upsert(s, cs) =~= s.update(0, cs));
    } else {
        lemma_upsert_at(s.drop_first(), cs, i - 1);
        assert(state_upsert(s, cs) =~= s.update(i, cs));
    }
}

/// Inserting a fresh id appends the record.
pub proof fn lemma_upsert_absent(s: Seq<ClientState>, cs: ClientState)
    requires
        forall|k: int| 0 <= k < s.len() ==> s[k].id != cs.id,
    ensures
        state_upsert(s, cs) == s.push(cs),
    decreases s.len(),
{
    if s.len() == 0 {
        assert(state_upsert(s, cs) =~= s.push(cs));
    } else {
        lemma_upsert_absent(s.drop_first(), cs);
        assert(state_upsert(s, cs) =~= s.push(cs));
    }
}

/// Upserting preserves id uniqueness.
pub proof fn lemma_upsert_unique(s: Seq<ClientState>, cs: ClientState)
    requires
        ids_unique(s),
    ensures
        ids_unique(state_upsert(s, cs)),
        state_upsert(s, cs).len() == if state_lookup(s, cs.id) is Some {
            s.len() as int
        } else {
            s.len() as int + 1
        },
    decreases s.len(),
{
    if s.len() > 0 && s[0].id != cs.id {
        lemma_ids_unique_drop_first(s);
        lemma_upsert_unique(s.drop_first(), cs);
        let t = state_upsert(s, cs);
        let t1 = state_upsert(s.drop_first(), cs);
        assert forall|i: int, j: int| 0 <= i < j < t.len() implies t[i].id != t[j].id by {
            if i == 0 {
                assert(t[0] == s[0]);
                assert(t[j] == t1[j - 1]);
                if t1[j - 1].id != cs.id {
                    lemma_upsert_source(s.drop_first(), cs, j - 1);
                    assert(s[0].id != s[j].id);
                }
            } else {
                assert(t[i] == t1[i - 1] && t[j] == t1[j - 1]);
                assert(t1[i - 1].id != t1[j - 1].id);
            }
        }
    }
}

/// A position of an upsert that does not carry `cs.id` keeps its record.
pub proof fn lemma_upsert_source(s: Seq<ClientState>, cs: ClientState, j: int)
    requires
        0 <= j < state_upsert(s, cs).len(),
        state_upsert(s, cs)[j].id != cs.id,
    ensures
        j < s.len() && state_upsert(s, cs)[j] == s[j],
    decreases s.len(),
{
    if s.len() > 0 && s[0].id != cs.id && j > 0 {
        lemma_upsert_source(s.drop_first(), cs, j - 1);
        assert(state_upsert(s, cs)[j] == state_upsert(s.drop_first(), cs)[j - 1]);
    }
}

/// What a lookup sees after an upsert.
pub proof fn lemma_lookup_upsert(s: Seq<ClientState>, cs: ClientState, id: u32)
    ensures
        state_lookup(state_upsert(s, cs), id) == if id == cs.id {
            Some(cs)
        } else {
            state_lookup(s, id)
        },
    decreases s.len(),
{
    if s.len() > 0 && s[0].id != cs.id {
        lemma_lookup_upsert(s.drop_first(), cs, id);
        let t = state_upsert(s, cs);
        assert(t[0] == s[0]);
        assert(t.len() > 0);
        assert(t.drop_first() =~= state_upsert(s.drop_first(), cs));
        if id == s[0].id && id != cs.id {
            assert(state_lookup(t, id) == Some(s[0]));
            assert(state_lookup(s, id) == Some(s[0]));
        }
    } else if s.len() > 0 && s[0].id == cs.id {
        let t = state_upsert(s, cs);
        assert(t[0] == cs);
        assert(t.len() > 0);
        assert(t.drop_first() =~= s.drop_first());
        if id != cs.id {
            assert(state_lookup(t, id) == state_lookup(s.drop_first(), id));
            assert(state_lookup(s, id) == state_lookup(s.drop_first(), id));
        }
    } else {
        let t = state_upsert(s, cs);
        assert(t =~= seq![cs]);
        assert(t[0] == cs);
        if id != cs.id {
            assert(t.drop_first() =~= Seq::<ClientState>::empty());
            assert(state_lookup(t, id) == state_lookup(t.drop_first(), id));
            assert(state_lookup(t.drop_first(), id) is None);
        }
    }
}

/// Removal at the first matching index splices the sequence.
pub proof fn lemma_remove_at(s: Seq<ClientState>, id: u32, i: int)
    requires
        0 <= i < s.len(),
        s[i].id == id,
        forall|k: int| 0 <= k < i ==> s[k].id != id,
    ensures
        state_remove(s, id) == s.remove(i),
    decreases i,
{
    if i == 0 {
        assert(state_remove(s, id) =~= s.remove(0));
    } else {
        lemma_remove_at(s.drop_first(), id, i - 1);
        assert(state_remove(s, id) =~= s.remove(i));
    }
}

/// Removing an absent id changes nothing.
pub proof fn lemma_remove_absent(s: Seq<ClientState>, id: u32)
    requires
        forall|k: int| 0 <= k < s.len() ==> s[k].id != id,
    ensures
        state_remove(s, id) == s,
    decreases s.len(),
{
    if s.len() > 0 {
        lemma_remove_absent(s.drop_first(), id);
        assert(state_remove(s, id) =~= s);
    }
}

/// Every record of a removal stood in the source sequence.
pub proof fn lemma_remove_source(s: Seq<ClientState>, id: u32, j: int)
    requires
        0 <= j < state_remove(s, id).len(),
    ensures
        exists|k: int| 0 <= k < s.len() && s[k] == state_remove(s, id)[j],
    decreases s.len(),
{
    let t = state_remove(s, id);
    if s.len() > 0 {
        if s[0].id == id {
            assert(s[j + 1] == t[j]);
        } else if j == 0 {
            assert(s[0] == t[0]);
        } else {
            lemma_remove_source(s.drop_first(), id, j - 1);
            let k = choose|k: int|
                0 <= k < s.drop_first().len() && s.drop_first()[k] == state_remove(
                    s.drop_first(),
                    id,
                )[j - 1];
            assert(t[j] == state_remove(s.drop_first(), id)[j - 1]);
            assert(s[k + 1] == t[j]);
        }
    }
}

/// Removing preserves id uniqueness, and afterwards the id is gone.
pub proof fn lemma_remove_unique(s: Seq<ClientState>, id: u32)
    requires
        ids_unique(s),
    ensures
        ids_unique(state_remove(s, id)),
        state_lookup(state_remove(s, id), id) is None,
        forall|other: u32|
            other != id ==> state_lookup(state_remove(s, id), other) == state_lookup(s, other),
    decreases s.len(),
{
    if s.len() > 0 {
        lemma_ids_unique_drop_first(s);
        lemma_remove_unique(s.drop_first(), id);
        if s[0].id == id {
            assert forall|k: int| 0 <= k < s.drop_first().len() implies s.drop_first()[k].id
                != id by {
                assert(s[0].id != s[k + 1].id);
            }
            lemma_lookup_absent(s.drop_first(), id);
            assert forall|other: u32| other != id implies state_lookup(state_remove(s, id), other)
                == state_lookup(s, other) by {
                assert(state_lookup(s, other) == state_lookup(s.drop_first(), other));
            }
        } else {
            let t = state_remove(s, id);
            let t1 = state_remove(s.drop_first(), id);
            assert(t[0] == s[0]);
            assert(t.len() > 0);
            assert(t.drop_first() =~= t1);
            assert forall|a: int, b: int| 0 <= a < b < t.len() implies t[a].id != t[b].id by {
                if a == 0 {
                    lemma_remove_source(s.drop_first(), id, b - 1);
                    let k = choose|k: int|
                        0 <= k < s.drop_first().len() && s.drop_first()[k] == t1[b - 1];
                    assert(t[b] == t1[b - 1]);
                    assert(s[0].id != s[k + 1].id);
                } else {
                    assert(t[a] == t1[a - 1] && t[b] == t1[b - 1]);
                    assert(t1[a - 1].id != t1[b - 1].id);
                }
            }
            assert(state_lookup(t, id) == state_lookup(t1, id));
            assert forall|other: u32| other != id implies state_lookup(state_remove(s, id), other)
                == state_lookup(s, other) by {
                if other == s[0].id {
                    assert(state_lookup(t, other) == Some(s[0]));
                    assert(state_lookup(s, other) == Some(s[0]));
                } else {
                    assert(state_lookup(t, other) == state_lookup(t1, other));
                    assert(state_lookup(s, other) == state_lookup(s.drop_first(), other));
                }
            }
        }
    }
}

/// Law (snapshot reconstruction): replaying records whose ids are
/// already pairwise distinct — as they are in every snapshot the server
/// broadcasts — reproduces the sequence exactly, so a client's
/// `GameState::update_from_vec` rebuilds the server's game state
/// record for record.
pub proof fn lemma_replay_of_unique(s: Seq<ClientState>)
    requires
        ids_unique(s),
    ensures
        states_replay(s) == s,
    decreases s.len(),
{
    if s.len() > 0 {
        lemma_ids_unique_drop_last(s);
        lemma_replay_of_unique(s.drop_last());
        assert(forall|k: int| 0 <= k < s.drop_last().len() ==> s.drop_last()[k].id != s.last().id);
        lemma_upsert_absent(s.drop_last(), s.last());
        assert(states_replay(s) =~= s);
    }
}

/// An element-for-element copy of a record vector.
pub fn copy_states(v: &Vec<ClientState>) -> (r: Vec<ClientState>)
    ensures
        r@ == v@,
{
    let n = v.len();
    let mut out: Vec<ClientState> = Vec::new();
    let mut i: usize = 0;
    while i < n
        invariant
            i <= n,
            n == v@.len(),
            out@ == v@.take(i as int),
        decreases n - i,
    {
        out.push(v[i]);
        assert(out@ =~= v@.take(i as int + 1));
        i += 1;
    }
    assert(out@ =~= v@);
    out
}

/// The authoritative world snapshot: one record per connected client,
/// keyed by id.
#[derive(Debug)]
pub struct GameState {
    clients: Vec<ClientState>,
}

impl View for GameState {
    type V = Seq<ClientState>;

    closed spec fn view(&self) -> Seq<ClientState> {
        self.clients@
    }
}

impl GameState {
    /// The map invariant: ids are pairwise distinct.
    pub open spec fn wf(&self) -> bool {
        ids_unique(self@)
    }

    /// An empty game state.
    pub fn new() -> (r: GameState)
        ensures
            r@ == Seq::<ClientState>::empty(),
            r.wf(),
    {
        GameState { clients: Vec::with_capacity(32) }
    }

    /// The number of records.
    pub fn len(&self) -> (r: usize)
        ensures
            r == self@.len(),
    {
        self.clients.len()
    }

    /// The record for `id`, if one exists.
    pub fn get(&self, id: u32) -> (r: Option<ClientState>)
        ensures
            r == state_lookup(self@, id),
    {
        let n = self.clients.len();
        let mut i: usize = 0;
        while i < n
            invariant
                i <= n,
                n == self.clients@.len(),
                forall|k: int| 0 <= k < i ==> self.clients@[k].id != id,
            decreases n - i,
        {
            if self.clients[i].id == id {
                proof {
                    lemma_lookup_first_match(self.clients@, id, i as int);
                }
                return Some(self.clients[i]);
            }
            i += 1;
        }
        proof {
            lemma_lookup_absent(self.clients@, id);
        }
        None
    }

    /// Whether a record for `id` exists.
    pub fn contains_id(&self, id: u32) -> (r: bool)
        ensures
            r == (state_lookup(self@, id) is Some),
    {
        self.get(id).is_some()
    }

    /// Insert or overwrite the record for `cs.id`.
    pub fn insert(&mut self, cs: ClientState)
        requires
            old(self).wf(),
        ensures
            final(self).wf(),
            final(self)@ == state_upsert(old(self)@, cs),
    {
        let n = self.clients.len();
        let mut i: usize = 0;
        while i < n
            invariant
                i <= n,
                n == self.clients@.len(),
                old(self).wf(),
                self.clients@ == old(self).clients@,
                forall|k: int| 0 <= k < i ==> self.clients@[k].id != cs.id,
            decreases n - i,
        {
            if self.clients[i].id == cs.id {
                proof {
                    lemma_upsert_at(self.clients@, cs, i as int);
                    lemma_upsert_unique(self.clients@, cs);
                }
                self.clients.set(i, cs);
                return;
            }
            i += 1;
        }
        proof {
            lemma_upsert_absent(self.clients@, cs);
            lemma_upsert_unique(self.clients@, cs);
        }
        self.clients.push(cs);
    }

    /// Remove the record for `id`, if any.
    pub fn remove(&mut self, id: u32)
        requires
            old(self).wf(),
        ensures
            final(self).wf(),
            final(self)@ == state_remove(old(self)@, id),
            state_lookup(final(self)@, id) is None,
            forall|other: u32|
                other != id ==> state_lookup(final(self)@, other) == state_lookup(
                    old(self)@,
                    other,
                ),
    {
        let n = self.clients.len();
        let mut i: usize = 0;
        while i < n
            invariant
                i <= n,
                n == self.clients@.len(),
                old(self).wf(),
                self.clients@ == old(self).clients@,
                forall|k: int| 0 <= k < i ==> self.clients@[k].id != id,
            decreases n - i,
        {
            if self.clients[i].id == id {
                proof {
                    lemma_remove_at(self.clients@, id, i as int);
                    lemma_remove_unique(self.clients@, id);
                }
                self.clients.remove(i);
                return;
            }
            i += 1;
        }
        proof {
            lemma_remove_absent(self.clients@, id);
            lemma_remove_unique(self.clients@, id);
        }
    }

    /// A copy of all records, in storage order.
    pub fn values(&self) -> (r: Vec<ClientState>)
        ensures
            r@ == self@,
    {
        let n = self.clients.len();
        let mut out: Vec<ClientState> = Vec::new();
        let mut i: usize = 0;
        while i < n
            invariant
                i <= n,
                n == self.clients@.len(),
                out@ == self.clients@.take(i as int),
            decreases n - i,
        {
            out.push(self.clients[i]);
            assert(out@ =~= self.clients@.take(i as int + 1));
            i += 1;
        }
        assert(out@ =~= self.clients@);
        out
    }

    /// Replace the whole state with the records of an update, replayed in
    /// order: a later record overwrites an earlier one with the same id.
    pub fn update_from_vec(&mut self, update_vec: &Vec<ClientState>)
        ensures
            final(self).wf(),
            final(self)@ == states_replay(update_vec@),
    {
        self.clients.clear();
        let n = update_vec.len();
        let mut i: usize = 0;
        while i < n
            invariant
                i <= n,
                n == update_vec@.len(),
                self.wf(),
                self@ == states_replay(update_vec@.take(i as int)),
            decreases n - i,
        {
            proof {
                assert(update_vec@.take(i as int + 1).drop_last() =~= update_vec@.take(i as int));
            }
            self.insert(update_vec[i]);
            i += 1;
        }
        proof {
            assert(update_vec@.take(n as int) =~= update_vec@);
        }
    }
}

} // verus!
