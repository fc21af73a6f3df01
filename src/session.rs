//! One connection's lifecycle: `Connecting`, then `Active`, then `Closed`.
//! The runtime reports what happened on the connection as an `Event`;
//! the session applies it to the world and the registry and answers with
//! the `Action` the runtime performs next.
use vstd::prelude::*;

use crate::registry::Registry;
use crate::rules::{
    color_for, direction_from_key, push_decimal, direction_of_key, palette, player_id_for, player_id_of,
    spawn_of, spawn_position, PALETTE_LEN,
};
use crate::world::{after_move, GameState, Player, PlayerView};

verus! {

/// A decoded frame from a client.
pub enum ClientMessage {
    Move { direction: String },
    Join,
}

#[derive(Clone, Copy, Debug, PartialEq, Eq, Structural)]
pub enum Phase {
    Connecting,
    Active,
    Closed,
}

/// What the runtime observed on a connection.
pub enum Event {
    /// The full snapshot reached the new client.
    InitialSent,
    /// A frame arrived and decoded.
    Received(ClientMessage),
    /// A frame arrived and did not decode; it is dropped.
    DecodeFailed,
    /// The inbound stream ended or failed.
    InboundClosed,
    /// Writing to the client failed.
    OutboundFailed,
}

/// What the runtime does next.
#[derive(Clone, Copy, Debug, PartialEq, Eq, Structural)]
pub enum Action {
    /// Nothing to do.
    Idle,
    /// Send a snapshot of the world to every registered connection.
    Broadcast,
    /// Send a final snapshot to every registered connection, then stop
    /// this connection's other loop; the session is over.
    BroadcastAndStop,
}

/// The player, with id `id`, that a connection on `port` gets when it joins.
pub open spec fn joined_player(id: Seq<char>, port: u16) -> PlayerView {
    PlayerView {
        id,
        x: spawn_of(port).0,
        y: spawn_of(port).1,
        color: palette((port % PALETTE_LEN) as int),
    }
}

/// Whether `e` ends a session in phase `p`.
pub open spec fn ends_session(p: Phase, e: Event) -> bool {
    p != Phase::Closed && (e is InboundClosed || e is OutboundFailed)
}

/// The phase after `e`, and the action it calls for.
pub open spec fn reaction(p: Phase, e: Event) -> (Phase, Action) {
    if ends_session(p, e) {
        (Phase::Closed, Action::BroadcastAndStop)
    } else {
        match (p, e) {
            (Phase::Connecting, Event::InitialSent) => (Phase::Active, Action::Broadcast),
            (Phase::Active, Event::Received(ClientMessage::Move { .. })) => (
                Phase::Active,
                Action::Broadcast,
            ),
            _ => (p, Action::Idle),
        }
    }
}

/// The world after `e` reaches the session of player `id` in phase `p`.
pub open spec fn world_after_event(
    m: Map<Seq<char>, PlayerView>,
    id: Seq<char>,
    p: Phase,
    e: Event,
) -> Map<Seq<char>, PlayerView> {
    if ends_session(p, e) {
        m.remove(id)
    } else {
        match (p, e) {
            (Phase::Active, Event::Received(ClientMessage::Move { direction })) => {
                match direction_of_key(direction@) {
                    Some(d) => after_move(m, id, d),
                    None => m,
                }
            },
            _ => m,
        }
    }
}

/// The registry after `e` reaches the session of connection `conn` in
/// phase `p`.
pub open spec fn registry_after_event<S>(r: Map<u64, S>, conn: u64, p: Phase, e: Event) -> Map<
    u64,
    S,
> {
    if ends_session(p, e) {
        r.remove(conn)
    } else {
        r
    }
}

/// When either direction of a live connection ends, the session closes,
/// its player is gone from the world and its entry from the registry, so no
/// later snapshot built from them holds either.
pub proof fn lemma_close_removes_connection<S>(
    m: Map<Seq<char>, PlayerView>,
    r: Map<u64, S>,
    id: Seq<char>,
    conn: u64,
    p: Phase,
    e: Event,
)
    requires
        p != Phase::Closed,
        e is InboundClosed || e is OutboundFailed,
    ensures
        reaction(p, e) == (Phase::Closed, Action::BroadcastAndStop),
        !world_after_event(m, id, p, e).contains_key(id),
        !registry_after_event(r, conn, p, e).contains_key(conn),
{
}

/// A closed session stays closed and changes nothing, whatever happens.
pub proof fn lemma_closed_is_terminal<S>(
    m: Map<Seq<char>, PlayerView>,
    r: Map<u64, S>,
    id: Seq<char>,
    conn: u64,
    e: Event,
)
    ensures
        reaction(Phase::Closed, e) == (Phase::Closed, Action::Idle),
        world_after_event(m, id, Phase::Closed, e) == m,
        registry_after_event(r, conn, Phase::Closed, e) == r,
{
}

/// An id that no player in `world` has: `player_<port>` when that is free,
/// otherwise `player_<port>_<conn>` lengthened with `_` until it is free.
pub fn fresh_player_id(world: &GameState, port: u16, conn: u64) -> (r: String)
    requires
        world.wf(),
    ensures
        !world@.contains_key(r@),
        !world@.contains_key(player_id_of(port)) ==> r@ == player_id_of(port),
{
    let base = player_id_for(port);
    if !world.contains(&base) {
        return base;
    }
    let mut cand = base;
    cand.append("_");
    push_decimal(&mut cand, conn);
    let longest = world.longest_id_len();
    while world.contains(&cand)
        invariant
            world.wf(),
            forall|k: Seq<char>| #[trigger] world@.contains_key(k) ==> k.len() <= longest,
        decreases longest + 1 - cand@.len(),
    {
        assert(cand@.len() <= longest);
        proof {
            reveal_strlit("_");
        }
        cand.append("_");
    }
    cand
}

pub struct Session {
    /// The connection number under which the registry holds this connection.
    pub conn: u64,
    /// The id of this connection's player.
    pub player_id: String,
    pub phase: Phase,
}

impl Session {
    /// Opens the session of a new connection: its player, derived from
    /// `port` under an id no live player has (see `fresh_player_id`), enters
    /// the world and its channel enters the registry. The
    /// runtime then sends the new client a snapshot and reports
    /// `InitialSent`.
    pub fn join<S>(
        world: &mut GameState,
        registry: &mut Registry<S>,
        conn: u64,
        port: u16,
        channel: S,
    ) -> (s: Session)
        requires
            old(world).wf(),
            old(registry).wf(),
        ensures
            final(world).wf(),
            final(registry).wf(),
            !old(world)@.contains_key(s.player_id@),
            !old(world)@.contains_key(player_id_of(port)) ==> s.player_id@ == player_id_of(port),
            final(world)@ == old(world)@.insert(s.player_id@, joined_player(s.player_id@, port)),
            final(registry)@ == old(registry)@.insert(conn, channel),
            s.conn == conn,
            s.phase == Phase::Connecting,
    {
        let id = fresh_player_id(world, port, conn);
        let (x, y) = spawn_position(port);
        let player = Player { id: id.clone(), x, y, color: color_for(port) };
        proof {
            assert(crate::world::clamped(player@) == joined_player(id@, port));
        }
        world.upsert_player(player);
        registry.register(conn, channel);
        Session { conn, player_id: id, phase: Phase::Connecting }
    }

    /// Applies what the runtime observed and says what it does next. A
    /// move changes only this session's player; the end of either
    /// direction of the connection removes the player and the registry
    /// entry; a closed session ignores everything.
    pub fn on_event<S>(&mut self, world: &mut GameState, registry: &mut Registry<S>, e: Event) -> (a:
        Action)
        requires
            old(world).wf(),
            old(registry).wf(),
        ensures
            final(world).wf(),
            final(registry).wf(),
            final(self).conn == old(self).conn,
            final(self).player_id == old(self).player_id,
            (final(self).phase, a) == reaction(old(self).phase, e),
            final(world)@ == world_after_event(old(world)@, old(self).player_id@, old(self).phase, e),
            final(registry)@ == registry_after_event(
                old(registry)@,
                old(self).conn,
                old(self).phase,
                e,
            ),
    {
        if self.phase == Phase::Closed {
            return Action::Idle;
        }
        match e {
            Event::InboundClosed | Event::OutboundFailed => {
                world.remove_player(&self.player_id);
                registry.deregister(self.conn);
                self.phase = Phase::Closed;
                Action::BroadcastAndStop
            },
            Event::InitialSent => {
                if self.phase == Phase::Connecting {
                    self.phase = Phase::Active;
                    Action::Broadcast
                } else {
                    Action::Idle
                }
            },
            Event::Received(ClientMessage::Move { direction }) => {
                if self.phase == Phase::Active {
                    match direction_from_key(direction.as_str()) {
                        Some(d) => world.move_player(&self.player_id, d),
                        None => {},
                    }
                    Action::Broadcast
                } else {
                    Action::Idle
                }
            },
            Event::Received(ClientMessage::Join) => Action::Idle,
            Event::DecodeFailed => Action::Idle,
        }
    }
}

} // verus!
