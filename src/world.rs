//! The shared world: every connected player, keyed by id, each kept on the
//! canvas by clamping.
use vstd::prelude::*;

use crate::rules::{clamp, in_bounds, moved, step, Direction, MAX_X, MAX_Y};

verus! {

/// A participant's avatar.
pub struct Player {
    pub id: String,
    pub x: u32,
    pub y: u32,
    pub color: String,
}

/// What a player is, as a mathematical value.
pub struct PlayerView {
    pub id: Seq<char>,
    pub x: int,
    pub y: int,
    pub color: Seq<char>,
}

impl View for Player {
    type V = PlayerView;

    open spec fn view(&self) -> PlayerView {
        PlayerView { id: self.id@, x: self.x as int, y: self.y as int, color: self.color@ }
    }
}

impl Player {
    /// A copy with the same id, position and color.
    pub fn duplicate(&self) -> (r: Player)
        ensures
            r@ == self@,
    {
        Player { id: self.id.clone(), x: self.x, y: self.y, color: self.color.clone() }
    }
}

/// The record with its position clamped onto the canvas.
pub open spec fn clamped(p: PlayerView) -> PlayerView {
    PlayerView { x: clamp(p.x, MAX_X as int), y: clamp(p.y, MAX_Y as int), ..p }
}

/// Every record is filed under its own id and lies on the canvas.
pub open spec fn valid_world(m: Map<Seq<char>, PlayerView>) -> bool {
    forall|k: Seq<char>| #[trigger]
        m.contains_key(k) ==> m[k].id == k && in_bounds(m[k].x, m[k].y)
}

/// The world after the player `id` moves one step in `d`; a move of a
/// player that is not there changes nothing.
pub open spec fn after_move(m: Map<Seq<char>, PlayerView>, id: Seq<char>, d: Direction) -> Map<
    Seq<char>,
    PlayerView,
> {
    if m.contains_key(id) {
        let p = m[id];
        m.insert(id, PlayerView { x: moved(p.x, p.y, d).0, y: moved(p.x, p.y, d).1, ..p })
    } else {
        m
    }
}

/// The world that a list of records describes: each record, clamped onto
/// the canvas, filed under its id; a later record replaces an earlier one
/// with the same id.
pub open spec fn world_of(s: Seq<PlayerView>) -> Map<Seq<char>, PlayerView>
    decreases s.len(),
{
    if s.len() == 0 {
        Map::empty()
    } else {
        world_of(s.drop_last()).insert(s.last().id, clamped(s.last()))
    }
}

/// The ids of a list of records are pairwise distinct.
pub open spec fn distinct_ids(s: Seq<PlayerView>) -> bool {
    forall|i: int, j: int| 0 <= i < j < s.len() ==> s[i].id != s[j].id
}

/// With distinct ids, the world of a list holds exactly its records.
proof fn lemma_world_of_distinct(s: Seq<PlayerView>)
    requires
        distinct_ids(s),
    ensures
        forall|k: Seq<char>|
            #[trigger] world_of(s).contains_key(k) <==> exists|i: int| 0 <= i < s.len() && s[i].id == k,
        forall|i: int| 0 <= i < s.len() ==> #[trigger] world_of(s)[s[i].id] == clamped(s[i]),
    decreases s.len(),
{
    if s.len() > 0 {
        let rest = s.drop_last();
        lemma_world_of_distinct(rest);
        let n = s.len() - 1;
        assert forall|k: Seq<char>|
            #[trigger] world_of(s).contains_key(k) <==> exists|i: int| 0 <= i < s.len() && s[i].id == k by {
            assert(world_of(s) == world_of(rest).insert(s[n].id, clamped(s[n])));
            if world_of(s).contains_key(k) && k != s[n].id {
                assert(world_of(rest).contains_key(k));
                let i = choose|i: int| 0 <= i < rest.len() && rest[i].id == k;
                assert(rest[i] == s[i]);
                assert(s[i].id == k);
            }
            if exists|i: int| 0 <= i < s.len() && s[i].id == k {
                let i = choose|i: int| 0 <= i < s.len() && s[i].id == k;
                if i < n {
                    assert(rest[i].id == k);
                    assert(world_of(rest).contains_key(k));
                }
            }
        }
        assert forall|i: int| 0 <= i < s.len() implies #[trigger] world_of(s)[s[i].id] == clamped(s[i]) by {
            assert(world_of(s) == world_of(rest).insert(s[n].id, clamped(s[n])));
            if i < n {
                assert(rest[i] == s[i]);
                assert(s[i].id != s[n].id);
                assert(world_of(rest)[rest[i].id] == clamped(rest[i]));
            }
        }
    }
}

/// The set of players, stored as a list of records with distinct ids.
pub struct GameState {
    players: Vec<Player>,
    model: Ghost<Map<Seq<char>, PlayerView>>,
}

impl View for GameState {
    type V = Map<Seq<char>, PlayerView>;

    closed spec fn view(&self) -> Map<Seq<char>, PlayerView> {
        self.model@
    }
}

impl GameState {
    pub closed spec fn wf(&self) -> bool {
        &&& forall|i: int, j: int|
            0 <= i < j < self.players@.len() ==> self.players@[i].id@ != self.players@[j].id@
        &&& forall|i: int|
            0 <= i < self.players@.len() ==> self.model@.contains_key(#[trigger] self.players@[i].id@)
                && self.model@[self.players@[i].id@] == self.players@[i]@
        &&& forall|k: Seq<char>| #[trigger]
            self.model@.contains_key(k) ==> exists|i: int|
                0 <= i < self.players@.len() && #[trigger] self.players@[i].id@ == k
        &&& valid_world(self.model@)
    }

    /// An empty world.
    pub fn new() -> (r: GameState)
        ensures
            r.wf(),
            r@ == Map::<Seq<char>, PlayerView>::empty(),
    {
        GameState { players: Vec::new(), model: Ghost(Map::empty()) }
    }

    /// Every state of a well-formed world has its players on the canvas.
    pub proof fn lemma_players_on_canvas(&self)
        requires
            self.wf(),
        ensures
            valid_world(self@),
    {
    }

    fn find(&self, id: &String) -> (r: Option<usize>)
        requires
            self.wf(),
        ensures
            r matches Some(i) ==> i < self.players@.len() && self.players@[i as int].id@ == id@,
            r is None ==> !self@.contains_key(id@),
    {
        let mut i: usize = 0;
        while i < self.players.len()
            invariant
                i <= self.players@.len(),
                forall|j: int| 0 <= j < i ==> self.players@[j].id@ != id@,
            decreases self.players@.len() - i,
        {
            if self.players[i].id == *id {
                return Some(i);
            }
            i += 1;
        }
        None
    }

    /// Number of players.
    pub fn len(&self) -> (r: usize)
        requires
            self.wf(),
        ensures
            r == self@.len(),
    {
        proof {
            self.lemma_len();
        }
        self.players.len()
    }

    /// The ids in storage order.
    pub closed spec fn order(&self) -> Seq<Seq<char>> {
        self.players@.map_values(|p: Player| p.id@)
    }

    /// The storage order lists every player exactly once.
    pub proof fn lemma_order(&self)
        requires
            self.wf(),
        ensures
            self.order().len() == self@.len(),
            self.order().no_duplicates(),
            forall|k: Seq<char>| self@.contains_key(k) <==> #[trigger] self.order().contains(k),
    {
        self.lemma_len();
        let ids = self.order();
        assert forall|k: Seq<char>| self@.contains_key(k) <==> #[trigger] ids.contains(k) by {
            assert(self.model@.dom().contains(k) <==> ids.to_set().contains(k));
        }
    }

    proof fn lemma_len(&self)
        requires
            self.wf(),
        ensures
            self.players@.len() == self@.len(),
            self.order().no_duplicates(),
            self.model@.dom() == self.order().to_set(),
    {
        let ids = self.order();
        assert(ids.no_duplicates()) by {
            assert forall|i: int, j: int| 0 <= i < ids.len() && 0 <= j < ids.len() && i != j implies ids[i]
                != ids[j] by {
                // wf orders the pair by index; take it in that order.
                if i < j {
                    assert(self.players@[i].id@ != self.players@[j].id@);
                } else {
                    assert(self.players@[j].id@ != self.players@[i].id@);
                }
            }
        }
        ids.unique_seq_to_set();
        assert forall|k: Seq<char>| #[trigger] self.model@.dom().contains(k) <==> ids.to_set().contains(
            k,
        ) by {
            if self.model@.contains_key(k) {
                let i = choose|i: int| 0 <= i < self.players@.len() && #[trigger] self.players@[i].id@ == k;
                assert(ids[i] == k);
            }
            if ids.to_set().contains(k) {
                let i = choose|i: int| 0 <= i < ids.len() && ids[i] == k;
                assert(self.players@[i].id@ == k);
            }
        }
        assert(self.model@.dom() =~= ids.to_set());
    }

    /// Adds `player`, or replaces the record with its id; its position is
    /// clamped onto the canvas.
    pub fn upsert_player(&mut self, player: Player)
        requires
            old(self).wf(),
        ensures
            final(self).wf(),
            final(self)@ == old(self)@.insert(player.id@, clamped(player@)),
    {
        let mut p = player;
        if p.x > MAX_X {
            p.x = MAX_X;
        }
        if p.y > MAX_Y {
            p.y = MAX_Y;
        }
        assert(p@ == clamped(player@));
        let found = self.find(&p.id);
        let ghost old_players = self.players@;
        let ghost pv = p@;
        match found {
            Some(i) => {
                self.players.set(i, p);
                proof {
                    self.model@ = self.model@.insert(pv.id, pv);
                    assert(self.players@ == old_players.update(i as int, self.players@[i as int]));
                    assert forall|k: Seq<char>| #[trigger] self.model@.contains_key(k) implies exists|j: int|
                        0 <= j < self.players@.len() && #[trigger] self.players@[j].id@ == k by {
                        if k != pv.id {
                            let j = choose|j: int| 0 <= j < old_players.len() && #[trigger] old_players[j].id@ == k;
                            assert(self.players@[j].id@ == k);
                        } else {
                            assert(self.players@[i as int].id@ == k);
                        }
                    }
                }
            },
            None => {
                self.players.push(p);
                proof {
                    self.model@ = self.model@.insert(pv.id, pv);
                    let n = old_players.len() as int;
                    assert(self.players@ == old_players.push(self.players@[n]));
                    assert forall|k: Seq<char>| #[trigger] self.model@.contains_key(k) implies exists|j: int|
                        0 <= j < self.players@.len() && #[trigger] self.players@[j].id@ == k by {
                        if k != pv.id {
                            let j = choose|j: int| 0 <= j < old_players.len() && #[trigger] old_players[j].id@ == k;
                            assert(self.players@[j].id@ == k);
                        } else {
                            assert(self.players@[n].id@ == k);
                        }
                    }
                }
            },
        }
    }

    /// Moves the player `id` one step in `d`, clamped to the canvas; does
    /// nothing when no such player is present.
    pub fn move_player(&mut self, id: &String, d: Direction)
        requires
            old(self).wf(),
        ensures
            final(self).wf(),
            final(self)@ == after_move(old(self)@, id@, d),
    {
        match self.find(id) {
            Some(i) => {
                let ghost old_players = self.players@;
                let x = self.players[i].x;
                let y = self.players[i].y;
                let (nx, ny) = step(x, y, d);
                let mut p = self.players[i].duplicate();
                p.x = nx;
                p.y = ny;
                let ghost pv = p@;
                self.players.set(i, p);
                proof {
                    assert(old_players[i as int]@ == self.model@[id@]);
                    self.model@ = self.model@.insert(pv.id, pv);
                    assert(self.players@ == old_players.update(i as int, self.players@[i as int]));
                    assert forall|k: Seq<char>| #[trigger] self.model@.contains_key(k) implies exists|j: int|
                        0 <= j < self.players@.len() && #[trigger] self.players@[j].id@ == k by {
                        if k != pv.id {
                            let j = choose|j: int| 0 <= j < old_players.len() && #[trigger] old_players[j].id@ == k;
                            assert(self.players@[j].id@ == k);
                        } else {
                            assert(self.players@[i as int].id@ == k);
                        }
                    }
                }
            },
            None => {},
        }
    }

    /// Removes the player `id`, if present.
    pub fn remove_player(&mut self, id: &String)
        requires
            old(self).wf(),
        ensures
            final(self).wf(),
            final(self)@ == old(self)@.remove(id@),
    {
        match self.find(id) {
            Some(i) => {
                let ghost old_players = self.players@;
                self.players.remove(i);
                proof {
                    self.model@ = self.model@.remove(id@);
                    assert(self.players@ == old_players.remove(i as int));
                    assert forall|j: int| 0 <= j < self.players@.len() implies #[trigger]
                        self.players@[j].id@ != id@ by {
                        if j < i {
                            assert(self.players@[j] == old_players[j]);
                        } else {
                            assert(self.players@[j] == old_players[j + 1]);
                        }
                    }
                    assert forall|k: Seq<char>| #[trigger] self.model@.contains_key(k) implies exists|j: int|
                        0 <= j < self.players@.len() && #[trigger] self.players@[j].id@ == k by {
                        let j = choose|j: int| 0 <= j < old_players.len() && #[trigger] old_players[j].id@ == k;
                        assert(j != i);
                        if j < i {
                            assert(self.players@[j].id@ == k);
                        } else {
                            assert(self.players@[j - 1].id@ == k);
                        }
                    }
                }
            },
            None => {
                proof {
                    assert(self.model@.remove(id@) =~= self.model@);
                }
            },
        }
    }

    /// An independent copy of the whole world, to be encoded and sent
    /// after the store is released.
    pub fn snapshot(&self) -> (r: GameState)
        requires
            self.wf(),
        ensures
            r.wf(),
            r@ == self@,
    {
        let mut players: Vec<Player> = Vec::new();
        let mut i: usize = 0;
        while i < self.players.len()
            invariant
                i <= self.players@.len(),
                players@.len() == i,
                forall|j: int| 0 <= j < i ==> #[trigger] players@[j]@ == self.players@[j]@,
            decreases self.players@.len() - i,
        {
            players.push(self.players[i].duplicate());
            i += 1;
        }
        let r = GameState { players, model: Ghost(self.model@) };
        assert forall|a: int, b: int| 0 <= a < b < r.players@.len() implies r.players@[a].id@
            != r.players@[b].id@ by {
            assert(r.players@[a]@ == self.players@[a]@);
            assert(r.players@[b]@ == self.players@[b]@);
        }
        assert forall|a: int| 0 <= a < r.players@.len() implies r.model@.contains_key(
            #[trigger] r.players@[a].id@,
        ) && r.model@[r.players@[a].id@] == r.players@[a]@ by {
            assert(r.players@[a]@ == self.players@[a]@);
        }
        assert forall|k: Seq<char>| #[trigger] r.model@.contains_key(k) implies exists|j: int|
            0 <= j < r.players@.len() && #[trigger] r.players@[j].id@ == k by {
            let j = choose|j: int| 0 <= j < self.players@.len() && #[trigger] self.players@[j].id@ == k;
            assert(r.players@[j]@ == self.players@[j]@);
        }
        r
    }

    /// The record of the player `id`, if present.
    pub fn get(&self, id: &String) -> (r: Option<&Player>)
        requires
            self.wf(),
        ensures
            r matches Some(p) ==> self@.contains_key(id@) && p@ == self@[id@],
            r is None ==> !self@.contains_key(id@),
    {
        match self.find(id) {
            Some(i) => Some(&self.players[i]),
            None => None,
        }
    }

    /// Whether the player `id` is present.
    pub fn contains(&self, id: &String) -> (r: bool)
        requires
            self.wf(),
        ensures
            r == self@.contains_key(id@),
    {
        self.find(id).is_some()
    }

    /// The `i`-th record in storage order; `0..len()` visits each player
    /// once (see `lemma_order`).
    pub fn player_at(&self, i: usize) -> (r: &Player)
        requires
            self.wf(),
            i < self@.len(),
        ensures
            r.id@ == self.order()[i as int],
            self@.contains_key(r.id@),
            self@[r.id@] == r@,
    {
        proof {
            self.lemma_len();
        }
        &self.players[i]
    }

    /// The records in storage order.
    pub closed spec fn listing(&self) -> Seq<PlayerView> {
        self.players@.map_values(|p: Player| p@)
    }

    /// Copies of all records, in storage order.
    pub fn to_players(&self) -> (r: Vec<Player>)
        requires
            self.wf(),
        ensures
            r@.map_values(|p: Player| p@) == self.listing(),
    {
        let mut out: Vec<Player> = Vec::new();
        let mut i: usize = 0;
        while i < self.players.len()
            invariant
                i <= self.players@.len(),
                out@.len() == i,
                forall|j: int| 0 <= j < i ==> #[trigger] out@[j]@ == self.players@[j]@,
            decreases self.players@.len() - i,
        {
            out.push(self.players[i].duplicate());
            i += 1;
        }
        assert(out@.map_values(|p: Player| p@) =~= self.listing());
        out
    }

    /// The world that `players` describes, each upserted in turn.
    pub fn from_players(players: &Vec<Player>) -> (r: GameState)
        ensures
            r.wf(),
            r@ == world_of(players@.map_values(|p: Player| p@)),
    {
        let ghost views = players@.map_values(|p: Player| p@);
        let mut w = GameState::new();
        let mut i: usize = 0;
        while i < players.len()
            invariant
                i <= players@.len(),
                w.wf(),
                w@ == world_of(views.subrange(0, i as int)),
                views == players@.map_values(|p: Player| p@),
            decreases players@.len() - i,
        {
            let p = players[i].duplicate();
            let ghost pv = p@;
            w.upsert_player(p);
            proof {
                let next = views.subrange(0, i + 1);
                assert(next.drop_last() =~= views.subrange(0, i as int));
                assert(next.last() == pv);
            }
            i += 1;
        }
        assert(views.subrange(0, players@.len() as int) =~= views);
        w
    }

    /// Rebuilding a world from its own listing gives back the same world:
    /// what a peer reconstructs from a full snapshot is that snapshot.
    pub proof fn lemma_listing_rebuilds_world(&self)
        requires
            self.wf(),
        ensures
            world_of(self.listing()) == self@,
    {
        let s = self.listing();
        assert(distinct_ids(s)) by {
            assert forall|i: int, j: int| 0 <= i < j < s.len() implies s[i].id != s[j].id by {
                assert(s[i] == self.players@[i]@ && s[j] == self.players@[j]@);
            }
        }
        lemma_world_of_distinct(s);
        assert forall|k: Seq<char>| #[trigger] world_of(s).contains_key(k) <==> self@.contains_key(k) by {
            if self@.contains_key(k) {
                let i = choose|i: int| 0 <= i < self.players@.len() && #[trigger] self.players@[i].id@ == k;
                assert(s[i].id == k);
            }
            if world_of(s).contains_key(k) {
                let i = choose|i: int| 0 <= i < s.len() && s[i].id == k;
                assert(self.players@[i].id@ == k);
            }
        }
        assert forall|k: Seq<char>| #[trigger] world_of(s).contains_key(k) implies world_of(s)[k] == self@[k] by {
            let i = choose|i: int| 0 <= i < s.len() && s[i].id == k;
            assert(s[i] == self.players@[i]@);
            assert(self@[k] == s[i]);
            assert(clamped(s[i]) == s[i]);
        }
        assert(world_of(s) =~= self@);
    }

    /// The length, in characters, of the longest id present (0 when empty).
    pub fn longest_id_len(&self) -> (r: usize)
        requires
            self.wf(),
        ensures
            forall|k: Seq<char>| #[trigger] self@.contains_key(k) ==> k.len() <= r,
    {
        let mut best: usize = 0;
        let mut i: usize = 0;
        while i < self.players.len()
            invariant
                i <= self.players@.len(),
                forall|j: int| 0 <= j < i ==> (#[trigger] self.players@[j]).id@.len() <= best,
            decreases self.players@.len() - i,
        {
            let n = self.players[i].id.as_str().unicode_len();
            if n > best {
                best = n;
            }
            i += 1;
        }
        assert forall|k: Seq<char>| #[trigger] self@.contains_key(k) implies k.len() <= best by {
            let j = choose|j: int| 0 <= j < self.players@.len() && #[trigger] self.players@[j].id@ == k;
            assert(self.players@[j].id@.len() <= best);
        }
        best
    }
}

} // verus!
