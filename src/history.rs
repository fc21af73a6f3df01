//! Facts about any sequence of joins, moves and departures applied to
//! the world, in whatever order they reach the store.
use vstd::prelude::*;

use crate::rules::{moved, Direction, MAX_X, MAX_Y};
use crate::session::joined_player;
use crate::world::{after_move, valid_world, PlayerView};

verus! {

/// One mutation of the world, as the sessions perform them.
pub enum WorldOp {
    /// A connection on `port` joins under the free id `id` (`Session::join`).
    Join { id: Seq<char>, port: u16 },
    /// Player `id` moves one step (`GameState::move_player`).
    Move { id: Seq<char>, d: Direction },
    /// Player `id` leaves (`GameState::remove_player`).
    Leave { id: Seq<char> },
}

pub open spec fn apply_op(m: Map<Seq<char>, PlayerView>, op: WorldOp) -> Map<Seq<char>, PlayerView> {
    match op {
        WorldOp::Join { id, port } => m.insert(id, joined_player(id, port)),
        WorldOp::Move { id, d } => after_move(m, id, d),
        WorldOp::Leave { id } => m.remove(id),
    }
}

/// The world after `ops`, in order.
pub open spec fn apply_ops(m: Map<Seq<char>, PlayerView>, ops: Seq<WorldOp>) -> Map<
    Seq<char>,
    PlayerView,
>
    decreases ops.len(),
{
    if ops.len() == 0 {
        m
    } else {
        apply_ops(apply_op(m, ops[0]), ops.drop_first())
    }
}

/// Whether some op of `ops` is a join that brings player `id` back.
pub open spec fn rejoins(ops: Seq<WorldOp>, id: Seq<char>) -> bool {
    exists|i: int|
        0 <= i < ops.len() && (#[trigger] ops[i] matches WorldOp::Join { id: j, .. } && j == id)
}

/// Whatever joins, moves and departures happen, and in whatever order,
/// every player stays on the canvas.
pub proof fn lemma_ops_keep_players_on_canvas(m: Map<Seq<char>, PlayerView>, ops: Seq<WorldOp>)
    requires
        valid_world(m),
    ensures
        valid_world(apply_ops(m, ops)),
        forall|k: Seq<char>| #[trigger]
            apply_ops(m, ops).contains_key(k) ==> 0 <= apply_ops(m, ops)[k].x <= MAX_X && 0
                <= apply_ops(m, ops)[k].y <= MAX_Y,
    decreases ops.len(),
{
    if ops.len() > 0 {
        let n = apply_op(m, ops[0]);
        assert(valid_world(n)) by {
            match ops[0] {
                WorldOp::Join { .. } => {},
                WorldOp::Move { id, d } => {
                    if m.contains_key(id) {
                        let p = m[id];
                        crate::rules::lemma_step_within_canvas(p.x, p.y, d);
                    }
                },
                WorldOp::Leave { id } => {},
            }
        }
        lemma_ops_keep_players_on_canvas(n, ops.drop_first());
    }
}

/// Once player `id` has left, no later move or departure brings it back:
/// only a new join with the same id does.
pub proof fn lemma_departed_stays_absent(
    m: Map<Seq<char>, PlayerView>,
    id: Seq<char>,
    ops: Seq<WorldOp>,
)
    requires
        !rejoins(ops, id),
    ensures
        !apply_ops(m.remove(id), ops).contains_key(id),
    decreases ops.len(),
{
    if ops.len() > 0 {
        let rest = ops.drop_first();
        assert(!rejoins(rest, id)) by {
            if rejoins(rest, id) {
                let i = choose|i: int|
                    0 <= i < rest.len() && (#[trigger] rest[i] matches WorldOp::Join { id: j, .. }
                        && j == id);
                assert(ops[i + 1] == rest[i]);
            }
        }
        let n = apply_op(m.remove(id), ops[0]);
        assert(!n.contains_key(id)) by {
            match ops[0] {
                WorldOp::Join { id: j, .. } => {
                    assert(ops[0] matches WorldOp::Join { id: j, .. } && j != id);
                },
                _ => {},
            }
        }
        assert(n.remove(id) =~= n);
        lemma_departed_stays_absent(n, id, rest);
    }
}

/// Moves of two different players never overwrite each other: after both,
/// each player has moved by its own step, whichever came first.
pub proof fn lemma_moves_of_two_players_both_apply(
    m: Map<Seq<char>, PlayerView>,
    a: Seq<char>,
    da: Direction,
    b: Seq<char>,
    db: Direction,
)
    requires
        a != b,
        m.contains_key(a),
        m.contains_key(b),
    ensures
        apply_ops(m, seq![WorldOp::Move { id: a, d: da }, WorldOp::Move { id: b, d: db }]) == apply_ops(
            m,
            seq![WorldOp::Move { id: b, d: db }, WorldOp::Move { id: a, d: da }],
        ),
        ({
            let r = apply_ops(m, seq![WorldOp::Move { id: a, d: da }, WorldOp::Move { id: b, d: db }]);
            &&& r.contains_key(a) && r.contains_key(b)
            &&& r[a].x == moved(m[a].x, m[a].y, da).0 && r[a].y == moved(m[a].x, m[a].y, da).1
            &&& r[b].x == moved(m[b].x, m[b].y, db).0 && r[b].y == moved(m[b].x, m[b].y, db).1
            &&& r[a].color == m[a].color && r[b].color == m[b].color
            &&& r.dom() == m.dom()
        }),
{
    let s1 = seq![WorldOp::Move { id: a, d: da }, WorldOp::Move { id: b, d: db }];
    let s2 = seq![WorldOp::Move { id: b, d: db }, WorldOp::Move { id: a, d: da }];
    assert(s1.drop_first().drop_first().len() == 0);
    assert(s2.drop_first().drop_first().len() == 0);
    let ma = after_move(m, a, da);
    let mb = after_move(m, b, db);
    assert(s1[0] == WorldOp::Move { id: a, d: da } && s1.drop_first()[0] == WorldOp::Move { id: b, d: db });
    assert(s2[0] == WorldOp::Move { id: b, d: db } && s2.drop_first()[0] == WorldOp::Move { id: a, d: da });
    assert(apply_ops(ma, s1.drop_first()) == apply_ops(after_move(ma, b, db), s1.drop_first().drop_first()));
    assert(apply_ops(mb, s2.drop_first()) == apply_ops(after_move(mb, a, da), s2.drop_first().drop_first()));
    let r1 = apply_ops(m, s1);
    let r2 = apply_ops(m, s2);
    assert(r1 == after_move(ma, b, db));
    assert(r2 == after_move(mb, a, da));
    assert(r1 =~= r2);
    assert(r1.dom() =~= m.dom());
}

} // verus!
