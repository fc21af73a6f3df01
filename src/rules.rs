//! Canvas geometry, movement and the values derived from a connection.
use vstd::prelude::*;

verus! {

pub const CANVAS_WIDTH: u32 = 800;

pub const CANVAS_HEIGHT: u32 = 600;

pub const PLAYER_SIZE: u32 = 50;

/// Displacement of one movement command.
pub const PLAYER_SPEED: u32 = 5;

/// Largest x a player's square may have.
pub const MAX_X: u32 = CANVAS_WIDTH - PLAYER_SIZE;

/// Largest y a player's square may have.
pub const MAX_Y: u32 = CANVAS_HEIGHT - PLAYER_SIZE;

/// Number of colors in the palette.
pub const PALETTE_LEN: u16 = 6;

/// A movement intent: `w` up, `a` left, `s` down, `d` right.
#[derive(Clone, Copy, Debug, PartialEq, Eq, Structural)]
pub enum Direction {
    Up,
    Left,
    Down,
    Right,
}

/// The direction a key names, if any: the key is one of the single
/// characters `w`, `a`, `s`, `d`.
pub open spec fn direction_of_key(key: Seq<char>) -> Option<Direction> {
    if key.len() != 1 {
        None
    } else if key[0] == 'w' {
        Some(Direction::Up)
    } else if key[0] == 'a' {
        Some(Direction::Left)
    } else if key[0] == 's' {
        Some(Direction::Down)
    } else if key[0] == 'd' {
        Some(Direction::Right)
    } else {
        None
    }
}

pub open spec fn clamp(v: int, hi: int) -> int {
    if v < 0 {
        0
    } else if v > hi {
        hi
    } else {
        v
    }
}

pub open spec fn in_bounds(x: int, y: int) -> bool {
    0 <= x <= MAX_X && 0 <= y <= MAX_Y
}

/// Position after one move: a displacement of `PLAYER_SPEED` along the
/// direction's axis, clamped to the canvas.
pub open spec fn moved(x: int, y: int, d: Direction) -> (int, int) {
    match d {
        Direction::Up => (x, clamp(y - PLAYER_SPEED, MAX_Y as int)),
        Direction::Left => (clamp(x - PLAYER_SPEED, MAX_X as int), y),
        Direction::Down => (x, clamp(y + PLAYER_SPEED, MAX_Y as int)),
        Direction::Right => (clamp(x + PLAYER_SPEED, MAX_X as int), y),
    }
}

/// Reads a movement key; any other text names no direction.
pub fn direction_from_key(key: &str) -> (r: Option<Direction>)
    ensures
        r == direction_of_key(key@),
{
    if key.unicode_len() != 1 {
        return None;
    }
    let c = key.get_char(0);
    if c == 'w' {
        Some(Direction::Up)
    } else if c == 'a' {
        Some(Direction::Left)
    } else if c == 's' {
        Some(Direction::Down)
    } else if c == 'd' {
        Some(Direction::Right)
    } else {
        None
    }
}

/// Applies one move to a position; the result never leaves the canvas on
/// the axis that moved.
pub fn step(x: u32, y: u32, d: Direction) -> (r: (u32, u32))
    ensures
        r.0 as int == moved(x as int, y as int, d).0,
        r.1 as int == moved(x as int, y as int, d).1,
{
    match d {
        Direction::Up => {
            if y < PLAYER_SPEED {
                (x, 0)
            } else if y - PLAYER_SPEED > MAX_Y {
                (x, MAX_Y)
            } else {
                (x, y - PLAYER_SPEED)
            }
        },
        Direction::Left => {
            if x < PLAYER_SPEED {
                (0, y)
            } else if x - PLAYER_SPEED > MAX_X {
                (MAX_X, y)
            } else {
                (x - PLAYER_SPEED, y)
            }
        },
        Direction::Down => {
            if y >= MAX_Y - PLAYER_SPEED {
                (x, MAX_Y)
            } else {
                (x, y + PLAYER_SPEED)
            }
        },
        Direction::Right => {
            if x >= MAX_X - PLAYER_SPEED {
                (MAX_X, y)
            } else {
                (x + PLAYER_SPEED, y)
            }
        },
    }
}

/// A move never takes a coordinate past the canvas edge on the axis it
/// changes, wherever it starts.
pub proof fn lemma_step_within_canvas(x: int, y: int, d: Direction)
    ensures
        d == Direction::Right ==> moved(x, y, d).0 <= MAX_X,
        d == Direction::Left ==> moved(x, y, d).0 >= 0,
        d == Direction::Down ==> moved(x, y, d).1 <= MAX_Y,
        d == Direction::Up ==> moved(x, y, d).1 >= 0,
        in_bounds(x, y) ==> in_bounds(moved(x, y, d).0, moved(x, y, d).1),
{
}

/// Where a connection's player appears when it joins.
pub open spec fn spawn_of(port: u16) -> (int, int) {
    (100 + port % 400, 100 + port % 300)
}

pub fn spawn_position(port: u16) -> (r: (u32, u32))
    ensures
        r.0 as int == spawn_of(port).0,
        r.1 as int == spawn_of(port).1,
        in_bounds(r.0 as int, r.1 as int),
{
    let p = port as u32;
    (100 + p % 400, 100 + p % 300)
}

/// The fixed palette of player colors.
pub open spec fn palette(i: int) -> Seq<char> {
    if i == 0 {
        "#FF0000"@
    } else if i == 1 {
        "#00FF00"@
    } else if i == 2 {
        "#0000FF"@
    } else if i == 3 {
        "#FFFF00"@
    } else if i == 4 {
        "#FF00FF"@
    } else {
        "#00FFFF"@
    }
}

/// The color of the player that a connection on `port` gets.
pub fn color_for(port: u16) -> (r: String)
    ensures
        r@ == palette((port % PALETTE_LEN) as int),
{
    let i = port % PALETTE_LEN;
    let s = if i == 0 {
        "#FF0000"
    } else if i == 1 {
        "#00FF00"
    } else if i == 2 {
        "#0000FF"
    } else if i == 3 {
        "#FFFF00"
    } else if i == 4 {
        "#FF00FF"
    } else {
        "#00FFFF"
    };
    s.to_owned()
}

pub open spec fn digit_char(d: int) -> char {
    if d == 0 {
        '0'
    } else if d == 1 {
        '1'
    } else if d == 2 {
        '2'
    } else if d == 3 {
        '3'
    } else if d == 4 {
        '4'
    } else if d == 5 {
        '5'
    } else if d == 6 {
        '6'
    } else if d == 7 {
        '7'
    } else if d == 8 {
        '8'
    } else {
        '9'
    }
}

/// Decimal digits of `n`, most significant first, without leading zeros.
pub open spec fn decimal(n: nat) -> Seq<char>
    decreases n,
{
    if n < 10 {
        seq![digit_char(n as int)]
    } else {
        decimal(n / 10) + seq![digit_char((n % 10) as int)]
    }
}

/// The id of the player that a connection on `port` gets: `player_<port>`.
pub open spec fn player_id_of(port: u16) -> Seq<char> {
    "player_"@ + decimal(port as nat)
}

fn digit_text(d: u64) -> (r: &'static str)
    requires
        d < 10,
    ensures
        r@ == seq![digit_char(d as int)],
{
    proof {
        reveal_strlit("0");
        reveal_strlit("1");
        reveal_strlit("2");
        reveal_strlit("3");
        reveal_strlit("4");
        reveal_strlit("5");
        reveal_strlit("6");
        reveal_strlit("7");
        reveal_strlit("8");
        reveal_strlit("9");
    }
    if d == 0 {
        "0"
    } else if d == 1 {
        "1"
    } else if d == 2 {
        "2"
    } else if d == 3 {
        "3"
    } else if d == 4 {
        "4"
    } else if d == 5 {
        "5"
    } else if d == 6 {
        "6"
    } else if d == 7 {
        "7"
    } else if d == 8 {
        "8"
    } else {
        "9"
    }
}

/// Appends the decimal digits of `n`.
pub(crate) fn push_decimal(s: &mut String, n: u64)
    ensures
        final(s)@ == old(s)@ + decimal(n as nat),
    decreases n,
{
    if n >= 10 {
        push_decimal(s, n / 10);
    }
    s.append(digit_text(n % 10));
    proof {
        if n < 10 {
            assert(old(s)@ + decimal(n as nat) =~= old(s)@ + seq![digit_char(n as int)]);
        } else {
            assert(old(s)@ + decimal(n as nat) =~= (old(s)@ + decimal((n / 10) as nat)) + seq![
                digit_char((n % 10) as int),
            ]);
        }
    }
}

/// Builds the id of the player that a connection on `port` gets.
pub fn player_id_for(port: u16) -> (r: String)
    ensures
        r@ == player_id_of(port),
{
    let mut s = "player_".to_owned();
    push_decimal(&mut s, port as u64);
    s
}

} // verus!
