use vstd::prelude::*;
use vstd::string::StringExecFns;

use crate::protocol::ClientMessage;

verus! {

/// Input magnitude (thousandths of full deflection) below which an axis counts
/// as released.
pub const INPUT_DEADZONE: i32 = 200;

/// Distance (thousandths of a unit) a reported position must be off the shown
/// one before the shown one is corrected.
pub const JITTER_THRESHOLD: i64 = 2000;

/// Cardinal direction a player faces.
#[derive(Debug, Clone, Copy, PartialEq, Eq, Structural)]
pub enum FacingDir {
    Up,
    Down,
    Left,
    Right,
}

impl Default for FacingDir {
    fn default() -> (r: FacingDir)
        ensures
            r == FacingDir::Down,
    {
        FacingDir::Down
    }
}

/// The participant that owns a player.
#[derive(Debug, Clone, Copy, PartialEq, Eq, Structural)]
pub struct Player(pub u64);

/// The direction a player last moved in.
#[derive(Debug, Clone, Copy, PartialEq, Eq, Structural)]
pub struct PlayerFacing(pub FacingDir);

/// The last input a player received, after deadzone filtering; it persists
/// across frames until new input arrives.
#[derive(Debug, Clone, Copy, PartialEq, Eq, Structural)]
pub struct PlayerInputState {
    pub horizontal: i32,
    pub vertical: i32,
}

/// The animation last started on a player.
pub struct PlayerAnimState {
    pub current: String,
}

/// The client-side state of one shown participant.
pub struct PlayerState {
    pub owner: Player,
    pub x: i32,
    pub y: i32,
    pub input: PlayerInputState,
    pub facing: PlayerFacing,
    pub anim: PlayerAnimState,
}

pub open spec fn abs_of(a: i32) -> int {
    if a < 0 {
        -(a as int)
    } else {
        a as int
    }
}

/// An axis value with the deadzone applied.
pub open spec fn filtered(a: i32) -> i32 {
    if abs_of(a) < INPUT_DEADZONE {
        0
    } else {
        a
    }
}

/// The facing after input `(h, v)` (already filtered), where `prev` was faced
/// before: the dominant axis decides, the horizontal one on a tie; no input
/// keeps the facing.
pub open spec fn facing_after(prev: FacingDir, h: i32, v: i32) -> FacingDir {
    if h == 0 && v == 0 {
        prev
    } else if abs_of(h) >= abs_of(v) {
        if h >= 0 {
            FacingDir::Right
        } else {
            FacingDir::Left
        }
    } else if v >= 0 {
        FacingDir::Down
    } else {
        FacingDir::Up
    }
}

/// Whether `(x, y)` lies farther than the jitter threshold from `(cx, cy)`.
pub open spec fn is_far(cx: i32, cy: i32, x: i32, y: i32) -> bool {
    let dx = cx - x;
    let dy = cy - y;
    dx * dx + dy * dy > JITTER_THRESHOLD * JITTER_THRESHOLD
}

pub open spec fn direction_word(f: FacingDir) -> Seq<char> {
    match f {
        FacingDir::Up => "up"@,
        FacingDir::Down => "down"@,
        FacingDir::Left => "left"@,
        FacingDir::Right => "right"@,
    }
}

/// The animation for facing `f`, running or idle.
pub open spec fn animation_of(f: FacingDir, moving: bool) -> Seq<char> {
    if moving {
        "run_"@ + direction_word(f)
    } else {
        "idle_"@ + direction_word(f)
    }
}

/// Whether input `i` moves the player: some axis exceeds the deadzone.
pub open spec fn is_moving(i: PlayerInputState) -> bool {
    abs_of(i.horizontal) > INPUT_DEADZONE || abs_of(i.vertical) > INPUT_DEADZONE
}

/// Applies the deadzone to one axis.
pub fn apply_deadzone(a: i32) -> (r: i32)
    ensures
        r == filtered(a),
{
    if a > -INPUT_DEADZONE && a < INPUT_DEADZONE {
        0
    } else {
        a
    }
}

/// The facing after filtered input `(h, v)`, where `prev` was faced before.
pub fn facing_for(prev: FacingDir, h: i32, v: i32) -> (r: FacingDir)
    ensures
        r == facing_after(prev, h, v),
{
    if h == 0 && v == 0 {
        return prev;
    }
    let ax: i64 = if h < 0 {
        -(h as i64)
    } else {
        h as i64
    };
    let ay: i64 = if v < 0 {
        -(v as i64)
    } else {
        v as i64
    };
    if ax >= ay {
        if h >= 0 {
            FacingDir::Right
        } else {
            FacingDir::Left
        }
    } else if v >= 0 {
        FacingDir::Down
    } else {
        FacingDir::Up
    }
}

/// Whether a shown position `(cx, cy)` is to be corrected to a reported `(x, y)`.
pub fn should_snap(cx: i32, cy: i32, x: i32, y: i32) -> (r: bool)
    ensures
        r == is_far(cx, cy, x, y),
{
    let dx: i128 = cx as i128 - x as i128;
    let dy: i128 = cy as i128 - y as i128;
    assert(0 <= dx * dx <= 0x1_0000_0000_0000_0000) by (nonlinear_arith)
        requires
            -0x1_0000_0000 <= dx <= 0x1_0000_0000,
    ;
    assert(0 <= dy * dy <= 0x1_0000_0000_0000_0000) by (nonlinear_arith)
        requires
            -0x1_0000_0000 <= dy <= 0x1_0000_0000,
    ;
    let t: i128 = JITTER_THRESHOLD as i128;
    dx * dx + dy * dy > t * t
}

fn direction_text(f: FacingDir) -> (r: String)
    ensures
        r@ == direction_word(f),
{
    match f {
        FacingDir::Up => String::from_str("up"),
        FacingDir::Down => String::from_str("down"),
        FacingDir::Left => String::from_str("left"),
        FacingDir::Right => String::from_str("right"),
    }
}

/// The message that reports the local player at `(x, y)` steered by raw input
/// `(horizontal, vertical)`, with the deadzone applied.
pub fn local_update(x: i32, y: i32, horizontal: i32, vertical: i32) -> (r: ClientMessage)
    ensures
        r == (ClientMessage::PlayerUpdate {
            x,
            y,
            horizontal: filtered(horizontal),
            vertical: filtered(vertical),
        }),
{
    ClientMessage::PlayerUpdate {
        x,
        y,
        horizontal: apply_deadzone(horizontal),
        vertical: apply_deadzone(vertical),
    }
}

impl PlayerAnimState {
    /// Switches to animation `name`; `true` where it differs from the current one
    /// and so has to be started.
    pub fn switch_to(&mut self, name: String) -> (changed: bool)
        ensures
            changed == (old(self).current@ != name@),
            final(self).current@ == name@,
    {
        if self.current == name {
            false
        } else {
            self.current = name;
            true
        }
    }
}

impl PlayerState {
    /// A player of `owner` shown at `(x, y)`, idle and facing down.
    pub fn new(owner: u64, x: i32, y: i32) -> (r: PlayerState)
        ensures
            r.owner == Player(owner),
            r.x == x,
            r.y == y,
            r.input == (PlayerInputState { horizontal: 0, vertical: 0 }),
            r.facing == PlayerFacing(FacingDir::Down),
            r.anim.current@ == Seq::<char>::empty(),
    {
        PlayerState {
            owner: Player(owner),
            x,
            y,
            input: PlayerInputState { horizontal: 0, vertical: 0 },
            facing: PlayerFacing(FacingDir::Down),
            anim: PlayerAnimState { current: String::new() },
        }
    }

    /// Takes new input: the deadzone applied, it persists, and the facing
    /// follows it.
    pub fn apply_input(&mut self, horizontal: i32, vertical: i32)
        ensures
            final(self).input == (PlayerInputState {
                horizontal: filtered(horizontal),
                vertical: filtered(vertical),
            }),
            final(self).facing == PlayerFacing(
                facing_after(old(self).facing.0, filtered(horizontal), filtered(vertical)),
            ),
            final(self).owner == old(self).owner,
            final(self).x == old(self).x,
            final(self).y == old(self).y,
            final(self).anim.current@ == old(self).anim.current@,
    {
        let h = apply_deadzone(horizontal);
        let v = apply_deadzone(vertical);
        self.input = PlayerInputState { horizontal: h, vertical: v };
        self.facing = PlayerFacing(facing_for(self.facing.0, h, v));
    }

    /// The animation the player's persisted input and facing call for.
    pub fn animation(&self) -> (r: String)
        ensures
            r@ == animation_of(self.facing.0, is_moving(self.input)),
    {
        let h = self.input.horizontal;
        let v = self.input.vertical;
        let moving = h < -INPUT_DEADZONE || h > INPUT_DEADZONE || v < -INPUT_DEADZONE || v
            > INPUT_DEADZONE;
        let prefix = if moving {
            String::from_str("run_")
        } else {
            String::from_str("idle_")
        };
        prefix.concat(direction_text(self.facing.0).as_str())
    }

    /// Takes a position update that participant `client_id` reported, where the
    /// local participant is `self_id`. Only an update about this player, from
    /// someone other than the local participant, counts: it moves the player
    /// to the reported position where that is beyond the jitter threshold, and
    /// its input is taken. Anything else leaves the player as it is.
    pub fn apply_remote_update(
        &mut self,
        self_id: Option<u64>,
        client_id: u64,
        x: i32,
        y: i32,
        horizontal: i32,
        vertical: i32,
    ) -> (snapped: bool)
        ensures
            final(self).owner == old(self).owner,
            final(self).anim.current@ == old(self).anim.current@,
            (client_id != old(self).owner.0 || self_id == Some(client_id)) ==> {
                &&& !snapped
                &&& final(self).x == old(self).x
                &&& final(self).y == old(self).y
                &&& final(self).input == old(self).input
                &&& final(self).facing == old(self).facing
            },
            (client_id == old(self).owner.0 && self_id != Some(client_id)) ==> {
                &&& snapped == is_far(old(self).x, old(self).y, x, y)
                &&& (final(self).x, final(self).y) == if snapped {
                    (x, y)
                } else {
                    (old(self).x, old(self).y)
                }
                &&& final(self).input == (PlayerInputState {
                    horizontal: filtered(horizontal),
                    vertical: filtered(vertical),
                })
                &&& final(self).facing == PlayerFacing(
                    facing_after(old(self).facing.0, filtered(horizontal), filtered(vertical)),
                )
            },
    {
        if client_id != self.owner.0 || self_id == Some(client_id) {
            return false;
        }
        let snapped = should_snap(self.x, self.y, x, y);
        if snapped {
            self.x = x;
            self.y = y;
        }
        self.apply_input(horizontal, vertical);
        snapped
    }
}

/// Whether `after` is `before` once the update of `client_id` to `(x, y)` with
/// input `(h, v)` is taken, where the local participant is `self_id`.
pub open spec fn updated(
    before: PlayerState,
    after: PlayerState,
    self_id: Option<u64>,
    client_id: u64,
    x: i32,
    y: i32,
    h: i32,
    v: i32,
) -> bool {
    &&& after.owner == before.owner
    &&& after.anim.current@ == before.anim.current@
    &&& if client_id != before.owner.0 || self_id == Some(client_id) {
        &&& after.x == before.x
        &&& after.y == before.y
        &&& after.input == before.input
        &&& after.facing == before.facing
    } else {
        &&& (after.x, after.y) == if is_far(before.x, before.y, x, y) {
            (x, y)
        } else {
            (before.x, before.y)
        }
        &&& after.input == (PlayerInputState { horizontal: filtered(h), vertical: filtered(v) })
        &&& after.facing == PlayerFacing(facing_after(before.facing.0, filtered(h), filtered(v)))
    }
}

/// An update that names the local participant never moves any player.
pub proof fn lemma_self_update_keeps_position(
    before: PlayerState,
    after: PlayerState,
    self_id: u64,
    x: i32,
    y: i32,
    h: i32,
    v: i32,
)
    requires
        updated(before, after, Some(self_id), self_id, x, y, h, v),
    ensures
        after.x == before.x,
        after.y == before.y,
{
}

/// However many updates naming the local participant a player takes in turn,
/// it stays where it was.
pub proof fn lemma_self_updates_keep_position(
    states: Seq<PlayerState>,
    self_id: u64,
    updates: Seq<(i32, i32, i32, i32)>,
)
    requires
        states.len() == updates.len() + 1,
        forall|i: int|
            0 <= i < updates.len() ==> updated(
                #[trigger] states[i],
                states[i + 1],
                Some(self_id),
                self_id,
                updates[i].0,
                updates[i].1,
                updates[i].2,
                updates[i].3,
            ),
    ensures
        states.last().x == states[0].x,
        states.last().y == states[0].y,
    decreases updates.len(),
{
    if updates.len() > 0 {
        let n = updates.len() as int;
        lemma_self_updates_keep_position(states.drop_last(), self_id, updates.drop_last());
        assert(updated(states[n - 1], states[n], Some(self_id), self_id, updates[n - 1].0,
            updates[n - 1].1, updates[n - 1].2, updates[n - 1].3));
    }
}

/// Takes one reported update into every shown player; the local participant
/// is `self_id`.
pub fn reconcile_all(
    players: &mut Vec<PlayerState>,
    self_id: Option<u64>,
    client_id: u64,
    x: i32,
    y: i32,
    horizontal: i32,
    vertical: i32,
)
    ensures
        final(players)@.len() == old(players)@.len(),
        forall|i: int|
            0 <= i < old(players)@.len() ==> updated(
                #[trigger] old(players)@[i],
                final(players)@[i],
                self_id,
                client_id,
                x,
                y,
                horizontal,
                vertical,
            ),
{
    let mut i: usize = 0;
    while i < players.len()
        invariant
            i <= players@.len(),
            players@.len() == old(players)@.len(),
            forall|k: int|
                0 <= k < i ==> updated(
                    #[trigger] old(players)@[k],
                    players@[k],
                    self_id,
                    client_id,
                    x,
                    y,
                    horizontal,
                    vertical,
                ),
            forall|k: int| i <= k < players@.len() ==> players@[k] == old(players)@[k],
        decreases players@.len() - i,
    {
        let mut p = players.remove(i);
        let _ = p.apply_remote_update(self_id, client_id, x, y, horizontal, vertical);
        players.insert(i, p);
        i = i + 1;
    }
}

} // verus!
