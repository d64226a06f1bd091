use vstd::prelude::*;
use crate::fixed::{short, Vec2, UNIT};

verus! {

/// Starting speed, in tiles per second.
pub const PLAYER_SPEED: u32 = 7;

/// Starting position: line 12, character 9 of the map, in tiles.
pub const START_X: i64 = 12;
pub const START_Y: i64 = 9;

/// Starting camera-plane length, in fixed-point units (0.66 tiles).
pub const START_CAMERA: i64 = 43253;

#[derive(Clone, Copy, Debug, PartialEq, Eq, Structural)]
pub enum Direction {
    Up,
    Down,
    Left,
    Right,
}

/// An input held down: `Move(Up)` walks forward along the facing, `Move(Down)`
/// backward; `Rotate(Left)` turns counter-clockwise, `Rotate(Right)` clockwise.
#[derive(Clone, Copy, Debug, PartialEq, Eq, Structural)]
pub enum Action {
    Move(Direction),
    Rotate(Direction),
}

/// The player's pose, in fixed point, and the inputs currently held.
#[derive(Debug)]
pub struct Player {
    pub pos: Vec2,
    pub speed: u32,
    pub dir: Vec2,
    pub camera: Vec2,
    pub actions: Vec<Action>,
}

/// `acts` with the first `a` taken out, the last action moving into its place;
/// `acts` itself when it holds no `a`.
pub open spec fn without_action(acts: Seq<Action>, a: Action) -> Seq<Action> {
    if acts.contains(a) {
        let i = choose|i: int| 0 <= i < acts.len() && acts[i] == a
            && forall|j: int| 0 <= j < i ==> acts[j] != a;
        acts.update(i, acts.last()).drop_last()
    } else {
        acts
    }
}

impl Player {
    /// Facing and camera plane short enough for the fixed-point arithmetic.
    pub open spec fn wf(&self) -> bool {
        short(self.dir) && short(self.camera)
    }

    /// The starting player: at (12, 9), facing (-1, 0), camera plane (0, 0.66),
    /// with nothing held.
    pub fn new() -> (p: Self)
        ensures
            p.pos.x == START_X * UNIT && p.pos.y == START_Y * UNIT,
            p.speed == PLAYER_SPEED,
            p.dir.x == -UNIT && p.dir.y == 0,
            p.camera == (Vec2 { x: 0, y: START_CAMERA }),
            p.actions@ == Seq::<Action>::empty(),
            p.wf(),
    {
        Player {
            pos: Vec2 { x: START_X * UNIT, y: START_Y * UNIT },
            speed: PLAYER_SPEED,
            dir: Vec2 { x: -UNIT, y: 0 },
            camera: Vec2 { x: 0, y: START_CAMERA },
            actions: Vec::new(),
        }
    }

    /// Records that an input began.
    pub fn new_action(&mut self, action: Action)
        ensures
            final(self).actions@ == old(self).actions@.push(action),
            final(self).pos == old(self).pos,
            final(self).speed == old(self).speed,
            final(self).dir == old(self).dir,
            final(self).camera == old(self).camera,
    {
        self.actions.push(action);
    }

    /// Records that an input ended: the first occurrence of `action` leaves
    /// the list, the last action taking its place. Removing an action that is
    /// not held changes nothing.
    pub fn remove_action(&mut self, action: Action)
        ensures
            final(self).actions@ == without_action(old(self).actions@, action),
            final(self).pos == old(self).pos,
            final(self).speed == old(self).speed,
            final(self).dir == old(self).dir,
            final(self).camera == old(self).camera,
    {
        let ghost acts = self.actions@;
        let mut i: usize = 0;
        while i < self.actions.len()
            invariant
                self.actions@ == acts,
                acts == old(self).actions@,
                self.pos == old(self).pos,
                self.speed == old(self).speed,
                self.dir == old(self).dir,
                self.camera == old(self).camera,
                i <= acts.len(),
                forall|j: int| 0 <= j < i ==> acts[j] != action,
            decreases acts.len() - i,
        {
            if self.actions[i] == action {
                proof {
                    assert(acts.contains(action));
                    assert(0 <= i < acts.len() && acts[i as int] == action
                        && forall|j: int| 0 <= j < i ==> acts[j] != action);
                    let k = choose|k: int| 0 <= k < acts.len() && acts[k] == action
                        && forall|j: int| 0 <= j < k ==> acts[j] != action;
                    assert(k == i as int) by {
                        if k < i {
                        } else if k > i {
                        }
                    }
                }
                self.actions.swap_remove(i);
                return;
            }
            i = i + 1;
        }
        proof {
            assert(!acts.contains(action));
        }
    }
}

/// Pressing `a` and then `b`, and releasing `a`, leaves the earlier list
/// with `b` added, when `a` was not held before.
pub proof fn lemma_press_press_release(acts: Seq<Action>, a: Action, b: Action)
    requires
        !acts.contains(a),
    ensures
        without_action(acts.push(a).push(b), a) == acts.push(b),
{
    let s = acts.push(a).push(b);
    let n = acts.len() as int;
    assert(s[n] == a);
    assert(s.contains(a));
    assert forall|j: int| 0 <= j < n implies s[j] != a by {
        assert(s[j] == acts[j]);
    }
    let i = choose|i: int| 0 <= i < s.len() && s[i] == a && forall|j: int| 0 <= j < i ==> s[j] != a;
    assert(i == n) by {
        if i < n {
            assert(acts[i] == s[i]);
        } else if i > n {
            assert(s[n] != a);
        }
    }
    assert(s.update(i, s.last()).drop_last() =~= acts.push(b));
}

} // verus!
