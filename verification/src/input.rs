//! Action-mapped input state: physical key scancodes bound to logical game
//! actions, and the set of actions currently held.
use vstd::prelude::*;

use std::collections::HashMap;

verus! {

broadcast use vstd::std_specs::hash::group_hash_axioms;

/// Logical game actions (hold-style).
#[derive(Clone, Copy, Debug, PartialEq, Eq, Hash, Structural)]
pub enum Action {
    MoveForward,
    MoveBackward,
    StrafeLeft,
    StrafeRight,
    FlyUp,
    FlyDown,
    Sprint,
}

/// Slot of an action in the held-action table.
pub open spec fn spec_action_slot(a: Action) -> int {
    match a {
        Action::MoveForward => 0,
        Action::MoveBackward => 1,
        Action::StrafeLeft => 2,
        Action::StrafeRight => 3,
        Action::FlyUp => 4,
        Action::FlyDown => 5,
        Action::Sprint => 6,
    }
}

fn action_slot(a: Action) -> (r: usize)
    ensures
        r == spec_action_slot(a),
        r < 7,
{
    match a {
        Action::MoveForward => 0,
        Action::MoveBackward => 1,
        Action::StrafeLeft => 2,
        Action::StrafeRight => 3,
        Action::FlyUp => 4,
        Action::FlyDown => 5,
        Action::Sprint => 6,
    }
}

/// Key bindings and held actions.
pub struct InputManager {
    bindings: HashMap<u32, Action>,
    active: Vec<bool>,
    /// Whether the cursor is grabbed for mouse look (set by the windowing layer).
    pub cursor_grabbed: bool,
}

impl InputManager {
    /// Scancode-to-action bindings.
    pub closed spec fn bindings(&self) -> Map<u32, Action> {
        self.bindings@
    }

    /// Whether `a` is currently held.
    pub closed spec fn held(&self, a: Action) -> bool {
        self.active@[spec_action_slot(a)]
    }

    /// Whether the cursor is grabbed.
    pub closed spec fn grabbed(&self) -> bool {
        self.cursor_grabbed
    }

    pub closed spec fn wf(&self) -> bool {
        self.active@.len() == 7
    }

    /// No bindings, nothing held, cursor not grabbed.
    pub fn new() -> (r: Self)
        ensures
            r.wf(),
            r.bindings() == Map::<u32, Action>::empty(),
            forall|a: Action| !#[trigger] r.held(a),
            !r.grabbed(),
    {
        let mut active: Vec<bool> = Vec::new();
        let mut i: usize = 0;
        while i < 7
            invariant
                i <= 7,
                active@.len() == i,
                forall|k: int| 0 <= k < i ==> !#[trigger] active@[k],
            decreases 7 - i,
        {
            active.push(false);
            i = i + 1;
        }
        InputManager { bindings: HashMap::new(), active, cursor_grabbed: false }
    }

    /// Bind scancode `key` to `action`, replacing any earlier binding of it.
    pub fn bind(&mut self, key: u32, action: Action)
        requires
            old(self).wf(),
        ensures
            final(self).wf(),
            final(self).bindings() == old(self).bindings().insert(key, action),
            forall|a: Action| #[trigger] final(self).held(a) == old(self).held(a),
            final(self).grabbed() == old(self).grabbed(),
    {
        self.bindings.insert(key, action);
    }

    /// Key `key` pressed: its bound action becomes held.
    pub fn key_down(&mut self, key: u32)
        requires
            old(self).wf(),
        ensures
            final(self).wf(),
            final(self).bindings() == old(self).bindings(),
            final(self).grabbed() == old(self).grabbed(),
            forall|a: Action| #[trigger] final(self).held(a) == (old(self).held(a) || (old(
                self,
            ).bindings().contains_key(key) && old(self).bindings()[key] == a)),
    {
        match self.bindings.get(&key) {
            Some(action) => {
                let slot = action_slot(*action);
                self.active[slot] = true;
                assert forall|a: Action| #[trigger] self.held(a) == (old(self).held(a) || (old(
                    self,
                ).bindings().contains_key(key) && old(self).bindings()[key] == a)) by {
                    if spec_action_slot(a) == slot as int {
                        assert(a == *action);
                    }
                }
            },
            None => {},
        }
    }

    /// Key `key` released: its bound action is no longer held.
    pub fn key_up(&mut self, key: u32)
        requires
            old(self).wf(),
        ensures
            final(self).wf(),
            final(self).bindings() == old(self).bindings(),
            final(self).grabbed() == old(self).grabbed(),
            forall|a: Action| #[trigger] final(self).held(a) == (old(self).held(a) && !(old(
                self,
            ).bindings().contains_key(key) && old(self).bindings()[key] == a)),
    {
        match self.bindings.get(&key) {
            Some(action) => {
                let slot = action_slot(*action);
                self.active[slot] = false;
                assert forall|a: Action| #[trigger] self.held(a) == (old(self).held(a) && !(old(
                    self,
                ).bindings().contains_key(key) && old(self).bindings()[key] == a)) by {
                    if spec_action_slot(a) == slot as int {
                        assert(a == *action);
                    }
                }
            },
            None => {},
        }
    }

    /// Whether `action` is currently held.
    pub fn is_active(&self, action: Action) -> (r: bool)
        requires
            self.wf(),
        ensures
            r == self.held(action),
    {
        self.active[action_slot(action)]
    }

    /// -1, 0 or 1 from a negative/positive action pair: 1 when only the
    /// positive one is held, -1 when only the negative one is.
    pub fn get_axis(&self, negative: Action, positive: Action) -> (r: i32)
        requires
            self.wf(),
        ensures
            r == (if self.held(positive) { 1int } else { 0 }) - (if self.held(negative) { 1int } else { 0 }),
    {
        let neg: i32 = if self.is_active(negative) {
            1
        } else {
            0
        };
        let pos: i32 = if self.is_active(positive) {
            1
        } else {
            0
        };
        pos - neg
    }

    /// Release every held action.
    pub fn reset(&mut self)
        requires
            old(self).wf(),
        ensures
            final(self).wf(),
            final(self).bindings() == old(self).bindings(),
            final(self).grabbed() == old(self).grabbed(),
            forall|a: Action| !#[trigger] final(self).held(a),
    {
        let mut i: usize = 0;
        while i < 7
            invariant
                i <= 7,
                self.active@.len() == 7,
                self.bindings@ == old(self).bindings@,
                self.cursor_grabbed == old(self).cursor_grabbed,
                forall|k: int| 0 <= k < i ==> !#[trigger] self.active@[k],
            decreases 7 - i,
        {
            self.active[i] = false;
            i = i + 1;
        }
        assert forall|a: Action| !#[trigger] self.held(a) by {
            assert(0 <= spec_action_slot(a) < 7);
        }
    }
}

} // verus!
