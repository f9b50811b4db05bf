use vstd::prelude::*;

verus! {

/// Keyboard scan codes of the movement keys (W, S, D, A, space, left control).
pub const FORWARD_SCANCODE: u32 = 17;
pub const BACKWARD_SCANCODE: u32 = 31;
pub const RIGHT_SCANCODE: u32 = 32;
pub const LEFT_SCANCODE: u32 = 30;
pub const UP_SCANCODE: u32 = 57;
pub const DOWN_SCANCODE: u32 = 29;

/// An input event, as far as the camera controls read it.
#[derive(Debug, Clone, Copy, PartialEq, Eq, Structural)]
pub enum InputEvent {
    /// A key changed state.
    Key { scancode: u32, pressed: bool },
    /// A mouse button changed state.
    MouseButton { right: bool, pressed: bool },
    /// Anything else.
    Other,
}

/// Which movement keys are held and whether the view follows the mouse.
#[derive(Debug, Clone, Copy, PartialEq, Eq, Structural)]
pub struct MoveKeys {
    pub go_forward: bool,
    pub go_backward: bool,
    pub strafe_right: bool,
    pub strafe_left: bool,
    pub go_up: bool,
    pub go_down: bool,
    pub look_around: bool,
}

/// The state after `e`: a movement key sets its flag to whether it is
/// pressed, the right mouse button sets `look_around`, anything else
/// changes nothing.
pub open spec fn spec_handle_input(k: MoveKeys, e: InputEvent) -> MoveKeys {
    match e {
        InputEvent::Key { scancode, pressed } => MoveKeys {
            go_forward: if scancode == FORWARD_SCANCODE { pressed } else { k.go_forward },
            go_backward: if scancode == BACKWARD_SCANCODE { pressed } else { k.go_backward },
            strafe_right: if scancode == RIGHT_SCANCODE { pressed } else { k.strafe_right },
            strafe_left: if scancode == LEFT_SCANCODE { pressed } else { k.strafe_left },
            go_up: if scancode == UP_SCANCODE { pressed } else { k.go_up },
            go_down: if scancode == DOWN_SCANCODE { pressed } else { k.go_down },
            look_around: k.look_around,
        },
        InputEvent::MouseButton { right, pressed } => MoveKeys {
            look_around: if right { pressed } else { k.look_around },
            ..k
        },
        InputEvent::Other => k,
    }
}

/// `scancode` is one of the six movement keys.
pub open spec fn is_move_key(scancode: u32) -> bool {
    scancode == FORWARD_SCANCODE || scancode == BACKWARD_SCANCODE || scancode == RIGHT_SCANCODE
        || scancode == LEFT_SCANCODE || scancode == UP_SCANCODE || scancode == DOWN_SCANCODE
}

/// Whether movement key `scancode` is held in `k` (false for other keys).
pub open spec fn key_held(k: MoveKeys, scancode: u32) -> bool {
    if scancode == FORWARD_SCANCODE {
        k.go_forward
    } else if scancode == BACKWARD_SCANCODE {
        k.go_backward
    } else if scancode == RIGHT_SCANCODE {
        k.strafe_right
    } else if scancode == LEFT_SCANCODE {
        k.strafe_left
    } else if scancode == UP_SCANCODE {
        k.go_up
    } else if scancode == DOWN_SCANCODE {
        k.go_down
    } else {
        false
    }
}

/// The net movement a flag pair asks for: +1, 0 or -1.
pub open spec fn axis(plus: bool, minus: bool) -> int {
    (if plus { 1int } else { 0int }) - (if minus { 1int } else { 0int })
}

impl MoveKeys {
    /// Nothing held.
    pub fn default() -> (k: Self)
        ensures
            !k.go_forward && !k.go_backward && !k.strafe_right && !k.strafe_left && !k.go_up && !k.go_down
                && !k.look_around,
    {
        MoveKeys {
            go_forward: false,
            go_backward: false,
            strafe_right: false,
            strafe_left: false,
            go_up: false,
            go_down: false,
            look_around: false,
        }
    }

    /// The keys after input event `e`.
    pub fn handle_event(self, e: InputEvent) -> (k: Self)
        ensures
            k == spec_handle_input(self, e),
            e matches InputEvent::Key { scancode, pressed } ==> {
                &&& is_move_key(scancode) ==> key_held(k, scancode) == pressed
                &&& forall|other: u32| other != scancode ==> key_held(k, other) == key_held(self, other)
                &&& k.look_around == self.look_around
            },
            e matches InputEvent::MouseButton { right, pressed } ==> {
                &&& forall|key: u32| key_held(k, key) == key_held(self, key)
                &&& k.look_around == if right { pressed } else { self.look_around }
            },
            e is Other ==> k == self,
    {
        let mut k = self;
        match e {
            InputEvent::Key { scancode, pressed } => {
                if scancode == FORWARD_SCANCODE {
                    k.go_forward = pressed;
                }
                if scancode == BACKWARD_SCANCODE {
                    k.go_backward = pressed;
                }
                if scancode == RIGHT_SCANCODE {
                    k.strafe_right = pressed;
                }
                if scancode == LEFT_SCANCODE {
                    k.strafe_left = pressed;
                }
                if scancode == UP_SCANCODE {
                    k.go_up = pressed;
                }
                if scancode == DOWN_SCANCODE {
                    k.go_down = pressed;
                }
            },
            InputEvent::MouseButton { right, pressed } => {
                if right {
                    k.look_around = pressed;
                }
            },
            InputEvent::Other => {},
        }
        k
    }

    /// The directions the camera moves along: `[forward, right, up]`, each
    /// +1, 0 or -1 (opposite keys cancel out).
    pub fn move_axes(&self) -> (a: [i8; 3])
        ensures
            a@.len() == 3,
            a@[0] == axis(self.go_forward, self.go_backward),
            a@[1] == axis(self.strafe_right, self.strafe_left),
            a@[2] == axis(self.go_up, self.go_down),
    {
        let f: i8 = (if self.go_forward { 1i8 } else { 0i8 }) - (if self.go_backward { 1i8 } else { 0i8 });
        let r: i8 = (if self.strafe_right { 1i8 } else { 0i8 }) - (if self.strafe_left { 1i8 } else { 0i8 });
        let u: i8 = (if self.go_up { 1i8 } else { 0i8 }) - (if self.go_down { 1i8 } else { 0i8 });
        [f, r, u]
    }
}

/// A key event is absorbed: repeating it changes nothing more.
pub proof fn lemma_handle_input_idempotent(k: MoveKeys, e: InputEvent)
    ensures
        spec_handle_input(spec_handle_input(k, e), e) == spec_handle_input(k, e),
{
}

/// A movement key event leaves that key held exactly when it is pressed
/// (a release always clears it), and leaves every other key and the mouse
/// look as they were.
pub proof fn lemma_key_event_sets_its_key(k: MoveKeys, scancode: u32, pressed: bool)
    ensures
        is_move_key(scancode) ==> key_held(spec_handle_input(k, InputEvent::Key { scancode, pressed }), scancode)
            == pressed,
        forall|other: u32|
            other != scancode ==> key_held(spec_handle_input(k, InputEvent::Key { scancode, pressed }), other)
                == key_held(k, other),
        spec_handle_input(k, InputEvent::Key { scancode, pressed }).look_around == k.look_around,
{
}

/// Pressing and then releasing a movement key that was not held gives back
/// the keys as they were; in particular the camera stops moving along that
/// key's axis.
pub proof fn lemma_press_then_release_restores(k: MoveKeys, scancode: u32)
    requires
        !key_held(k, scancode),
    ensures
        spec_handle_input(
            spec_handle_input(k, InputEvent::Key { scancode, pressed: true }),
            InputEvent::Key { scancode, pressed: false },
        ) == k,
{
}

/// After a release of any movement key, no key is left held that was not
/// held before: releases never start a movement.
pub proof fn lemma_release_starts_nothing(k: MoveKeys, scancode: u32)
    ensures
        forall|key: u32|
            key_held(spec_handle_input(k, InputEvent::Key { scancode, pressed: false }), key) ==> key_held(k, key),
        !key_held(spec_handle_input(k, InputEvent::Key { scancode, pressed: false }), scancode),
{
}

} // verus!
