//! What the input systems make of keys and controller axes.

use vstd::prelude::*;

verus! {

/// The axes of a game controller.
#[derive(Copy, Clone, Debug, PartialEq, Eq, Structural)]
pub enum ControllerAxis {
    LeftX,
    LeftY,
    RightX,
    RightY,
    TriggerLeft,
    TriggerRight,
}

pub const LEFT_THUMB_DEADZONE: i16 = 7849;

pub const RIGHT_THUMB_DEADZONE: i16 = 8689;

pub const TRIGGER_THRESHOLD: i16 = 30;

/// Whether `value` lies outside the dead zone of `axis`: beyond the dead zone
/// of its thumb stick on either side, or above the threshold of a trigger.
pub open spec fn outside_deadzone(axis: ControllerAxis, value: i16) -> bool {
    match axis {
        ControllerAxis::LeftX | ControllerAxis::LeftY => value > LEFT_THUMB_DEADZONE || value
            < -LEFT_THUMB_DEADZONE,
        ControllerAxis::RightX | ControllerAxis::RightY => value > RIGHT_THUMB_DEADZONE || value
            < -RIGHT_THUMB_DEADZONE,
        ControllerAxis::TriggerLeft | ControllerAxis::TriggerRight => value > TRIGGER_THRESHOLD,
    }
}

/// If the value is inside deadzone: then value is 0. A thumb stick has a dead
/// zone around its centre, a trigger a threshold that it has to pass.
pub fn apply_deadzone(axis: ControllerAxis, value: i16) -> (reading: i16)
    ensures
        reading == if outside_deadzone(axis, value) {
            value
        } else {
            0
        },
{
    match axis {
        // Left
        ControllerAxis::LeftX | ControllerAxis::LeftY => {
            if value > LEFT_THUMB_DEADZONE || value < -LEFT_THUMB_DEADZONE {
                value
            } else {
                0
            }
        },
        // Right
        ControllerAxis::RightX | ControllerAxis::RightY => {
            if value > RIGHT_THUMB_DEADZONE || value < -RIGHT_THUMB_DEADZONE {
                value
            } else {
                0
            }
        },
        // Triggers
        ControllerAxis::TriggerLeft | ControllerAxis::TriggerRight => {
            if value > TRIGGER_THRESHOLD {
                value
            } else {
                0
            }
        },
    }
}

/// The axes of the game's input.
#[derive(Copy, Clone, Debug, PartialEq, Eq, Structural)]
pub enum InputAxis {
    Forward,
    Right,
    ViewHorizontal,
    ViewVertical,
}

/// Where the reading of a controller axis goes.
#[derive(Copy, Clone, Debug, PartialEq, Eq, Structural)]
pub struct AxisBinding {
    pub axis: InputAxis,
    /// Whether the reading changes sign on the way.
    pub inverted: bool,
}

/// The input axis that a controller axis drives: the left stick moves, its
/// vertical axis inverted, the right stick looks around. The triggers drive
/// nothing.
pub fn axis_binding(axis: ControllerAxis) -> (binding: Option<AxisBinding>)
    ensures
        binding == match axis {
            ControllerAxis::LeftX => Some(AxisBinding { axis: InputAxis::Right, inverted: false }),
            ControllerAxis::LeftY => Some(AxisBinding { axis: InputAxis::Forward, inverted: true }),
            ControllerAxis::RightX => Some(
                AxisBinding { axis: InputAxis::ViewHorizontal, inverted: false },
            ),
            ControllerAxis::RightY => Some(
                AxisBinding { axis: InputAxis::ViewVertical, inverted: false },
            ),
            ControllerAxis::TriggerLeft | ControllerAxis::TriggerRight => None,
        },
{
    match axis {
        ControllerAxis::LeftX => Some(AxisBinding { axis: InputAxis::Right, inverted: false }),
        ControllerAxis::LeftY => Some(AxisBinding { axis: InputAxis::Forward, inverted: true }),
        ControllerAxis::RightX => Some(
            AxisBinding { axis: InputAxis::ViewHorizontal, inverted: false },
        ),
        ControllerAxis::RightY => Some(
            AxisBinding { axis: InputAxis::ViewVertical, inverted: false },
        ),
        _ => None,
    }
}

/// The keys that the game reacts to.
#[derive(Copy, Clone, Debug, PartialEq, Eq, Structural)]
pub enum Key {
    Q,
    W,
    A,
    S,
    D,
    Other,
}

/// What a key event does to the game's input.
#[derive(Copy, Clone, Debug, PartialEq, Eq, Structural)]
pub enum KeyAction {
    /// The user has asked to close the game.
    Quit,
    /// The axis is set to full forward or right (1), full backward or left
    /// (-1), or released (0).
    Steer(InputAxis, i8),
    Ignore,
}

/// Turns a key event into game data: pressing Q quits; W and S push the
/// forward axis to its ends, D and A the right axis; releasing any of these
/// four lets its axis go.
pub fn key_action(pressed: bool, key: Key) -> (action: KeyAction)
    ensures
        action == match (pressed, key) {
            (true, Key::Q) => KeyAction::Quit,
            (true, Key::W) => KeyAction::Steer(InputAxis::Forward, 1),
            (true, Key::S) => KeyAction::Steer(InputAxis::Forward, -1i8),
            (true, Key::D) => KeyAction::Steer(InputAxis::Right, 1),
            (true, Key::A) => KeyAction::Steer(InputAxis::Right, -1i8),
            (false, Key::W) | (false, Key::S) => KeyAction::Steer(InputAxis::Forward, 0),
            (false, Key::D) | (false, Key::A) => KeyAction::Steer(InputAxis::Right, 0),
            _ => KeyAction::Ignore,
        },
{
    if pressed {
        match key {
            // Quit the game with q
            Key::Q => KeyAction::Quit,
            Key::W => KeyAction::Steer(InputAxis::Forward, 1),
            Key::S => KeyAction::Steer(InputAxis::Forward, -1),
            Key::D => KeyAction::Steer(InputAxis::Right, 1),
            Key::A => KeyAction::Steer(InputAxis::Right, -1),
            Key::Other => KeyAction::Ignore,
        }
    } else {
        match key {
            Key::W => KeyAction::Steer(InputAxis::Forward, 0),
            Key::S => KeyAction::Steer(InputAxis::Forward, 0),
            Key::D => KeyAction::Steer(InputAxis::Right, 0),
            Key::A => KeyAction::Steer(InputAxis::Right, 0),
            _ => KeyAction::Ignore,
        }
    }
}

} // verus!
