//! Keyboard helpers used by the host server: classifying keys and mapping modifiers to control
//! keys.
use vstd::prelude::*;

verus! {

/// A key of the keyboard, as the input layer reports it. Keys that the logic here does not
/// tell apart are `Other`, with their code.
#[derive(Clone, Copy, Debug, PartialEq, Eq, Structural)]
pub enum Key {
    Alt,
    AltGr,
    ShiftLeft,
    ShiftRight,
    ControlLeft,
    ControlRight,
    MetaLeft,
    MetaRight,
    Kp0,
    Kp1,
    Kp2,
    Kp3,
    Kp4,
    Kp5,
    Kp6,
    Kp7,
    Kp8,
    Kp9,
    KpMinus,
    KpMultiply,
    KpDivide,
    KpPlus,
    KpDecimal,
    KpReturn,
    KpDelete,
    NumLock,
    Other(u32),
}

/// A modifier key as sent to the peer.
#[derive(Clone, Copy, Debug, PartialEq, Eq, Structural)]
pub enum ControlKey {
    Alt,
    Shift,
    Control,
    Meta,
    RAlt,
    RShift,
    RControl,
    RWin,
}

/// The key is a modifier: a Shift, Control, Meta or Alt key.
pub open spec fn modifier(key: Key) -> bool {
    matches!(key,
        Key::ShiftLeft | Key::ShiftRight | Key::ControlLeft | Key::ControlRight | Key::MetaLeft
        | Key::MetaRight | Key::Alt | Key::AltGr)
}

/// The key is one of the numeric keypad's digits or operators.
pub open spec fn numpad_key(key: Key) -> bool {
    matches!(key,
        Key::Kp0 | Key::Kp1 | Key::Kp2 | Key::Kp3 | Key::Kp4 | Key::Kp5 | Key::Kp6 | Key::Kp7
        | Key::Kp8 | Key::Kp9 | Key::KpMinus | Key::KpMultiply | Key::KpDivide | Key::KpPlus
        | Key::KpDecimal)
}

/// Whether the key is a modifier.
pub fn is_modifier(key: &Key) -> (r: bool)
    ensures
        r == modifier(*key),
{
    matches!(key,
        Key::ShiftLeft | Key::ShiftRight | Key::ControlLeft | Key::ControlRight | Key::MetaLeft
        | Key::MetaRight | Key::Alt | Key::AltGr)
}

/// Whether the key is a digit or operator of the numeric keypad.
pub fn is_numpad_rdev_key(key: &Key) -> (r: bool)
    ensures
        r == numpad_key(*key),
{
    matches!(key,
        Key::Kp0 | Key::Kp1 | Key::Kp2 | Key::Kp3 | Key::Kp4 | Key::Kp5 | Key::Kp6 | Key::Kp7
        | Key::Kp8 | Key::Kp9 | Key::KpMinus | Key::KpMultiply | Key::KpDivide | Key::KpPlus
        | Key::KpDecimal)
}

/// The control key a modifier key stands for; `None` for other keys.
pub open spec fn control_key_of(key: Key) -> Option<ControlKey> {
    match key {
        Key::Alt => Some(ControlKey::Alt),
        Key::ShiftLeft => Some(ControlKey::Shift),
        Key::ControlLeft => Some(ControlKey::Control),
        Key::MetaLeft => Some(ControlKey::Meta),
        Key::AltGr => Some(ControlKey::RAlt),
        Key::ShiftRight => Some(ControlKey::RShift),
        Key::ControlRight => Some(ControlKey::RControl),
        Key::MetaRight => Some(ControlKey::RWin),
        _ => None,
    }
}

/// Maps a modifier key to the control key sent to the peer.
pub fn map_key_to_control_key(key: &Key) -> (r: Option<ControlKey>)
    ensures
        r == control_key_of(*key),
{
    match key {
        Key::Alt => Some(ControlKey::Alt),
        Key::ShiftLeft => Some(ControlKey::Shift),
        Key::ControlLeft => Some(ControlKey::Control),
        Key::MetaLeft => Some(ControlKey::Meta),
        Key::AltGr => Some(ControlKey::RAlt),
        Key::ShiftRight => Some(ControlKey::RShift),
        Key::ControlRight => Some(ControlKey::RControl),
        Key::MetaRight => Some(ControlKey::RWin),
        _ => None,
    }
}

/// Exactly the modifier keys map to a control key, and distinct keys to distinct control keys.
pub proof fn lemma_control_keys(a: Key, b: Key)
    ensures
        control_key_of(a) is Some <==> modifier(a),
        control_key_of(a) is Some && control_key_of(a) == control_key_of(b) ==> a == b,
        !(modifier(a) && numpad_key(a)),
{
}

} // verus!
