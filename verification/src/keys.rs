//! Input events as the core reads them: the pressed key and the modifiers
//! held with it.

use vstd::prelude::*;

verus! {

/// The bit of the shift key in a set of modifiers.
pub const SHIFT: u8 = 0b0000_0001;

/// The bit of the control key in a set of modifiers.
pub const CONTROL: u8 = 0b0000_0010;

/// The bit of the alt key in a set of modifiers.
pub const ALT: u8 = 0b0000_0100;

/// The empty set of modifiers.
pub const NONE: u8 = 0b0000_0000;

/// A set of modifier keys, one bit each.
#[derive(Clone, Copy, Debug, PartialEq, Eq, Structural)]
pub struct KeyModifiers(pub u8);

impl KeyModifiers {
    /// The modifiers of `self` that are not in `other`.
    pub open spec fn spec_difference(self, other: KeyModifiers) -> KeyModifiers {
        KeyModifiers(self.0 & !other.0)
    }

    /// No modifier is held.
    pub open spec fn spec_is_empty(self) -> bool {
        self.0 == 0
    }

    /// Every modifier of `other` is in `self`.
    pub open spec fn spec_contains(self, other: KeyModifiers) -> bool {
        self.0 & other.0 == other.0
    }

    /// No modifier but shift is held.
    pub open spec fn is_plain(self) -> bool {
        self.spec_difference(KeyModifiers(SHIFT)).spec_is_empty()
    }

    /// The control key is held.
    pub open spec fn has_control(self) -> bool {
        self.spec_contains(KeyModifiers(CONTROL))
    }

    /// The modifiers of `self` that are not in `other`.
    #[verifier::when_used_as_spec(spec_difference)]
    pub fn difference(self, other: KeyModifiers) -> (rest: KeyModifiers)
        ensures
            rest == self.spec_difference(other),
    {
        KeyModifiers(self.0 & !other.0)
    }

    /// Whether no modifier is held.
    #[verifier::when_used_as_spec(spec_is_empty)]
    pub fn is_empty(self) -> (empty: bool)
        ensures
            empty == self.spec_is_empty(),
    {
        self.0 == 0
    }

    /// Whether every modifier of `other` is in `self`.
    #[verifier::when_used_as_spec(spec_contains)]
    pub fn contains(self, other: KeyModifiers) -> (held: bool)
        ensures
            held == self.spec_contains(other),
    {
        self.0 & other.0 == other.0
    }
}

/// The key that was pressed.
#[derive(Clone, Copy, Debug, PartialEq, Eq, Structural)]
pub enum KeyCode {
    Backspace,
    Enter,
    Up,
    Down,
    Esc,
    Char(char),
    /// Any key that the core gives no meaning to.
    Other,
}

/// A key press.
#[derive(Clone, Copy, Debug, PartialEq, Eq, Structural)]
pub struct KeyEvent {
    pub code: KeyCode,
    pub modifiers: KeyModifiers,
}

/// What the terminal reports.
#[derive(Clone, Copy, Debug, PartialEq, Eq, Structural)]
pub enum Event {
    Key(KeyEvent),
    /// Anything but a key press.
    Other,
}

/// No modifier but shift is held exactly when the set is empty or holds
/// shift alone.
pub proof fn lemma_plain_modifiers(modifiers: KeyModifiers)
    ensures
        modifiers.is_plain() <==> (modifiers.0 == NONE || modifiers.0 == SHIFT),
{
    let bits = modifiers.0;
    assert((bits & !1u8 == 0) <==> (bits == 0 || bits == 1)) by (bit_vector);
}

/// A set of modifiers with the control key in it holds more than shift.
pub proof fn lemma_control_is_not_plain(modifiers: KeyModifiers)
    requires
        modifiers.has_control(),
    ensures
        !modifiers.is_plain(),
{
    let bits = modifiers.0;
    assert(bits & 2u8 == 2u8 ==> bits & !1u8 != 0) by (bit_vector);
}

} // verus!
