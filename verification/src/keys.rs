//! Keys of a terminal.

use vstd::prelude::*;

verus! {

#[derive(Clone, Copy, Debug, PartialEq, Eq, Structural)]
pub enum KeyCode {
    Char(char),
    Backspace,
    BackTab,
    Delete,
    Down,
    End,
    Enter,
    Esc,
    Home,
    Left,
    PageDown,
    PageUp,
    Right,
    Tab,
    Up,
    Other,
}

/// The keys that are held while another is pressed.
#[derive(Clone, Copy, Debug, PartialEq, Eq, Structural)]
pub struct KeyModifiers {
    pub shift: bool,
    pub control: bool,
    pub alt: bool,
    pub command: bool,
    /// Any other one.
    pub more: bool,
}

#[derive(Clone, Copy, Debug, PartialEq, Eq, Structural)]
pub struct KeyEvent {
    pub code: KeyCode,
    pub modifiers: KeyModifiers,
}

impl KeyModifiers {
    pub open spec fn none_held(self) -> bool {
        !self.shift && !self.control && !self.alt && !self.command && !self.more
    }

    /// Whether at most shift is held.
    pub open spec fn types_text(self) -> bool {
        !self.control && !self.alt && !self.command && !self.more
    }

    /// Whether no key is held.
    pub fn is_empty(&self) -> (r: bool)
        ensures
            r == self.none_held(),
    {
        !self.shift && !self.control && !self.alt && !self.command && !self.more
    }

    /// Whether a character pressed with these is text.
    pub fn is_text(&self) -> (r: bool)
        ensures
            r == self.types_text(),
    {
        !self.control && !self.alt && !self.command && !self.more
    }
}

pub open spec fn command_or_control(m: KeyModifiers) -> bool {
    m.control || m.command
}

/// Whether control or command is held.
pub fn key_has_command_or_control(modifiers: KeyModifiers) -> (r: bool)
    ensures
        r == command_or_control(modifiers),
{
    modifiers.control || modifiers.command
}

/// Whether a key that moves between rows is held.
pub fn key_has_navigation_modifier(modifiers: KeyModifiers) -> (r: bool)
    ensures
        r == (command_or_control(modifiers) || modifiers.alt),
{
    key_has_command_or_control(modifiers) || modifiers.alt
}

impl KeyEvent {
    /// A key pressed alone.
    pub fn plain(code: KeyCode) -> (r: KeyEvent)
        ensures
            r.code == code,
            r.modifiers.none_held(),
    {
        KeyEvent {
            code,
            modifiers: KeyModifiers {
                shift: false,
                control: false,
                alt: false,
                command: false,
                more: false,
            },
        }
    }

    /// A key pressed with control.
    pub fn with_control(code: KeyCode) -> (r: KeyEvent)
        ensures
            r.code == code,
            r.modifiers == (KeyModifiers {
                shift: false,
                control: true,
                alt: false,
                command: false,
                more: false,
            }),
    {
        KeyEvent {
            code,
            modifiers: KeyModifiers {
                shift: false,
                control: true,
                alt: false,
                command: false,
                more: false,
            },
        }
    }
}

} // verus!
