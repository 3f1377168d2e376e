//! The two modes of the terminal client, and what a key press means in each.

use vstd::prelude::*;

verus! {

/// Whether key presses write into the input line or steer the client.
#[derive(PartialEq, Eq, Clone, Copy, Debug, Structural)]
pub enum Mode {
    InsertMode,
    NormalMode,
}

/// A key press, as far as the client tells keys apart.
#[derive(PartialEq, Eq, Clone, Copy, Debug, Structural)]
pub enum Key {
    Esc,
    Enter,
    Char(char),
    /// Any other key.
    Other,
}

/// What the client does on a key press.
#[derive(PartialEq, Eq, Clone, Copy, Debug, Structural)]
pub enum KeyAction {
    /// Go over to the other mode.
    SwitchMode,
    /// Send what the input line holds.
    SendMessage,
    /// Leave the client.
    Quit,
    /// Hand the key to the input line.
    Edit,
    /// Nothing.
    Ignore,
}

impl Mode {
    /// The other mode.
    pub open spec fn switched_spec(self) -> Mode {
        match self {
            Mode::InsertMode => Mode::NormalMode,
            Mode::NormalMode => Mode::InsertMode,
        }
    }

    /// The label of the mode, as the input line shows it.
    pub fn label(self) -> (r: &'static str)
        ensures
            r@ == match self {
                Mode::InsertMode => " INSERT "@,
                Mode::NormalMode => " NORMAL "@,
            },
    {
        match self {
            Mode::InsertMode => " INSERT ",
            Mode::NormalMode => " NORMAL ",
        }
    }

    /// The other mode.
    #[verifier::when_used_as_spec(switched_spec)]
    pub fn switched(self) -> (r: Mode)
        ensures
            r == self.switched_spec(),
    {
        match self {
            Mode::InsertMode => Mode::NormalMode,
            Mode::NormalMode => Mode::InsertMode,
        }
    }
}

/// What `key` means in `mode`. Escape switches the mode and Enter sends, in
/// either mode. In normal mode `a` switches to insert mode, `q` quits, and
/// every other key is ignored. In insert mode every other key goes to the
/// input line.
pub open spec fn key_action_spec(mode: Mode, key: Key) -> KeyAction {
    if key == Key::Esc {
        KeyAction::SwitchMode
    } else if key == Key::Enter {
        KeyAction::SendMessage
    } else if mode == Mode::NormalMode {
        if key == Key::Char('a') {
            KeyAction::SwitchMode
        } else if key == Key::Char('q') {
            KeyAction::Quit
        } else {
            KeyAction::Ignore
        }
    } else {
        KeyAction::Edit
    }
}

/// What the client does on `key` in `mode`.
pub fn key_action(mode: Mode, key: Key) -> (r: KeyAction)
    ensures
        r == key_action_spec(mode, key),
{
    match key {
        Key::Esc => KeyAction::SwitchMode,
        Key::Enter => KeyAction::SendMessage,
        Key::Char(c) => {
            if mode == Mode::NormalMode {
                if c == 'a' {
                    KeyAction::SwitchMode
                } else if c == 'q' {
                    KeyAction::Quit
                } else {
                    KeyAction::Ignore
                }
            } else {
                KeyAction::Edit
            }
        },
        Key::Other => {
            if mode == Mode::NormalMode {
                KeyAction::Ignore
            } else {
                KeyAction::Edit
            }
        },
    }
}

/// Switching the mode twice gives the mode back.
pub proof fn lemma_switched_twice(mode: Mode)
    ensures
        mode.switched().switched() == mode,
{
}

} // verus!
