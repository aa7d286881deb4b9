//! The global-hotkey setting: modifiers and a key named in the
//! configuration.

use vstd::prelude::*;
use crate::config::HotkeyConfig;
use crate::text::{chars_of, lower_of, lowercase};

verus! {

/// A key that can serve as the global hotkey.
#[derive(Debug, Clone, Copy, PartialEq, Eq)]
pub enum KeyCode {
    KeyA,
    KeyB,
    KeyC,
    KeyD,
    KeyE,
    KeyF,
    KeyG,
    KeyH,
    KeyI,
    KeyJ,
    KeyK,
    KeyL,
    KeyM,
    KeyN,
    KeyO,
    KeyP,
    KeyQ,
    KeyR,
    KeyS,
    KeyT,
    KeyU,
    KeyV,
    KeyW,
    KeyX,
    KeyY,
    KeyZ,
    Digit0,
    Digit1,
    Digit2,
    Digit3,
    Digit4,
    Digit5,
    Digit6,
    Digit7,
    Digit8,
    Digit9,
    Space,
    Enter,
    Escape,
    Tab,
    Backspace,
    Delete,
    Insert,
    Home,
    End,
    PageUp,
    PageDown,
    ArrowUp,
    ArrowDown,
    ArrowLeft,
    ArrowRight,
    F1,
    F2,
    F3,
    F4,
    F5,
    F6,
    F7,
    F8,
    F9,
    F10,
    F11,
    F12,
}

/// The key that a lower-case key name stands for.
pub open spec fn code_named(name: Seq<char>) -> Option<KeyCode> {
    if name == "a"@ {
        Some(KeyCode::KeyA)
    } else if name == "b"@ {
        Some(KeyCode::KeyB)
    } else if name == "c"@ {
        Some(KeyCode::KeyC)
    } else if name == "d"@ {
        Some(KeyCode::KeyD)
    } else if name == "e"@ {
        Some(KeyCode::KeyE)
    } else if name == "f"@ {
        Some(KeyCode::KeyF)
    } else if name == "g"@ {
        Some(KeyCode::KeyG)
    } else if name == "h"@ {
        Some(KeyCode::KeyH)
    } else if name == "i"@ {
        Some(KeyCode::KeyI)
    } else if name == "j"@ {
        Some(KeyCode::KeyJ)
    } else if name == "k"@ {
        Some(KeyCode::KeyK)
    } else if name == "l"@ {
        Some(KeyCode::KeyL)
    } else if name == "m"@ {
        Some(KeyCode::KeyM)
    } else if name == "n"@ {
        Some(KeyCode::KeyN)
    } else if name == "o"@ {
        Some(KeyCode::KeyO)
    } else if name == "p"@ {
        Some(KeyCode::KeyP)
    } else if name == "q"@ {
        Some(KeyCode::KeyQ)
    } else if name == "r"@ {
        Some(KeyCode::KeyR)
    } else if name == "s"@ {
        Some(KeyCode::KeyS)
    } else if name == "t"@ {
        Some(KeyCode::KeyT)
    } else if name == "u"@ {
        Some(KeyCode::KeyU)
    } else if name == "v"@ {
        Some(KeyCode::KeyV)
    } else if name == "w"@ {
        Some(KeyCode::KeyW)
    } else if name == "x"@ {
        Some(KeyCode::KeyX)
    } else if name == "y"@ {
        Some(KeyCode::KeyY)
    } else if name == "z"@ {
        Some(KeyCode::KeyZ)
    } else if name == "0"@ {
        Some(KeyCode::Digit0)
    } else if name == "1"@ {
        Some(KeyCode::Digit1)
    } else if name == "2"@ {
        Some(KeyCode::Digit2)
    } else if name == "3"@ {
        Some(KeyCode::Digit3)
    } else if name == "4"@ {
        Some(KeyCode::Digit4)
    } else if name == "5"@ {
        Some(KeyCode::Digit5)
    } else if name == "6"@ {
        Some(KeyCode::Digit6)
    } else if name == "7"@ {
        Some(KeyCode::Digit7)
    } else if name == "8"@ {
        Some(KeyCode::Digit8)
    } else if name == "9"@ {
        Some(KeyCode::Digit9)
    } else if name == "space"@ {
        Some(KeyCode::Space)
    } else if name == "enter"@ {
        Some(KeyCode::Enter)
    } else if name == "escape"@ {
        Some(KeyCode::Escape)
    } else if name == "tab"@ {
        Some(KeyCode::Tab)
    } else if name == "backspace"@ {
        Some(KeyCode::Backspace)
    } else if name == "delete"@ {
        Some(KeyCode::Delete)
    } else if name == "insert"@ {
        Some(KeyCode::Insert)
    } else if name == "home"@ {
        Some(KeyCode::Home)
    } else if name == "end"@ {
        Some(KeyCode::End)
    } else if name == "pageup"@ {
        Some(KeyCode::PageUp)
    } else if name == "pagedown"@ {
        Some(KeyCode::PageDown)
    } else if name == "arrowup"@ {
        Some(KeyCode::ArrowUp)
    } else if name == "arrowdown"@ {
        Some(KeyCode::ArrowDown)
    } else if name == "arrowleft"@ {
        Some(KeyCode::ArrowLeft)
    } else if name == "arrowright"@ {
        Some(KeyCode::ArrowRight)
    } else if name == "f1"@ {
        Some(KeyCode::F1)
    } else if name == "f2"@ {
        Some(KeyCode::F2)
    } else if name == "f3"@ {
        Some(KeyCode::F3)
    } else if name == "f4"@ {
        Some(KeyCode::F4)
    } else if name == "f5"@ {
        Some(KeyCode::F5)
    } else if name == "f6"@ {
        Some(KeyCode::F6)
    } else if name == "f7"@ {
        Some(KeyCode::F7)
    } else if name == "f8"@ {
        Some(KeyCode::F8)
    } else if name == "f9"@ {
        Some(KeyCode::F9)
    } else if name == "f10"@ {
        Some(KeyCode::F10)
    } else if name == "f11"@ {
        Some(KeyCode::F11)
    } else if name == "f12"@ {
        Some(KeyCode::F12)
    } else {
        None
    }
}

/// A parsed hotkey.
#[derive(Debug, Clone, Copy, PartialEq, Eq)]
pub struct Hotkey {
    pub ctrl: bool,
    pub alt: bool,
    pub shift: bool,
    pub code: KeyCode,
}

impl Hotkey {
    /// No modifier is held.
    pub fn has_no_modifiers(&self) -> (r: bool)
        ensures
            r == (!self.ctrl && !self.alt && !self.shift),
    {
        !self.ctrl && !self.alt && !self.shift
    }
}

/// Why a hotkey setting was refused.
#[derive(Debug, Clone, PartialEq, Eq)]
pub enum HotkeyError {
    /// The key name is not one of the supported names; it is kept as given.
    UnsupportedKey(String),
}

impl HotkeyError {
    /// A message for the user.
    pub fn message(&self) -> (r: String)
        ensures
            match self {
                HotkeyError::UnsupportedKey(k) => r@ == "Unsupported key: "@ + k@,
            },
    {
        match self {
            HotkeyError::UnsupportedKey(k) => {
                let mut m = String::from_str("Unsupported key: ");
                m.append(k.as_str());
                m
            },
        }
    }
}

/// Whether `a` and `b` hold the same characters.
pub fn same_text(a: &str, b: &str) -> (r: bool)
    ensures
        r == (a@ == b@),
{
    let x = chars_of(a);
    let y = chars_of(b);
    if x.len() != y.len() {
        return false;
    }
    let mut i: usize = 0;
    while i < x.len()
        invariant
            x@ == a@,
            y@ == b@,
            x@.len() == y@.len(),
            i <= x@.len(),
            forall|k: int| 0 <= k < i ==> x@[k] == y@[k],
        decreases x@.len() - i,
    {
        if x[i] != y[i] {
            return false;
        }
        i = i + 1;
    }
    assert(x@ =~= y@);
    true
}

/// The key that the lower-case key name `name` stands for.
pub fn key_code(name: &str) -> (r: Option<KeyCode>)
    ensures
        r == code_named(name@),
{
    if same_text(name, "a") {
        Some(KeyCode::KeyA)
    } else if same_text(name, "b") {
        Some(KeyCode::KeyB)
    } else if same_text(name, "c") {
        Some(KeyCode::KeyC)
    } else if same_text(name, "d") {
        Some(KeyCode::KeyD)
    } else if same_text(name, "e") {
        Some(KeyCode::KeyE)
    } else if same_text(name, "f") {
        Some(KeyCode::KeyF)
    } else if same_text(name, "g") {
        Some(KeyCode::KeyG)
    } else if same_text(name, "h") {
        Some(KeyCode::KeyH)
    } else if same_text(name, "i") {
        Some(KeyCode::KeyI)
    } else if same_text(name, "j") {
        Some(KeyCode::KeyJ)
    } else if same_text(name, "k") {
        Some(KeyCode::KeyK)
    } else if same_text(name, "l") {
        Some(KeyCode::KeyL)
    } else if same_text(name, "m") {
        Some(KeyCode::KeyM)
    } else if same_text(name, "n") {
        Some(KeyCode::KeyN)
    } else if same_text(name, "o") {
        Some(KeyCode::KeyO)
    } else if same_text(name, "p") {
        Some(KeyCode::KeyP)
    } else if same_text(name, "q") {
        Some(KeyCode::KeyQ)
    } else if same_text(name, "r") {
        Some(KeyCode::KeyR)
    } else if same_text(name, "s") {
        Some(KeyCode::KeyS)
    } else if same_text(name, "t") {
        Some(KeyCode::KeyT)
    } else if same_text(name, "u") {
        Some(KeyCode::KeyU)
    } else if same_text(name, "v") {
        Some(KeyCode::KeyV)
    } else if same_text(name, "w") {
        Some(KeyCode::KeyW)
    } else if same_text(name, "x") {
        Some(KeyCode::KeyX)
    } else if same_text(name, "y") {
        Some(KeyCode::KeyY)
    } else if same_text(name, "z") {
        Some(KeyCode::KeyZ)
    } else if same_text(name, "0") {
        Some(KeyCode::Digit0)
    } else if same_text(name, "1") {
        Some(KeyCode::Digit1)
    } else if same_text(name, "2") {
        Some(KeyCode::Digit2)
    } else if same_text(name, "3") {
        Some(KeyCode::Digit3)
    } else if same_text(name, "4") {
        Some(KeyCode::Digit4)
    } else if same_text(name, "5") {
        Some(KeyCode::Digit5)
    } else if same_text(name, "6") {
        Some(KeyCode::Digit6)
    } else if same_text(name, "7") {
        Some(KeyCode::Digit7)
    } else if same_text(name, "8") {
        Some(KeyCode::Digit8)
    } else if same_text(name, "9") {
        Some(KeyCode::Digit9)
    } else if same_text(name, "space") {
        Some(KeyCode::Space)
    } else if same_text(name, "enter") {
        Some(KeyCode::Enter)
    } else if same_text(name, "escape") {
        Some(KeyCode::Escape)
    } else if same_text(name, "tab") {
        Some(KeyCode::Tab)
    } else if same_text(name, "backspace") {
        Some(KeyCode::Backspace)
    } else if same_text(name, "delete") {
        Some(KeyCode::Delete)
    } else if same_text(name, "insert") {
        Some(KeyCode::Insert)
    } else if same_text(name, "home") {
        Some(KeyCode::Home)
    } else if same_text(name, "end") {
        Some(KeyCode::End)
    } else if same_text(name, "pageup") {
        Some(KeyCode::PageUp)
    } else if same_text(name, "pagedown") {
        Some(KeyCode::PageDown)
    } else if same_text(name, "arrowup") {
        Some(KeyCode::ArrowUp)
    } else if same_text(name, "arrowdown") {
        Some(KeyCode::ArrowDown)
    } else if same_text(name, "arrowleft") {
        Some(KeyCode::ArrowLeft)
    } else if same_text(name, "arrowright") {
        Some(KeyCode::ArrowRight)
    } else if same_text(name, "f1") {
        Some(KeyCode::F1)
    } else if same_text(name, "f2") {
        Some(KeyCode::F2)
    } else if same_text(name, "f3") {
        Some(KeyCode::F3)
    } else if same_text(name, "f4") {
        Some(KeyCode::F4)
    } else if same_text(name, "f5") {
        Some(KeyCode::F5)
    } else if same_text(name, "f6") {
        Some(KeyCode::F6)
    } else if same_text(name, "f7") {
        Some(KeyCode::F7)
    } else if same_text(name, "f8") {
        Some(KeyCode::F8)
    } else if same_text(name, "f9") {
        Some(KeyCode::F9)
    } else if same_text(name, "f10") {
        Some(KeyCode::F10)
    } else if same_text(name, "f11") {
        Some(KeyCode::F11)
    } else if same_text(name, "f12") {
        Some(KeyCode::F12)
    } else {
        None
    }
}

/// Parses the hotkey setting: the modifiers as given, and the key named
/// (ignoring case) in `config.key`.
pub fn parse_hotkey_config(config: &HotkeyConfig) -> (r: Result<Hotkey, HotkeyError>)
    ensures
        match code_named(lower_of(config.key@)) {
            Some(code) => r == Ok::<Hotkey, HotkeyError>(
                Hotkey { ctrl: config.ctrl, alt: config.alt, shift: config.shift, code },
            ),
            None => r matches Err(HotkeyError::UnsupportedKey(k)) && k@ == config.key@,
        },
{
    let name = lowercase(config.key.as_str());
    match key_code(name.as_str()) {
        Some(code) => Ok(Hotkey { ctrl: config.ctrl, alt: config.alt, shift: config.shift, code }),
        None => Err(HotkeyError::UnsupportedKey(config.key.clone())),
    }
}

} // verus!
