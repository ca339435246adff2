use crate::text::str_eq;
use std::sync::atomic::AtomicBool;
use std::sync::atomic::Ordering;
use vstd::prelude::*;

verus! {

/// A flag, shared between threads, that asks for the interface to be drawn
/// again.
pub struct NeedRepaint(AtomicBool);

impl Default for NeedRepaint {
    /// A new flag is raised, so that the first frame is drawn.
    fn default() -> (r: Self) {
        NeedRepaint(AtomicBool::new(true))
    }
}

impl NeedRepaint {
    /// Lowers the flag and returns whether it was raised.
    pub fn fetch_and_clear(&self) -> (r: bool) {
        self.0.swap(false, Ordering::SeqCst)
    }

    /// Raises the flag.
    pub fn set_true(&self) {
        self.0.store(true, Ordering::SeqCst);
    }
}

/// The keys that the interface reacts to.
#[derive(Clone, Copy, Debug, PartialEq, Eq, Structural)]
pub enum Key {
    ArrowDown,
    ArrowLeft,
    ArrowRight,
    ArrowUp,
    Escape,
    Tab,
    Backspace,
    Enter,
    Space,
    Insert,
    Delete,
    Home,
    End,
    PageUp,
    PageDown,
    Num0,
    Num1,
    Num2,
    Num3,
    Num4,
    Num5,
    Num6,
    Num7,
    Num8,
    Num9,
    A,
    B,
    C,
    D,
    E,
    F,
    G,
    H,
    I,
    J,
    K,
    L,
    M,
    N,
    O,
    P,
    Q,
    R,
    S,
    T,
    U,
    V,
    W,
    X,
    Y,
    Z,
}

/// The key that a browser names `s`, if the interface knows it.
pub open spec fn key_named(s: Seq<char>) -> Option<Key> {
    if s == "ArrowDown"@ {
        Some(Key::ArrowDown)
    } else
    if s == "ArrowLeft"@ {
        Some(Key::ArrowLeft)
    } else
    if s == "ArrowRight"@ {
        Some(Key::ArrowRight)
    } else
    if s == "ArrowUp"@ {
        Some(Key::ArrowUp)
    } else
    if s == "Esc"@ || s == "Escape"@ {
        Some(Key::Escape)
    } else
    if s == "Tab"@ {
        Some(Key::Tab)
    } else
    if s == "Backspace"@ {
        Some(Key::Backspace)
    } else
    if s == "Enter"@ {
        Some(Key::Enter)
    } else
    if s == "Space"@ {
        Some(Key::Space)
    } else
    if s == "Help"@ || s == "Insert"@ {
        Some(Key::Insert)
    } else
    if s == "Delete"@ {
        Some(Key::Delete)
    } else
    if s == "Home"@ {
        Some(Key::Home)
    } else
    if s == "End"@ {
        Some(Key::End)
    } else
    if s == "PageUp"@ {
        Some(Key::PageUp)
    } else
    if s == "PageDown"@ {
        Some(Key::PageDown)
    } else
    if s == "0"@ {
        Some(Key::Num0)
    } else
    if s == "1"@ {
        Some(Key::Num1)
    } else
    if s == "2"@ {
        Some(Key::Num2)
    } else
    if s == "3"@ {
        Some(Key::Num3)
    } else
    if s == "4"@ {
        Some(Key::Num4)
    } else
    if s == "5"@ {
        Some(Key::Num5)
    } else
    if s == "6"@ {
        Some(Key::Num6)
    } else
    if s == "7"@ {
        Some(Key::Num7)
    } else
    if s == "8"@ {
        Some(Key::Num8)
    } else
    if s == "9"@ {
        Some(Key::Num9)
    } else
    if s == "a"@ || s == "A"@ {
        Some(Key::A)
    } else
    if s == "b"@ || s == "B"@ {
        Some(Key::B)
    } else
    if s == "c"@ || s == "C"@ {
        Some(Key::C)
    } else
    if s == "d"@ || s == "D"@ {
        Some(Key::D)
    } else
    if s == "e"@ || s == "E"@ {
        Some(Key::E)
    } else
    if s == "f"@ || s == "F"@ {
        Some(Key::F)
    } else
    if s == "g"@ || s == "G"@ {
        Some(Key::G)
    } else
    if s == "h"@ || s == "H"@ {
        Some(Key::H)
    } else
    if s == "i"@ || s == "I"@ {
        Some(Key::I)
    } else
    if s == "j"@ || s == "J"@ {
        Some(Key::J)
    } else
    if s == "k"@ || s == "K"@ {
        Some(Key::K)
    } else
    if s == "l"@ || s == "L"@ {
        Some(Key::L)
    } else
    if s == "m"@ || s == "M"@ {
        Some(Key::M)
    } else
    if s == "n"@ || s == "N"@ {
        Some(Key::N)
    } else
    if s == "o"@ || s == "O"@ {
        Some(Key::O)
    } else
    if s == "p"@ || s == "P"@ {
        Some(Key::P)
    } else
    if s == "q"@ || s == "Q"@ {
        Some(Key::Q)
    } else
    if s == "r"@ || s == "R"@ {
        Some(Key::R)
    } else
    if s == "s"@ || s == "S"@ {
        Some(Key::S)
    } else
    if s == "t"@ || s == "T"@ {
        Some(Key::T)
    } else
    if s == "u"@ || s == "U"@ {
        Some(Key::U)
    } else
    if s == "v"@ || s == "V"@ {
        Some(Key::V)
    } else
    if s == "w"@ || s == "W"@ {
        Some(Key::W)
    } else
    if s == "x"@ || s == "X"@ {
        Some(Key::X)
    } else
    if s == "y"@ || s == "Y"@ {
        Some(Key::Y)
    } else
    if s == "z"@ || s == "Z"@ {
        Some(Key::Z)
    } else {
        None
    }
}

/// The key that a browser keyboard event names `key`, if the interface knows
/// it; `None` for a real text input or an unknown key.
pub fn translate_key(key: &str) -> (r: Option<Key>)
    ensures
        r == key_named(key@),
{
    if str_eq(key, "ArrowDown") {
        Some(Key::ArrowDown)
    } else
    if str_eq(key, "ArrowLeft") {
        Some(Key::ArrowLeft)
    } else
    if str_eq(key, "ArrowRight") {
        Some(Key::ArrowRight)
    } else
    if str_eq(key, "ArrowUp") {
        Some(Key::ArrowUp)
    } else
    if str_eq(key, "Esc") || str_eq(key, "Escape") {
        Some(Key::Escape)
    } else
    if str_eq(key, "Tab") {
        Some(Key::Tab)
    } else
    if str_eq(key, "Backspace") {
        Some(Key::Backspace)
    } else
    if str_eq(key, "Enter") {
        Some(Key::Enter)
    } else
    if str_eq(key, "Space") {
        Some(Key::Space)
    } else
    if str_eq(key, "Help") || str_eq(key, "Insert") {
        Some(Key::Insert)
    } else
    if str_eq(key, "Delete") {
        Some(Key::Delete)
    } else
    if str_eq(key, "Home") {
        Some(Key::Home)
    } else
    if str_eq(key, "End") {
        Some(Key::End)
    } else
    if str_eq(key, "PageUp") {
        Some(Key::PageUp)
    } else
    if str_eq(key, "PageDown") {
        Some(Key::PageDown)
    } else
    if str_eq(key, "0") {
        Some(Key::Num0)
    } else
    if str_eq(key, "1") {
        Some(Key::Num1)
    } else
    if str_eq(key, "2") {
        Some(Key::Num2)
    } else
    if str_eq(key, "3") {
        Some(Key::Num3)
    } else
    if str_eq(key, "4") {
        Some(Key::Num4)
    } else
    if str_eq(key, "5") {
        Some(Key::Num5)
    } else
    if str_eq(key, "6") {
        Some(Key::Num6)
    } else
    if str_eq(key, "7") {
        Some(Key::Num7)
    } else
    if str_eq(key, "8") {
        Some(Key::Num8)
    } else
    if str_eq(key, "9") {
        Some(Key::Num9)
    } else
    if str_eq(key, "a") || str_eq(key, "A") {
        Some(Key::A)
    } else
    if str_eq(key, "b") || str_eq(key, "B") {
        Some(Key::B)
    } else
    if str_eq(key, "c") || str_eq(key, "C") {
        Some(Key::C)
    } else
    if str_eq(key, "d") || str_eq(key, "D") {
        Some(Key::D)
    } else
    if str_eq(key, "e") || str_eq(key, "E") {
        Some(Key::E)
    } else
    if str_eq(key, "f") || str_eq(key, "F") {
        Some(Key::F)
    } else
    if str_eq(key, "g") || str_eq(key, "G") {
        Some(Key::G)
    } else
    if str_eq(key, "h") || str_eq(key, "H") {
        Some(Key::H)
    } else
    if str_eq(key, "i") || str_eq(key, "I") {
        Some(Key::I)
    } else
    if str_eq(key, "j") || str_eq(key, "J") {
        Some(Key::J)
    } else
    if str_eq(key, "k") || str_eq(key, "K") {
        Some(Key::K)
    } else
    if str_eq(key, "l") || str_eq(key, "L") {
        Some(Key::L)
    } else
    if str_eq(key, "m") || str_eq(key, "M") {
        Some(Key::M)
    } else
    if str_eq(key, "n") || str_eq(key, "N") {
        Some(Key::N)
    } else
    if str_eq(key, "o") || str_eq(key, "O") {
        Some(Key::O)
    } else
    if str_eq(key, "p") || str_eq(key, "P") {
        Some(Key::P)
    } else
    if str_eq(key, "q") || str_eq(key, "Q") {
        Some(Key::Q)
    } else
    if str_eq(key, "r") || str_eq(key, "R") {
        Some(Key::R)
    } else
    if str_eq(key, "s") || str_eq(key, "S") {
        Some(Key::S)
    } else
    if str_eq(key, "t") || str_eq(key, "T") {
        Some(Key::T)
    } else
    if str_eq(key, "u") || str_eq(key, "U") {
        Some(Key::U)
    } else
    if str_eq(key, "v") || str_eq(key, "V") {
        Some(Key::V)
    } else
    if str_eq(key, "w") || str_eq(key, "W") {
        Some(Key::W)
    } else
    if str_eq(key, "x") || str_eq(key, "X") {
        Some(Key::X)
    } else
    if str_eq(key, "y") || str_eq(key, "Y") {
        Some(Key::Y)
    } else
    if str_eq(key, "z") || str_eq(key, "Z") {
        Some(Key::Z)
    } else {
        None
    }
}

/// The mouse cursors that the interface asks for.
#[derive(Clone, Copy, Debug, PartialEq, Eq, Structural)]
pub enum CursorIcon {
    Default,
    PointingHand,
    ResizeHorizontal,
    ResizeNeSw,
    ResizeNwSe,
    ResizeVertical,
    Text,
    Grab,
    Grabbing,
}

/// The name that CSS gives to a cursor.
pub open spec fn css_cursor_name(cursor: CursorIcon) -> Seq<char> {
    match cursor {
        CursorIcon::Default => "default"@,
        CursorIcon::PointingHand => "pointer"@,
        CursorIcon::ResizeHorizontal => "ew-resize"@,
        CursorIcon::ResizeNeSw => "nesw-resize"@,
        CursorIcon::ResizeNwSe => "nwse-resize"@,
        CursorIcon::ResizeVertical => "ns-resize"@,
        CursorIcon::Text => "text"@,
        CursorIcon::Grab => "grab"@,
        CursorIcon::Grabbing => "grabbing"@,
    }
}

/// The CSS name of `cursor`.
pub fn cursor_web_name(cursor: CursorIcon) -> (r: &'static str)
    ensures
        r@ == css_cursor_name(cursor),
{
    match cursor {
        CursorIcon::Default => "default",
        CursorIcon::PointingHand => "pointer",
        CursorIcon::ResizeHorizontal => "ew-resize",
        CursorIcon::ResizeNeSw => "nesw-resize",
        CursorIcon::ResizeNwSe => "nwse-resize",
        CursorIcon::ResizeVertical => "ns-resize",
        CursorIcon::Text => "text",
        CursorIcon::Grab => "grab",
        CursorIcon::Grabbing => "grabbing",
    }
}

} // verus!
