use vstd::prelude::*;

verus! {

/// The internal key-type enumeration that platform virtual-key codes are
/// decoded into. Codes with no mapping decode to `Unknown`.
#[derive(Clone, Copy, Debug, PartialEq, Eq, Structural)]
pub enum KeyType {
    Unknown,
    BackSpace,
    Tab,
    Clear,
    Enter,
    LeftShift,
    RightShift,
    LeftControl,
    RightControl,
    LeftAlt,
    Pause,
    CapsLock,
    Kana,
    Escape,
    Space,
    PageUp,
    PageDown,
    End,
    Home,
    Left,
    Up,
    Right,
    Down,
    PrintScreen,
    Insert,
    Delete,
    Help,
    Windows,
    Multiply,
    Add,
    Separator,
    Subtract,
    Decimal,
    Divide,
    NumLock,
    ScrollLock,
    N0,
    N1,
    N2,
    N3,
    N4,
    N5,
    N6,
    N7,
    N8,
    N9,
    A,
    B,
    C,
    D,
    E,
    F,
    G,
    H,
    I,
    J,
    K,
    L,
    M,
    N,
    O,
    P,
    Q,
    R,
    S,
    T,
    U,
    V,
    W,
    X,
    Y,
    Z,
    Numpad0,
    Numpad1,
    Numpad2,
    Numpad3,
    Numpad4,
    Numpad5,
    Numpad6,
    Numpad7,
    Numpad8,
    Numpad9,
    F1,
    F2,
    F3,
    F4,
    F5,
    F6,
    F7,
    F8,
    F9,
    F10,
    F11,
    F12,
    F13,
    F14,
    F15,
    F16,
    F17,
    F18,
    F19,
    F20,
    F21,
    F22,
    F23,
    F24,
}

/// The key-symbol table as a mathematical function: which internal key a
/// platform virtual-key code stands for. Unmapped and reserved codes map
/// to `Unknown`.
pub open spec fn key_of_vk(vk: u64) -> KeyType {
    match vk {
            0x08 => KeyType::BackSpace,
            0x09 => KeyType::Tab,
            0x0C => KeyType::Clear,
            0x0D => KeyType::Enter,
            0x10 => KeyType::LeftShift,
            0x11 => KeyType::LeftControl,
            0x12 => KeyType::LeftAlt,
            0x13 => KeyType::Pause,
            0x14 => KeyType::CapsLock,
            0x15 => KeyType::Kana,
            0x1B => KeyType::Escape,
            0x20 => KeyType::Space,
            0x21 => KeyType::PageUp,
            0x22 => KeyType::PageDown,
            0x23 => KeyType::End,
            0x24 => KeyType::Home,
            0x25 => KeyType::Left,
            0x26 => KeyType::Up,
            0x27 => KeyType::Right,
            0x28 => KeyType::Down,
            0x2C => KeyType::PrintScreen,
            0x2D => KeyType::Insert,
            0x2E => KeyType::Delete,
            0x2F => KeyType::Help,
            0x30 => KeyType::N0,
            0x31 => KeyType::N1,
            0x32 => KeyType::N2,
            0x33 => KeyType::N3,
            0x34 => KeyType::N4,
            0x35 => KeyType::N5,
            0x36 => KeyType::N6,
            0x37 => KeyType::N7,
            0x38 => KeyType::N8,
            0x39 => KeyType::N9,
            0x41 => KeyType::A,
            0x42 => KeyType::B,
            0x43 => KeyType::C,
            0x44 => KeyType::D,
            0x45 => KeyType::E,
            0x46 => KeyType::F,
            0x47 => KeyType::G,
            0x48 => KeyType::H,
            0x49 => KeyType::I,
            0x4A => KeyType::J,
            0x4B => KeyType::K,
            0x4C => KeyType::L,
            0x4D => KeyType::M,
            0x4E => KeyType::N,
            0x4F => KeyType::O,
            0x50 => KeyType::P,
            0x51 => KeyType::Q,
            0x52 => KeyType::R,
            0x53 => KeyType::S,
            0x54 => KeyType::T,
            0x55 => KeyType::U,
            0x56 => KeyType::V,
            0x57 => KeyType::W,
            0x58 => KeyType::X,
            0x59 => KeyType::Y,
            0x5A => KeyType::Z,
            0x5B => KeyType::Windows,
            0x5C => KeyType::Windows,
            0x60 => KeyType::Numpad0,
            0x61 => KeyType::Numpad1,
            0x62 => KeyType::Numpad2,
            0x63 => KeyType::Numpad3,
            0x64 => KeyType::Numpad4,
            0x65 => KeyType::Numpad5,
            0x66 => KeyType::Numpad6,
            0x67 => KeyType::Numpad7,
            0x68 => KeyType::Numpad8,
            0x69 => KeyType::Numpad9,
            0x6A => KeyType::Multiply,
            0x6B => KeyType::Add,
            0x6C => KeyType::Separator,
            0x6D => KeyType::Subtract,
            0x6E => KeyType::Decimal,
            0x6F => KeyType::Divide,
            0x70 => KeyType::F1,
            0x71 => KeyType::F2,
            0x72 => KeyType::F3,
            0x73 => KeyType::F4,
            0x74 => KeyType::F5,
            0x75 => KeyType::F6,
            0x76 => KeyType::F7,
            0x77 => KeyType::F8,
            0x78 => KeyType::F9,
            0x79 => KeyType::F10,
            0x7A => KeyType::F11,
            0x7B => KeyType::F12,
            0x7C => KeyType::F13,
            0x7D => KeyType::F14,
            0x7E => KeyType::F15,
            0x7F => KeyType::F16,
            0x80 => KeyType::F17,
            0x81 => KeyType::F18,
            0x82 => KeyType::F19,
            0x83 => KeyType::F20,
            0x84 => KeyType::F21,
            0x85 => KeyType::F22,
            0x86 => KeyType::F23,
            0x87 => KeyType::F24,
            0x90 => KeyType::NumLock,
            0x91 => KeyType::ScrollLock,
            0xA0 => KeyType::LeftShift,
            0xA1 => KeyType::RightShift,
            0xA2 => KeyType::LeftControl,
            0xA3 => KeyType::RightControl,
        _ => KeyType::Unknown,
    }
}

impl KeyType {
    /// Decode a platform virtual-key code through the key-symbol table.
    pub fn from_vk(vk: u64) -> (r: KeyType)
        ensures
            r == key_of_vk(vk),
    {
        match vk {
            0x08 => KeyType::BackSpace,
            0x09 => KeyType::Tab,
            0x0C => KeyType::Clear,
            0x0D => KeyType::Enter,
            0x10 => KeyType::LeftShift,
            0x11 => KeyType::LeftControl,
            0x12 => KeyType::LeftAlt,
            0x13 => KeyType::Pause,
            0x14 => KeyType::CapsLock,
            0x15 => KeyType::Kana,
            0x1B => KeyType::Escape,
            0x20 => KeyType::Space,
            0x21 => KeyType::PageUp,
            0x22 => KeyType::PageDown,
            0x23 => KeyType::End,
            0x24 => KeyType::Home,
            0x25 => KeyType::Left,
            0x26 => KeyType::Up,
            0x27 => KeyType::Right,
            0x28 => KeyType::Down,
            0x2C => KeyType::PrintScreen,
            0x2D => KeyType::Insert,
            0x2E => KeyType::Delete,
            0x2F => KeyType::Help,
            0x30 => KeyType::N0,
            0x31 => KeyType::N1,
            0x32 => KeyType::N2,
            0x33 => KeyType::N3,
            0x34 => KeyType::N4,
            0x35 => KeyType::N5,
            0x36 => KeyType::N6,
            0x37 => KeyType::N7,
            0x38 => KeyType::N8,
            0x39 => KeyType::N9,
            0x41 => KeyType::A,
            0x42 => KeyType::B,
            0x43 => KeyType::C,
            0x44 => KeyType::D,
            0x45 => KeyType::E,
            0x46 => KeyType::F,
            0x47 => KeyType::G,
            0x48 => KeyType::H,
            0x49 => KeyType::I,
            0x4A => KeyType::J,
            0x4B => KeyType::K,
            0x4C => KeyType::L,
            0x4D => KeyType::M,
            0x4E => KeyType::N,
            0x4F => KeyType::O,
            0x50 => KeyType::P,
            0x51 => KeyType::Q,
            0x52 => KeyType::R,
            0x53 => KeyType::S,
            0x54 => KeyType::T,
            0x55 => KeyType::U,
            0x56 => KeyType::V,
            0x57 => KeyType::W,
            0x58 => KeyType::X,
            0x59 => KeyType::Y,
            0x5A => KeyType::Z,
            0x5B => KeyType::Windows,
            0x5C => KeyType::Windows,
            0x60 => KeyType::Numpad0,
            0x61 => KeyType::Numpad1,
            0x62 => KeyType::Numpad2,
            0x63 => KeyType::Numpad3,
            0x64 => KeyType::Numpad4,
            0x65 => KeyType::Numpad5,
            0x66 => KeyType::Numpad6,
            0x67 => KeyType::Numpad7,
            0x68 => KeyType::Numpad8,
            0x69 => KeyType::Numpad9,
            0x6A => KeyType::Multiply,
            0x6B => KeyType::Add,
            0x6C => KeyType::Separator,
            0x6D => KeyType::Subtract,
            0x6E => KeyType::Decimal,
            0x6F => KeyType::Divide,
            0x70 => KeyType::F1,
            0x71 => KeyType::F2,
            0x72 => KeyType::F3,
            0x73 => KeyType::F4,
            0x74 => KeyType::F5,
            0x75 => KeyType::F6,
            0x76 => KeyType::F7,
            0x77 => KeyType::F8,
            0x78 => KeyType::F9,
            0x79 => KeyType::F10,
            0x7A => KeyType::F11,
            0x7B => KeyType::F12,
            0x7C => KeyType::F13,
            0x7D => KeyType::F14,
            0x7E => KeyType::F15,
            0x7F => KeyType::F16,
            0x80 => KeyType::F17,
            0x81 => KeyType::F18,
            0x82 => KeyType::F19,
            0x83 => KeyType::F20,
            0x84 => KeyType::F21,
            0x85 => KeyType::F22,
            0x86 => KeyType::F23,
            0x87 => KeyType::F24,
            0x90 => KeyType::NumLock,
            0x91 => KeyType::ScrollLock,
            0xA0 => KeyType::LeftShift,
            0xA1 => KeyType::RightShift,
            0xA2 => KeyType::LeftControl,
            0xA3 => KeyType::RightControl,
            _ => KeyType::Unknown,
        }
    }
}

} // verus!
