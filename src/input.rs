use crate::messages::Command;
use vstd::prelude::*;

verus! {

/// A physical key, independent of the keyboard layout.
#[derive(Clone, Copy, Debug, PartialEq, Eq, Structural)]
pub enum Key {
    A,
    Accept,
    Add,
    Alt,
    Apostrophe,
    Apps,
    Attention,
    B,
    Backslash,
    Backspace,
    Backtick,
    BrowserBack,
    BrowserFavorites,
    BrowserForward,
    BrowserHome,
    BrowserRefresh,
    BrowserSearch,
    BrowserStop,
    C,
    Cancel,
    Capital,
    Clear,
    Comma,
    Control,
    Convert,
    CursorSelect,
    D,
    Decimal,
    Delete,
    Divide,
    Down,
    E,
    End,
    EraseEof,
    Escape,
    Execute,
    ExtendSelect,
    F,
    F1,
    F10,
    F11,
    F12,
    F13,
    F14,
    F15,
    F16,
    F17,
    F18,
    F19,
    F2,
    F20,
    F21,
    F22,
    F23,
    F24,
    F3,
    F4,
    F5,
    F6,
    F7,
    F8,
    F9,
    Final,
    G,
    H,
    Hangul,
    Hanja,
    Hash,
    Help,
    Home,
    I,
    ImeOff,
    ImeOn,
    Insert,
    J,
    Junja,
    K,
    Kana,
    Kanji,
    Key0,
    Key1,
    Key2,
    Key3,
    Key4,
    Key5,
    Key6,
    Key7,
    Key8,
    Key9,
    L,
    LBracket,
    LaunchApp1,
    LaunchApp2,
    LaunchMail,
    LaunchMediaSelect,
    Left,
    LeftAlt,
    LeftControl,
    LeftShift,
    LeftWin,
    M,
    MediaNextTrack,
    MediaPlayPause,
    MediaPrevTrack,
    MediaStop,
    Minus,
    ModeChange,
    Mouse4,
    Mouse5,
    MouseLeft,
    MouseMiddle,
    MouseRight,
    Multiply,
    N,
    Next,
    NonConvert,
    NumLock,
    Numpad0,
    Numpad1,
    Numpad2,
    Numpad3,
    Numpad4,
    Numpad5,
    Numpad6,
    Numpad7,
    Numpad8,
    Numpad9,
    O,
    OemClear,
    P,
    Pa1,
    Packet,
    Pause,
    Period,
    Play,
    Plus,
    Print,
    Prior,
    Process,
    Q,
    R,
    RBracket,
    Return,
    Right,
    RightAlt,
    RightControl,
    RightShift,
    RightWin,
    S,
    ScrollLock,
    Select,
    Semicolon,
    Separator,
    Shift,
    Slash,
    Sleep,
    Snapshot,
    Space,
    Subtract,
    T,
    Tab,
    U,
    Unknown,
    Up,
    V,
    VolumeDown,
    VolumeMute,
    VolumeUp,
    W,
    X,
    Y,
    Z,
    Zoom,
}

#[derive(Clone, Copy, Debug, PartialEq, Eq, Structural)]
pub enum KeyState {
    Press,
    Release,
}

pub const CONTROL_BIT: u8 = 1;
pub const ALT_BIT: u8 = 2;
pub const SHIFT_BIT: u8 = 4;

/// Modifier keys held during a key event, as a set of bits.
#[derive(Clone, Copy, Debug, PartialEq, Eq, Structural)]
pub struct Modifiers {
    pub bits: u8,
}

impl Modifiers {
    pub fn control() -> (r: Modifiers)
        ensures
            r.bits == CONTROL_BIT,
    {
        Modifiers { bits: CONTROL_BIT }
    }

    pub fn alt() -> (r: Modifiers)
        ensures
            r.bits == ALT_BIT,
    {
        Modifiers { bits: ALT_BIT }
    }

    pub fn shift() -> (r: Modifiers)
        ensures
            r.bits == SHIFT_BIT,
    {
        Modifiers { bits: SHIFT_BIT }
    }

    pub fn empty() -> (r: Modifiers)
        ensures
            r.bits == 0,
    {
        Modifiers { bits: 0 }
    }

    /// Adds the modifiers of `other`.
    pub fn insert(&mut self, other: Modifiers)
        ensures
            final(self).bits == old(self).bits | other.bits,
    {
        self.bits = self.bits | other.bits;
    }

    pub fn is_empty(&self) -> (r: bool)
        ensures
            r == (self.bits == 0),
    {
        self.bits == 0
    }
}

/// A key going down or up, with the character it types, if any.
#[derive(Clone, Copy, Debug, PartialEq, Eq, Structural)]
pub struct KeyEvent {
    pub state: KeyState,
    pub key: Key,
    pub translated: Option<char>,
    pub mods: Modifiers,
    pub repeat: bool,
}

#[derive(Clone, Copy, Debug, PartialEq, Eq, Structural)]
pub enum Mode {
    Normal,
    Insert,
}

/// Turns key events into editing commands. In normal mode d, f, j and k
/// move the cursor and l enters insert mode; in insert mode Escape returns
/// to normal mode and a typed character is inserted.
pub struct Input {
    pub mode: Mode,
}

/// The command a key gives in normal mode (without modifiers), and whether
/// the key enters insert mode.
pub open spec fn normal_command(key: Key, mods: Modifiers) -> Option<Command> {
    if mods.bits != 0 {
        None
    } else {
        match key {
            Key::D => Some(Command::MoveLeft),
            Key::F => Some(Command::MoveRight),
            Key::J => Some(Command::MoveDown),
            Key::K => Some(Command::MoveUp),
            _ => None,
        }
    }
}

impl Input {
    pub fn new() -> (r: Self)
        ensures
            r.mode == Mode::Normal,
    {
        Input { mode: Mode::Normal }
    }

    /// The command that `event` gives, switching modes where the key does.
    pub fn parse(&mut self, event: KeyEvent) -> (r: Option<Command>)
        ensures
            old(self).mode == Mode::Normal ==> {
                &&& r == normal_command(event.key, event.mods)
                &&& final(self).mode == if event.key == Key::L && event.mods.bits == 0 {
                    Mode::Insert
                } else {
                    Mode::Normal
                }
            },
            old(self).mode == Mode::Insert ==> {
                &&& r == if event.key == Key::Escape {
                    None
                } else {
                    match event.translated {
                        Some(c) => Some(Command::Insert(c)),
                        None => None,
                    }
                }
                &&& final(self).mode == if event.key == Key::Escape {
                    Mode::Normal
                } else {
                    Mode::Insert
                }
            },
    {
        match self.mode {
            Mode::Normal => self.parse_normal(event.key, event.mods),
            Mode::Insert => self.parse_insert(event),
        }
    }

    fn parse_normal(&mut self, key: Key, mods: Modifiers) -> (r: Option<Command>)
        ensures
            r == normal_command(key, mods),
            final(self).mode == if key == Key::L && mods.bits == 0 {
                Mode::Insert
            } else {
                old(self).mode
            },
    {
        if !mods.is_empty() {
            return None;
        }
        match key {
            Key::D => Some(Command::MoveLeft),
            Key::F => Some(Command::MoveRight),
            Key::J => Some(Command::MoveDown),
            Key::K => Some(Command::MoveUp),
            Key::L => {
                self.mode = Mode::Insert;
                None
            },
            _ => None,
        }
    }

    fn parse_insert(&mut self, event: KeyEvent) -> (r: Option<Command>)
        ensures
            r == if event.key == Key::Escape {
                None
            } else {
                match event.translated {
                    Some(c) => Some(Command::Insert(c)),
                    None => None,
                }
            },
            final(self).mode == if event.key == Key::Escape {
                Mode::Normal
            } else {
                old(self).mode
            },
    {
        if event.key == Key::Escape {
            self.mode = Mode::Normal;
            return None;
        }
        match event.translated {
            Some(c) => Some(Command::Insert(c)),
            None => None,
        }
    }
}

/// The key of a Windows virtual-key code. The codes of the keys that type
/// punctuation (`VK_OEM_1` to `VK_OEM_7`) depend on the keyboard layout and
/// are looked up by their character instead (see `text_key`).
pub open spec fn key_of_code(vk: i32) -> Key {
    match vk {
        0x08 => Key::Backspace,
        0x09 => Key::Tab,
        0x0C => Key::Clear,
        0x0D => Key::Return,
        0x10 => Key::Shift,
        0x11 => Key::Control,
        0x12 => Key::Alt,
        0x13 => Key::Pause,
        0x14 => Key::Capital,
        0x15 => Key::Kana,
        0x17 => Key::Junja,
        0x18 => Key::Final,
        0x19 => Key::Hanja,
        0x1B => Key::Escape,
        0x1C => Key::Convert,
        0x1D => Key::NonConvert,
        0x1E => Key::Accept,
        0x1F => Key::ModeChange,
        0x20 => Key::Space,
        0x21 => Key::Prior,
        0x22 => Key::Next,
        0x23 => Key::End,
        0x24 => Key::Home,
        0x25 => Key::Left,
        0x26 => Key::Up,
        0x27 => Key::Right,
        0x28 => Key::Down,
        0x29 => Key::Select,
        0x2A => Key::Print,
        0x2B => Key::Execute,
        0x2C => Key::Snapshot,
        0x2D => Key::Insert,
        0x2E => Key::Delete,
        0x2F => Key::Help,
        0x30 => Key::Key0,
        0x31 => Key::Key1,
        0x32 => Key::Key2,
        0x33 => Key::Key3,
        0x34 => Key::Key4,
        0x35 => Key::Key5,
        0x36 => Key::Key6,
        0x37 => Key::Key7,
        0x38 => Key::Key8,
        0x39 => Key::Key9,
        0x41 => Key::A,
        0x42 => Key::B,
        0x43 => Key::C,
        0x44 => Key::D,
        0x45 => Key::E,
        0x46 => Key::F,
        0x47 => Key::G,
        0x48 => Key::H,
        0x49 => Key::I,
        0x4A => Key::J,
        0x4B => Key::K,
        0x4C => Key::L,
        0x4D => Key::M,
        0x4E => Key::N,
        0x4F => Key::O,
        0x50 => Key::P,
        0x51 => Key::Q,
        0x52 => Key::R,
        0x53 => Key::S,
        0x54 => Key::T,
        0x55 => Key::U,
        0x56 => Key::V,
        0x57 => Key::W,
        0x58 => Key::X,
        0x59 => Key::Y,
        0x5A => Key::Z,
        0x5B => Key::LeftWin,
        0x5C => Key::RightWin,
        0x5D => Key::Apps,
        0x5F => Key::Sleep,
        0x60 => Key::Numpad0,
        0x61 => Key::Numpad1,
        0x62 => Key::Numpad2,
        0x63 => Key::Numpad3,
        0x64 => Key::Numpad4,
        0x65 => Key::Numpad5,
        0x66 => Key::Numpad6,
        0x67 => Key::Numpad7,
        0x68 => Key::Numpad8,
        0x69 => Key::Numpad9,
        0x6A => Key::Multiply,
        0x6B => Key::Add,
        0x6C => Key::Separator,
        0x6D => Key::Subtract,
        0x6E => Key::Decimal,
        0x6F => Key::Divide,
        0x70 => Key::F1,
        0x71 => Key::F2,
        0x72 => Key::F3,
        0x73 => Key::F4,
        0x74 => Key::F5,
        0x75 => Key::F6,
        0x76 => Key::F7,
        0x77 => Key::F8,
        0x78 => Key::F9,
        0x79 => Key::F10,
        0x7A => Key::F11,
        0x7B => Key::F12,
        0x7C => Key::F13,
        0x7D => Key::F14,
        0x7E => Key::F15,
        0x7F => Key::F16,
        0x80 => Key::F17,
        0x81 => Key::F18,
        0x82 => Key::F19,
        0x83 => Key::F20,
        0x84 => Key::F21,
        0x85 => Key::F22,
        0x86 => Key::F23,
        0x87 => Key::F24,
        0x90 => Key::NumLock,
        0x91 => Key::ScrollLock,
        0xA0 => Key::LeftShift,
        0xA1 => Key::RightShift,
        0xA2 => Key::LeftControl,
        0xA3 => Key::RightControl,
        0xA4 => Key::LeftAlt,
        0xA5 => Key::RightAlt,
        0xA6 => Key::BrowserBack,
        0xA7 => Key::BrowserForward,
        0xA8 => Key::BrowserRefresh,
        0xA9 => Key::BrowserStop,
        0xAA => Key::BrowserSearch,
        0xAB => Key::BrowserFavorites,
        0xAC => Key::BrowserHome,
        0xAD => Key::VolumeMute,
        0xAE => Key::VolumeDown,
        0xAF => Key::VolumeUp,
        0xB0 => Key::MediaNextTrack,
        0xB1 => Key::MediaPrevTrack,
        0xB2 => Key::MediaStop,
        0xB3 => Key::MediaPlayPause,
        0xB4 => Key::LaunchMail,
        0xB5 => Key::LaunchMediaSelect,
        0xB6 => Key::LaunchApp1,
        0xB7 => Key::LaunchApp2,
        0xBB => Key::Plus,
        0xBC => Key::Comma,
        0xBD => Key::Minus,
        0xBE => Key::Period,
        0xE5 => Key::Process,
        0xE7 => Key::Packet,
        0xF6 => Key::Attention,
        0xF7 => Key::CursorSelect,
        0xF8 => Key::ExtendSelect,
        0xF9 => Key::EraseEof,
        0xFA => Key::Play,
        0xFB => Key::Zoom,
        0xFD => Key::Pa1,
        0xFE => Key::OemClear,
        _ => Key::Unknown,
    }
}

/// Whether `vk` is a layout-dependent punctuation key code.
pub open spec fn is_text_code(vk: i32) -> bool {
    vk == 0xBA || vk == 0xBF || vk == 0xC0 || vk == 0xDB || vk == 0xDC || vk == 0xDD || vk == 0xDE
}

/// The key for a Windows virtual-key code that is not a punctuation code.
pub fn virtual_key(vk: i32) -> (r: Key)
    ensures
        r == key_of_code(vk),
{
    match vk {
        0x08 => Key::Backspace,
        0x09 => Key::Tab,
        0x0C => Key::Clear,
        0x0D => Key::Return,
        0x10 => Key::Shift,
        0x11 => Key::Control,
        0x12 => Key::Alt,
        0x13 => Key::Pause,
        0x14 => Key::Capital,
        0x15 => Key::Kana,
        0x17 => Key::Junja,
        0x18 => Key::Final,
        0x19 => Key::Hanja,
        0x1B => Key::Escape,
        0x1C => Key::Convert,
        0x1D => Key::NonConvert,
        0x1E => Key::Accept,
        0x1F => Key::ModeChange,
        0x20 => Key::Space,
        0x21 => Key::Prior,
        0x22 => Key::Next,
        0x23 => Key::End,
        0x24 => Key::Home,
        0x25 => Key::Left,
        0x26 => Key::Up,
        0x27 => Key::Right,
        0x28 => Key::Down,
        0x29 => Key::Select,
        0x2A => Key::Print,
        0x2B => Key::Execute,
        0x2C => Key::Snapshot,
        0x2D => Key::Insert,
        0x2E => Key::Delete,
        0x2F => Key::Help,
        0x30 => Key::Key0,
        0x31 => Key::Key1,
        0x32 => Key::Key2,
        0x33 => Key::Key3,
        0x34 => Key::Key4,
        0x35 => Key::Key5,
        0x36 => Key::Key6,
        0x37 => Key::Key7,
        0x38 => Key::Key8,
        0x39 => Key::Key9,
        0x41 => Key::A,
        0x42 => Key::B,
        0x43 => Key::C,
        0x44 => Key::D,
        0x45 => Key::E,
        0x46 => Key::F,
        0x47 => Key::G,
        0x48 => Key::H,
        0x49 => Key::I,
        0x4A => Key::J,
        0x4B => Key::K,
        0x4C => Key::L,
        0x4D => Key::M,
        0x4E => Key::N,
        0x4F => Key::O,
        0x50 => Key::P,
        0x51 => Key::Q,
        0x52 => Key::R,
        0x53 => Key::S,
        0x54 => Key::T,
        0x55 => Key::U,
        0x56 => Key::V,
        0x57 => Key::W,
        0x58 => Key::X,
        0x59 => Key::Y,
        0x5A => Key::Z,
        0x5B => Key::LeftWin,
        0x5C => Key::RightWin,
        0x5D => Key::Apps,
        0x5F => Key::Sleep,
        0x60 => Key::Numpad0,
        0x61 => Key::Numpad1,
        0x62 => Key::Numpad2,
        0x63 => Key::Numpad3,
        0x64 => Key::Numpad4,
        0x65 => Key::Numpad5,
        0x66 => Key::Numpad6,
        0x67 => Key::Numpad7,
        0x68 => Key::Numpad8,
        0x69 => Key::Numpad9,
        0x6A => Key::Multiply,
        0x6B => Key::Add,
        0x6C => Key::Separator,
        0x6D => Key::Subtract,
        0x6E => Key::Decimal,
        0x6F => Key::Divide,
        0x70 => Key::F1,
        0x71 => Key::F2,
        0x72 => Key::F3,
        0x73 => Key::F4,
        0x74 => Key::F5,
        0x75 => Key::F6,
        0x76 => Key::F7,
        0x77 => Key::F8,
        0x78 => Key::F9,
        0x79 => Key::F10,
        0x7A => Key::F11,
        0x7B => Key::F12,
        0x7C => Key::F13,
        0x7D => Key::F14,
        0x7E => Key::F15,
        0x7F => Key::F16,
        0x80 => Key::F17,
        0x81 => Key::F18,
        0x82 => Key::F19,
        0x83 => Key::F20,
        0x84 => Key::F21,
        0x85 => Key::F22,
        0x86 => Key::F23,
        0x87 => Key::F24,
        0x90 => Key::NumLock,
        0x91 => Key::ScrollLock,
        0xA0 => Key::LeftShift,
        0xA1 => Key::RightShift,
        0xA2 => Key::LeftControl,
        0xA3 => Key::RightControl,
        0xA4 => Key::LeftAlt,
        0xA5 => Key::RightAlt,
        0xA6 => Key::BrowserBack,
        0xA7 => Key::BrowserForward,
        0xA8 => Key::BrowserRefresh,
        0xA9 => Key::BrowserStop,
        0xAA => Key::BrowserSearch,
        0xAB => Key::BrowserFavorites,
        0xAC => Key::BrowserHome,
        0xAD => Key::VolumeMute,
        0xAE => Key::VolumeDown,
        0xAF => Key::VolumeUp,
        0xB0 => Key::MediaNextTrack,
        0xB1 => Key::MediaPrevTrack,
        0xB2 => Key::MediaStop,
        0xB3 => Key::MediaPlayPause,
        0xB4 => Key::LaunchMail,
        0xB5 => Key::LaunchMediaSelect,
        0xB6 => Key::LaunchApp1,
        0xB7 => Key::LaunchApp2,
        0xBB => Key::Plus,
        0xBC => Key::Comma,
        0xBD => Key::Minus,
        0xBE => Key::Period,
        0xE5 => Key::Process,
        0xE7 => Key::Packet,
        0xF6 => Key::Attention,
        0xF7 => Key::CursorSelect,
        0xF8 => Key::ExtendSelect,
        0xF9 => Key::EraseEof,
        0xFA => Key::Play,
        0xFB => Key::Zoom,
        0xFD => Key::Pa1,
        0xFE => Key::OemClear,
        _ => Key::Unknown,
    }
}

/// Whether `vk` is a punctuation key whose key follows from the character
/// it types on the current layout.
pub fn is_text_key_code(vk: i32) -> (r: bool)
    ensures
        r == is_text_code(vk),
{
    vk == 0xBA || vk == 0xBF || vk == 0xC0 || vk == 0xDB || vk == 0xDC || vk == 0xDD || vk == 0xDE
}

/// The key for the character that a punctuation key types.
pub fn text_key(c: char) -> (r: Option<Key>)
    ensures
        r == match c {
            ';' => Some(Key::Semicolon),
            '/' => Some(Key::Slash),
            '`' => Some(Key::Backtick),
            '[' => Some(Key::LBracket),
            ']' => Some(Key::RBracket),
            '\'' => Some(Key::Apostrophe),
            '\\' => Some(Key::Backslash),
            '#' => Some(Key::Hash),
            _ => None,
        },
{
    match c {
        ';' => Some(Key::Semicolon),
        '/' => Some(Key::Slash),
        '`' => Some(Key::Backtick),
        '[' => Some(Key::LBracket),
        ']' => Some(Key::RBracket),
        '\'' => Some(Key::Apostrophe),
        '\\' => Some(Key::Backslash),
        '#' => Some(Key::Hash),
        _ => None,
    }
}

/// What the application does about a key event.
#[derive(Clone, Debug, PartialEq, Eq)]
pub enum KeyAction {
    /// Close the window.
    Close,
    /// Switch between windowed and full screen.
    ToggleFullscreen,
    /// Send an editing command.
    Command(Command),
}

/// The action for `event`: Escape closes the window; a press of F11 toggles
/// full screen, of Backspace deletes, of Return starts a new line, and of a
/// key that types a character inserts it.
pub open spec fn key_action_spec(event: KeyEvent) -> Option<KeyAction> {
    if event.key == Key::Escape {
        Some(KeyAction::Close)
    } else if event.state != KeyState::Press {
        None
    } else if event.key == Key::F11 {
        Some(KeyAction::ToggleFullscreen)
    } else if event.key == Key::Backspace {
        Some(KeyAction::Command(Command::Delete))
    } else if event.key == Key::Return {
        Some(KeyAction::Command(Command::NewLine))
    } else {
        match event.translated {
            Some(c) => Some(KeyAction::Command(Command::Insert(c))),
            None => None,
        }
    }
}

pub fn key_action(event: KeyEvent) -> (r: Option<KeyAction>)
    ensures
        r == key_action_spec(event),
{
    if event.key == Key::Escape {
        return Some(KeyAction::Close);
    }
    if event.state != KeyState::Press {
        return None;
    }
    if event.key == Key::F11 {
        Some(KeyAction::ToggleFullscreen)
    } else if event.key == Key::Backspace {
        Some(KeyAction::Command(Command::Delete))
    } else if event.key == Key::Return {
        Some(KeyAction::Command(Command::NewLine))
    } else {
        match event.translated {
            Some(c) => Some(KeyAction::Command(Command::Insert(c))),
            None => None,
        }
    }
}

} // verus!
