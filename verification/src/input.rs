//! Keys, mouse events and areas of the screen.

use vstd::prelude::*;

verus! {

/// A key, without its modifiers.
#[derive(Clone, Copy, Debug, PartialEq, Eq, Structural)]
pub enum KeyCode {
    Esc,
    Enter,
    Tab,
    BackTab,
    Backspace,
    Delete,
    Up,
    Down,
    Left,
    Right,
    Home,
    End,
    PageUp,
    PageDown,
    Char(char),
    Other,
}

/// The modifiers that are held with a key. `command` is the key that some systems
/// call super, and `other` stands for any besides these.
#[derive(Clone, Copy, Debug, PartialEq, Eq, Structural)]
pub struct Modifiers {
    pub shift: bool,
    pub control: bool,
    pub alt: bool,
    pub command: bool,
    pub other: bool,
}

/// No modifier.
pub open spec fn no_modifiers() -> Modifiers {
    Modifiers { shift: false, control: false, alt: false, command: false, other: false }
}

#[derive(Clone, Copy, Debug, PartialEq, Eq, Structural)]
pub struct Key {
    pub code: KeyCode,
    pub modifiers: Modifiers,
    /// Whether the key went down; not that it repeats or went up.
    pub press: bool,
}

/// The system that the program runs on, as far as its ways differ.
#[derive(Clone, Copy, Debug, PartialEq, Eq, Structural)]
pub enum Platform {
    Mac,
    Windows,
    Other,
}

/// What stands between the parts of a path.
pub open spec fn separator(platform: Platform) -> char {
    match platform {
        Platform::Windows => '\\',
        _ => '/',
    }
}

impl Platform {
    /// What stands between the parts of a path.
    pub fn separator(&self) -> (r: char)
        ensures
            r == separator(*self),
    {
        match self {
            Platform::Windows => '\\',
            _ => '/',
        }
    }
}

/// Command is held, and nothing else.
pub open spec fn only_command(m: Modifiers) -> bool {
    m.command && !m.shift && !m.alt && !m.control && !m.other
}

/// Control is held, and nothing else.
pub open spec fn only_control(m: Modifiers) -> bool {
    m.control && !m.shift && !m.alt && !m.command && !m.other
}

impl Modifiers {
    pub fn only_control(&self) -> (r: bool)
        ensures
            r == only_control(*self),
    {
        self.control && !self.shift && !self.alt && !self.command && !self.other
    }

    pub fn only_command(&self) -> (r: bool)
        ensures
            r == only_command(*self),
    {
        self.command && !self.shift && !self.alt && !self.control && !self.other
    }

    /// Whether no modifier is held.
    pub fn none(&self) -> (r: bool)
        ensures
            r == (*self == no_modifiers()),
    {
        !self.control && !self.shift && !self.alt && !self.command && !self.other
    }
}

/// The key with this code, pressed with no modifier.
pub open spec fn plain_key(code: KeyCode) -> Key {
    Key { code, modifiers: no_modifiers(), press: true }
}

impl Key {
    pub fn plain(code: KeyCode) -> (r: Key)
        ensures
            r == plain_key(code),
    {
        Key {
            code,
            modifiers: Modifiers { shift: false, control: false, alt: false, command: false, other: false },
            press: true,
        }
    }
}

#[derive(Clone, Copy, Debug, PartialEq, Eq, Structural)]
pub enum MouseKind {
    LeftDown,
    LeftUp,
    LeftDrag,
    RightDown,
    ScrollUp,
    ScrollDown,
    Moved,
    Other,
}

#[derive(Clone, Copy, Debug, PartialEq, Eq, Structural)]
pub struct Mouse {
    pub kind: MouseKind,
    pub column: u16,
    pub row: u16,
}

/// A rectangle of cells.
#[derive(Clone, Copy, Debug, PartialEq, Eq, Structural)]
pub struct Rect {
    pub x: u16,
    pub y: u16,
    pub width: u16,
    pub height: u16,
}

/// No cell at all.
pub open spec fn no_rect() -> Rect {
    Rect { x: 0, y: 0, width: 0, height: 0 }
}

impl Default for Rect {
    fn default() -> (r: Rect)
        ensures
            r == no_rect(),
    {
        Rect { x: 0, y: 0, width: 0, height: 0 }
    }
}

/// Whether the cell at this column and row lies in the rectangle.
pub open spec fn inside(area: Rect, column: u16, row: u16) -> bool {
    area.x <= column < area.x + area.width && area.y <= row < area.y + area.height
}

/// Whether the cell at this column and row lies in the rectangle.
pub fn hits(area: Rect, column: u16, row: u16) -> (r: bool)
    ensures
        r == inside(area, column, row),
{
    area.x <= column && column - area.x < area.width && area.y <= row && row - area.y < area.height
}

impl Rect {
    pub fn new(x: u16, y: u16, width: u16, height: u16) -> (r: Rect)
        ensures
            r == (Rect { x, y, width, height }),
    {
        Rect { x, y, width, height }
    }
}

/// `a - b`, or 0 where that is less.
pub open spec fn monus(a: int, b: int) -> int {
    if a > b {
        a - b
    } else {
        0
    }
}

/// The smaller of the two.
pub open spec fn least(a: int, b: int) -> int {
    if a < b {
        a
    } else {
        b
    }
}

/// The larger of the two.
pub open spec fn most(a: int, b: int) -> int {
    if a > b {
        a
    } else {
        b
    }
}

/// `a - b`, or 0 where that is less.
pub fn take_off(a: usize, b: usize) -> (r: usize)
    ensures
        r == monus(a as int, b as int),
{
    if a > b {
        a - b
    } else {
        0
    }
}

/// `a - b`, or 0 where that is less.
pub fn cells_off(a: u16, b: u16) -> (r: u16)
    ensures
        r == monus(a as int, b as int),
{
    if a > b {
        a - b
    } else {
        0
    }
}

/// The sum, or the most that fits.
pub fn cells_on(a: u16, b: u16) -> (r: u16)
    ensures
        r == least(a + b, u16::MAX as int),
{
    if a > u16::MAX - b {
        u16::MAX
    } else {
        a + b
    }
}

/// The smaller of the two.
pub fn smaller(a: usize, b: usize) -> (r: usize)
    ensures
        r == least(a as int, b as int),
{
    if a < b {
        a
    } else {
        b
    }
}

/// The larger of the two.
pub fn larger(a: usize, b: usize) -> (r: usize)
    ensures
        r == most(a as int, b as int),
{
    if a > b {
        a
    } else {
        b
    }
}

/// The smaller of the two.
pub fn fewer(a: u16, b: u16) -> (r: u16)
    ensures
        r == least(a as int, b as int),
{
    if a < b {
        a
    } else {
        b
    }
}

/// The larger of the two.
pub fn more(a: u16, b: u16) -> (r: u16)
    ensures
        r == most(a as int, b as int),
{
    if a > b {
        a
    } else {
        b
    }
}

} // verus!
