//! Keys and the mouse: the events that come in, and how they are handed to the encoders of a
//! pane's terminal.

use crate::geometry::Rect;
use crate::text;
use vstd::prelude::*;

verus! {

/// A key.
#[derive(Debug, Clone, Copy, PartialEq, Eq, Structural)]
pub enum KeyCode {
    Backspace,
    Enter,
    Left,
    Right,
    Up,
    Down,
    Home,
    End,
    PageUp,
    PageDown,
    Tab,
    BackTab,
    Delete,
    Insert,
    Esc,
    F(u8),
    Char(char),
    /// A key that nothing is bound to.
    Other,
}

/// The modifiers that are held.
#[derive(Debug, Clone, Copy, PartialEq, Eq, Structural)]
pub struct KeyModifiers {
    pub shift: bool,
    pub control: bool,
    pub alt: bool,
    pub super_key: bool,
    pub hyper: bool,
    pub meta: bool,
}

impl KeyModifiers {
    /// No modifiers.
    pub open spec fn no_modifiers() -> KeyModifiers {
        KeyModifiers {
            shift: false,
            control: false,
            alt: false,
            super_key: false,
            hyper: false,
            meta: false,
        }
    }

    /// The control key alone.
    pub open spec fn only_control() -> KeyModifiers {
        KeyModifiers { control: true, ..KeyModifiers::no_modifiers() }
    }

    /// The super key alone.
    pub open spec fn only_super() -> KeyModifiers {
        KeyModifiers { super_key: true, ..KeyModifiers::no_modifiers() }
    }

    /// No modifiers.
    pub fn none() -> (r: KeyModifiers)
        ensures
            r == KeyModifiers::no_modifiers(),
    {
        KeyModifiers {
            shift: false,
            control: false,
            alt: false,
            super_key: false,
            hyper: false,
            meta: false,
        }
    }

    /// The control key alone.
    pub fn control() -> (r: KeyModifiers)
        ensures
            r == KeyModifiers::only_control(),
    {
        KeyModifiers { control: true, ..KeyModifiers::none() }
    }

    /// The super key alone.
    pub fn super_key() -> (r: KeyModifiers)
        ensures
            r == KeyModifiers::only_super(),
    {
        KeyModifiers { super_key: true, ..KeyModifiers::none() }
    }
}

/// What happens to a key.
#[derive(Debug, Clone, Copy, PartialEq, Eq, Structural)]
pub enum KeyEventKind {
    Press,
    Repeat,
    Release,
}

/// A key event.
#[derive(Debug, Clone, Copy, PartialEq, Eq, Structural)]
pub struct KeyEvent {
    pub code: KeyCode,
    pub modifiers: KeyModifiers,
    pub kind: KeyEventKind,
    pub caps_lock: bool,
    pub num_lock: bool,
}

impl KeyEvent {
    /// A key that is pressed.
    pub fn new(code: KeyCode, modifiers: KeyModifiers) -> (r: KeyEvent)
        ensures
            r == (KeyEvent {
                code,
                modifiers,
                kind: KeyEventKind::Press,
                caps_lock: false,
                num_lock: false,
            }),
    {
        KeyEvent { code, modifiers, kind: KeyEventKind::Press, caps_lock: false, num_lock: false }
    }
}

/// A button of the mouse.
#[derive(Debug, Clone, Copy, PartialEq, Eq, Structural)]
pub enum MouseButton {
    Left,
    Right,
    Middle,
}

/// What the mouse does.
#[derive(Debug, Clone, Copy, PartialEq, Eq, Structural)]
pub enum MouseEventKind {
    Down(MouseButton),
    Up(MouseButton),
    Drag(MouseButton),
    Moved,
    ScrollUp,
    ScrollDown,
    ScrollLeft,
    ScrollRight,
}

/// A mouse event in a cell of the screen.
#[derive(Debug, Clone, Copy, PartialEq, Eq, Structural)]
pub struct MouseEvent {
    pub kind: MouseEventKind,
    pub column: u16,
    pub row: u16,
    pub modifiers: KeyModifiers,
}

/// A key of the keyboard, whatever it types.
#[derive(Debug, Clone, Copy, PartialEq, Eq, Structural)]
pub enum Key {
    Backspace,
    Enter,
    ArrowLeft,
    ArrowRight,
    ArrowUp,
    ArrowDown,
    Home,
    End,
    PageUp,
    PageDown,
    Tab,
    Delete,
    Insert,
    Escape,
    /// `F1` to `F12`.
    Function(u8),
    /// `a` to `z`.
    Letter(char),
    /// `0` to `9`.
    Digit(u8),
    Space,
    Backquote,
    Backslash,
    BracketLeft,
    BracketRight,
    Comma,
    Equal,
    Minus,
    Period,
    Quote,
    Semicolon,
    Slash,
    Unidentified,
}

/// The key that types a character on a keyboard of the usual layout, and what it types without
/// shift.
pub open spec fn key_typing(c: char) -> (Key, char) {
    let lower = text::ascii_lower(c);
    if 'a' <= lower <= 'z' {
        (Key::Letter(lower), lower)
    } else if c == '0' || c == ')' {
        (Key::Digit(0), '0')
    } else if c == '1' || c == '!' {
        (Key::Digit(1), '1')
    } else if c == '2' || c == '@' {
        (Key::Digit(2), '2')
    } else if c == '3' || c == '#' {
        (Key::Digit(3), '3')
    } else if c == '4' || c == '$' {
        (Key::Digit(4), '4')
    } else if c == '5' || c == '%' {
        (Key::Digit(5), '5')
    } else if c == '6' || c == '^' {
        (Key::Digit(6), '6')
    } else if c == '7' || c == '&' {
        (Key::Digit(7), '7')
    } else if c == '8' || c == '*' {
        (Key::Digit(8), '8')
    } else if c == '9' || c == '(' {
        (Key::Digit(9), '9')
    } else if c == ' ' {
        (Key::Space, ' ')
    } else if c == '`' || c == '~' {
        (Key::Backquote, '`')
    } else if c == '\\' || c == '|' {
        (Key::Backslash, '\\')
    } else if c == '[' || c == '{' {
        (Key::BracketLeft, '[')
    } else if c == ']' || c == '}' {
        (Key::BracketRight, ']')
    } else if c == ',' || c == '<' {
        (Key::Comma, ',')
    } else if c == '=' || c == '+' {
        (Key::Equal, '=')
    } else if c == '-' || c == '_' {
        (Key::Minus, '-')
    } else if c == '.' || c == '>' {
        (Key::Period, '.')
    } else if c == '\'' || c == '"' {
        (Key::Quote, '\'')
    } else if c == ';' || c == ':' {
        (Key::Semicolon, ';')
    } else if c == '/' || c == '?' {
        (Key::Slash, '/')
    } else {
        (Key::Unidentified, c)
    }
}

/// The lower-case form of an ASCII letter; any other character itself.
fn lower_letter(c: char) -> (r: char)
    ensures
        r == text::ascii_lower(c),
{
    if 'A' <= c && c <= 'Z' {
        (c as u8 + 32) as char
    } else {
        c
    }
}

/// The key that types a character, and what it types without shift.
pub fn convert_char_key(c: char) -> (r: (Key, char))
    ensures
        r == key_typing(c),
{
    let lower = lower_letter(c);
    if 'a' <= lower && lower <= 'z' {
        return (Key::Letter(lower), lower);
    }
    match c {
        '0' | ')' => (Key::Digit(0), '0'),
        '1' | '!' => (Key::Digit(1), '1'),
        '2' | '@' => (Key::Digit(2), '2'),
        '3' | '#' => (Key::Digit(3), '3'),
        '4' | '$' => (Key::Digit(4), '4'),
        '5' | '%' => (Key::Digit(5), '5'),
        '6' | '^' => (Key::Digit(6), '6'),
        '7' | '&' => (Key::Digit(7), '7'),
        '8' | '*' => (Key::Digit(8), '8'),
        '9' | '(' => (Key::Digit(9), '9'),
        ' ' => (Key::Space, ' '),
        '`' | '~' => (Key::Backquote, '`'),
        '\\' | '|' => (Key::Backslash, '\\'),
        '[' | '{' => (Key::BracketLeft, '['),
        ']' | '}' => (Key::BracketRight, ']'),
        ',' | '<' => (Key::Comma, ','),
        '=' | '+' => (Key::Equal, '='),
        '-' | '_' => (Key::Minus, '-'),
        '.' | '>' => (Key::Period, '.'),
        '\'' | '"' => (Key::Quote, '\''),
        ';' | ':' => (Key::Semicolon, ';'),
        '/' | '?' => (Key::Slash, '/'),
        _ => (Key::Unidentified, c),
    }
}

/// The key of a key code, the character that it types, and the one that it types without shift.
pub open spec fn key_of(code: KeyCode) -> Option<(Key, Option<char>, Option<char>)> {
    match code {
        KeyCode::Backspace => Some((Key::Backspace, None, None)),
        KeyCode::Enter => Some((Key::Enter, None, None)),
        KeyCode::Left => Some((Key::ArrowLeft, None, None)),
        KeyCode::Right => Some((Key::ArrowRight, None, None)),
        KeyCode::Up => Some((Key::ArrowUp, None, None)),
        KeyCode::Down => Some((Key::ArrowDown, None, None)),
        KeyCode::Home => Some((Key::Home, None, None)),
        KeyCode::End => Some((Key::End, None, None)),
        KeyCode::PageUp => Some((Key::PageUp, None, None)),
        KeyCode::PageDown => Some((Key::PageDown, None, None)),
        KeyCode::Tab => Some((Key::Tab, None, None)),
        KeyCode::BackTab => Some((Key::Tab, None, None)),
        KeyCode::Delete => Some((Key::Delete, None, None)),
        KeyCode::Insert => Some((Key::Insert, None, None)),
        KeyCode::Esc => Some((Key::Escape, None, None)),
        KeyCode::F(n) => if 1 <= n <= 12 {
            Some((Key::Function(n), None, None))
        } else {
            None
        },
        KeyCode::Char(c) => Some((key_typing(c).0, Some(c), Some(key_typing(c).1))),
        KeyCode::Other => None,
    }
}

/// The key of a key code.
pub fn convert_key_code(code: KeyCode) -> (r: Option<(Key, Option<char>, Option<char>)>)
    ensures
        r == key_of(code),
{
    match code {
        KeyCode::Backspace => Some((Key::Backspace, None, None)),
        KeyCode::Enter => Some((Key::Enter, None, None)),
        KeyCode::Left => Some((Key::ArrowLeft, None, None)),
        KeyCode::Right => Some((Key::ArrowRight, None, None)),
        KeyCode::Up => Some((Key::ArrowUp, None, None)),
        KeyCode::Down => Some((Key::ArrowDown, None, None)),
        KeyCode::Home => Some((Key::Home, None, None)),
        KeyCode::End => Some((Key::End, None, None)),
        KeyCode::PageUp => Some((Key::PageUp, None, None)),
        KeyCode::PageDown => Some((Key::PageDown, None, None)),
        KeyCode::Tab | KeyCode::BackTab => Some((Key::Tab, None, None)),
        KeyCode::Delete => Some((Key::Delete, None, None)),
        KeyCode::Insert => Some((Key::Insert, None, None)),
        KeyCode::Esc => Some((Key::Escape, None, None)),
        KeyCode::F(n) => {
            if 1 <= n && n <= 12 {
                Some((Key::Function(n), None, None))
            } else {
                None
            }
        },
        KeyCode::Char(c) => {
            let (key, unshifted) = convert_char_key(c);
            Some((key, Some(c), Some(unshifted)))
        },
        KeyCode::Other => None,
    }
}

/// The modifiers that the encoder of keys is told of.
#[derive(Debug, Clone, Copy, PartialEq, Eq, Structural)]
pub struct KeyMods {
    pub shift: bool,
    pub alt: bool,
    pub ctrl: bool,
    pub super_key: bool,
    pub caps_lock: bool,
    pub num_lock: bool,
}

/// A key event for the encoder of keys.
#[derive(Debug, Clone, Copy, PartialEq, Eq, Structural)]
pub struct KeyRequest {
    pub action: KeyEventKind,
    pub key: Key,
    pub text: Option<char>,
    pub unshifted: Option<char>,
    pub mods: KeyMods,
}

/// What the encoder of keys is handed for a key event; nothing for a key that it does not know. A
/// back-tab is a tab with shift.
pub open spec fn request_for(event: KeyEvent) -> Option<KeyRequest> {
    match key_of(event.code) {
        Some((key, text, unshifted)) => Some(
            KeyRequest {
                action: event.kind,
                key,
                text,
                unshifted,
                mods: KeyMods {
                    shift: event.modifiers.shift || event.code == KeyCode::BackTab,
                    alt: event.modifiers.alt,
                    ctrl: event.modifiers.control,
                    super_key: event.modifiers.super_key,
                    caps_lock: event.caps_lock,
                    num_lock: event.num_lock,
                },
            },
        ),
        None => None,
    }
}

/// What the encoder of keys is handed for a key event.
pub fn key_request(event: KeyEvent) -> (r: Option<KeyRequest>)
    ensures
        r == request_for(event),
{
    match convert_key_code(event.code) {
        Some((key, text, unshifted)) => {
            let mut mods = convert_key_modifiers(event.modifiers);
            if event.caps_lock {
                mods.caps_lock = true;
            }
            if event.num_lock {
                mods.num_lock = true;
            }
            if matches!(event.code, KeyCode::BackTab) {
                mods.shift = true;
            }
            Some(KeyRequest { action: event.kind, key, text, unshifted, mods })
        },
        None => None,
    }
}

/// The modifiers that the encoder of keys is told of.
pub fn convert_key_modifiers(modifiers: KeyModifiers) -> (r: KeyMods)
    ensures
        r == (KeyMods {
            shift: modifiers.shift,
            alt: modifiers.alt,
            ctrl: modifiers.control,
            super_key: modifiers.super_key,
            caps_lock: false,
            num_lock: false,
        }),
{
    KeyMods {
        shift: modifiers.shift,
        alt: modifiers.alt,
        ctrl: modifiers.control,
        super_key: modifiers.super_key,
        caps_lock: false,
        num_lock: false,
    }
}

/// What the encoder of the mouse is told that the mouse does.
#[derive(Debug, Clone, Copy, PartialEq, Eq, Structural)]
pub enum MouseAction {
    Press,
    Release,
    Motion,
}

/// A button as the encoder of the mouse counts them: the wheel has four of its own.
#[derive(Debug, Clone, Copy, PartialEq, Eq, Structural)]
pub enum PointerButton {
    Left,
    Right,
    Middle,
    Four,
    Five,
    Six,
    Seven,
}

/// A mouse event for the encoder of the mouse, in cells of the pane.
#[derive(Debug, Clone, Copy, PartialEq, Eq, Structural)]
pub struct MouseRequest {
    pub action: MouseAction,
    pub button: Option<PointerButton>,
    pub shift: bool,
    pub alt: bool,
    pub ctrl: bool,
    pub x: u16,
    pub y: u16,
    pub width: u16,
    pub height: u16,
    pub any_button_pressed: bool,
}

pub open spec fn pointer_of(button: MouseButton) -> PointerButton {
    match button {
        MouseButton::Left => PointerButton::Left,
        MouseButton::Right => PointerButton::Right,
        MouseButton::Middle => PointerButton::Middle,
    }
}

/// What the mouse does, with which button.
pub open spec fn action_of(kind: MouseEventKind) -> (MouseAction, Option<PointerButton>) {
    match kind {
        MouseEventKind::Down(button) => (MouseAction::Press, Some(pointer_of(button))),
        MouseEventKind::Up(button) => (MouseAction::Release, Some(pointer_of(button))),
        MouseEventKind::Drag(button) => (MouseAction::Motion, Some(pointer_of(button))),
        MouseEventKind::Moved => (MouseAction::Motion, None),
        MouseEventKind::ScrollUp => (MouseAction::Press, Some(PointerButton::Four)),
        MouseEventKind::ScrollDown => (MouseAction::Press, Some(PointerButton::Five)),
        MouseEventKind::ScrollLeft => (MouseAction::Press, Some(PointerButton::Six)),
        MouseEventKind::ScrollRight => (MouseAction::Press, Some(PointerButton::Seven)),
    }
}

/// What the encoder of the mouse is handed for a mouse event in the area of a pane; nothing for
/// one outside it.
pub open spec fn mouse_request_for(event: MouseEvent, inner: Rect) -> Option<MouseRequest> {
    if inner.has(event.column as int, event.row as int) {
        Some(
            MouseRequest {
                action: action_of(event.kind).0,
                button: action_of(event.kind).1,
                shift: event.modifiers.shift,
                alt: event.modifiers.alt,
                ctrl: event.modifiers.control,
                x: (event.column - inner.x) as u16,
                y: (event.row - inner.y) as u16,
                width: inner.width,
                height: inner.height,
                any_button_pressed: event.kind is Drag,
            },
        )
    } else {
        None
    }
}

/// The button as the encoder of the mouse counts them.
pub fn convert_mouse_button(button: MouseButton) -> (r: PointerButton)
    ensures
        r == pointer_of(button),
{
    match button {
        MouseButton::Left => PointerButton::Left,
        MouseButton::Right => PointerButton::Right,
        MouseButton::Middle => PointerButton::Middle,
    }
}

/// What the encoder of the mouse is handed for a mouse event in the area of a pane.
pub fn mouse_request(event: MouseEvent, inner: Rect) -> (r: Option<MouseRequest>)
    requires
        inner.wf(),
    ensures
        r == mouse_request_for(event, inner),
{
    if event.column < inner.x || event.row < inner.y || event.column >= inner.x + inner.width
        || event.row >= inner.y + inner.height {
        return None;
    }
    let (action, button) = match event.kind {
        MouseEventKind::Down(button) => (MouseAction::Press, Some(convert_mouse_button(button))),
        MouseEventKind::Up(button) => (MouseAction::Release, Some(convert_mouse_button(button))),
        MouseEventKind::Drag(button) => (MouseAction::Motion, Some(convert_mouse_button(button))),
        MouseEventKind::Moved => (MouseAction::Motion, None),
        MouseEventKind::ScrollUp => (MouseAction::Press, Some(PointerButton::Four)),
        MouseEventKind::ScrollDown => (MouseAction::Press, Some(PointerButton::Five)),
        MouseEventKind::ScrollLeft => (MouseAction::Press, Some(PointerButton::Six)),
        MouseEventKind::ScrollRight => (MouseAction::Press, Some(PointerButton::Seven)),
    };
    Some(
        MouseRequest {
            action,
            button,
            shift: event.modifiers.shift,
            alt: event.modifiers.alt,
            ctrl: event.modifiers.control,
            x: event.column - inner.x,
            y: event.row - inner.y,
            width: inner.width,
            height: inner.height,
            any_button_pressed: matches!(event.kind, MouseEventKind::Drag(_)),
        },
    )
}

/// Whether a key event copies the selection: `C` with control or super, and nothing else.
pub open spec fn copies(key: KeyEvent) -> bool {
    (key.code == KeyCode::Char('c') || key.code == KeyCode::Char('C')) && (key.modifiers
        == KeyModifiers::only_control() || key.modifiers == KeyModifiers::only_super())
}

/// Whether a key event cuts the selection: `X` with control or super, and nothing else.
pub open spec fn cuts(key: KeyEvent) -> bool {
    (key.code == KeyCode::Char('x') || key.code == KeyCode::Char('X')) && (key.modifiers
        == KeyModifiers::only_control() || key.modifiers == KeyModifiers::only_super())
}

/// Whether a key event deletes the selection.
pub open spec fn deletes(key: KeyEvent) -> bool {
    (key.code == KeyCode::Backspace || key.code == KeyCode::Delete) && key.modifiers
        == KeyModifiers::no_modifiers()
}

fn with_control_or_super(modifiers: KeyModifiers) -> (r: bool)
    ensures
        r == (modifiers == KeyModifiers::only_control() || modifiers
            == KeyModifiers::only_super()),
{
    modifiers == KeyModifiers::control() || modifiers == KeyModifiers::super_key()
}

/// Whether a key event copies the selection.
pub fn is_selection_copy_key(key: KeyEvent) -> (r: bool)
    ensures
        r == copies(key),
{
    matches!(key.code, KeyCode::Char('c' | 'C')) && with_control_or_super(key.modifiers)
}

/// Whether a key event cuts the selection.
pub fn is_selection_cut_key(key: KeyEvent) -> (r: bool)
    ensures
        r == cuts(key),
{
    matches!(key.code, KeyCode::Char('x' | 'X')) && with_control_or_super(key.modifiers)
}

/// Whether a key event deletes the selection.
pub fn is_selection_delete_key(key: KeyEvent) -> (r: bool)
    ensures
        r == deletes(key),
{
    matches!(key.code, KeyCode::Backspace | KeyCode::Delete) && key.modifiers
        == KeyModifiers::none()
}

/// A program is told of the mouse in the cells of its own pane, with the modifiers that are held, and
/// not at all of a pointer outside it.
pub proof fn pointers_are_told_in_cells_of_the_pane(event: MouseEvent, inner: Rect)
    requires
        inner.wf(),
    ensures
        mouse_request_for(event, inner) is Some <==> inner.has(
            event.column as int,
            event.row as int,
        ),
        mouse_request_for(event, inner) matches Some(r) ==> {
            &&& inner.x + r.x == event.column
            &&& inner.y + r.y == event.row
            &&& r.x < r.width
            &&& r.y < r.height
            &&& r.width == inner.width
            &&& r.height == inner.height
            &&& r.shift == event.modifiers.shift
            &&& r.alt == event.modifiers.alt
            &&& r.ctrl == event.modifiers.control
            &&& r.button is None <==> event.kind == MouseEventKind::Moved
            &&& r.action == MouseAction::Release <==> event.kind is Up
            &&& r.any_button_pressed <==> event.kind is Drag
        },
{
}

/// Different ways to use the mouse are told differently.
pub proof fn mouse_actions_are_told_apart(a: MouseEventKind, b: MouseEventKind)
    ensures
        action_of(a) == action_of(b) ==> a == b,
{
}

/// A key that types a character is told with this character, and with the key that has it; the
/// character that the key types without shift is one that the same key types, and letters in upper
/// and lower case are on one key.
pub proof fn typed_characters_are_told(event: KeyEvent, c: char)
    requires
        event.code == KeyCode::Char(c),
    ensures
        request_for(event) matches Some(r) && {
            &&& r.text == Some(c)
            &&& r.unshifted is Some
            &&& r.key == key_typing(r.unshifted->0).0
            &&& r.unshifted == Some(key_typing(r.unshifted->0).1)
            &&& 'a' <= c <= 'z' ==> r.unshifted == Some(c) && r.key == Key::Letter(c)
            &&& 'A' <= c <= 'Z' ==> r.unshifted == Some((c as int + 32) as char) && r.key
                == Key::Letter((c as int + 32) as char)
            &&& '0' <= c <= '9' ==> r.unshifted == Some(c) && r.key == Key::Digit(
                (c as int - 0x30) as u8,
            )
            &&& c as int > 0x7e ==> r.key == Key::Unidentified && r.unshifted == Some(c)
        },
{
}

/// Different characters are told apart: those on one key are at most two, and one of them is the one
/// without shift.
pub proof fn characters_are_told_apart(a: char, b: char)
    ensures
        key_typing(a).1 != key_typing(b).1 ==> key_typing(a).0 != key_typing(b).0 || key_typing(a).0
            == Key::Unidentified,
        key_typing(a).0 == key_typing(b).0 && key_typing(a).0 != Key::Unidentified ==> key_typing(
            a,
        ).1 == key_typing(b).1,
{
}

/// A key event is told as it came: pressed, repeated or released, with the modifiers that are held
/// and the locks that are on, and shift with a back-tab.
pub proof fn key_events_are_told_as_they_came(event: KeyEvent)
    ensures
        request_for(event) is None <==> event.code == KeyCode::Other || (event.code matches KeyCode::F(
            n,
        ) && !(1 <= n <= 12)),
        request_for(event) matches Some(r) ==> {
            &&& r.action == event.kind
            &&& r.mods.alt == event.modifiers.alt
            &&& r.mods.ctrl == event.modifiers.control
            &&& r.mods.super_key == event.modifiers.super_key
            &&& r.mods.caps_lock == event.caps_lock
            &&& r.mods.num_lock == event.num_lock
            &&& event.code != KeyCode::BackTab ==> r.mods.shift == event.modifiers.shift
            &&& event.code == KeyCode::BackTab ==> r.mods.shift
            &&& event.code matches KeyCode::F(n) ==> r.key == Key::Function(n)
        },
{
}

/// Keys that type nothing are told apart, but for the two ways of the tab key.
pub proof fn other_keys_are_told_apart(a: KeyCode, b: KeyCode)
    requires
        !(a is Char),
        !(b is Char),
        a != KeyCode::BackTab,
        b != KeyCode::BackTab,
        key_of(a) is Some,
        key_of(a) == key_of(b),
    ensures
        a == b,
        (key_of(a)->0).1 is None,
{
}

/// No key both copies, cuts and deletes; each of them does so only with the modifiers for it, and
/// in upper and lower case alike.
pub proof fn edits_are_told_apart(key: KeyEvent)
    ensures
        !(copies(key) && cuts(key)),
        !(copies(key) && deletes(key)),
        !(cuts(key) && deletes(key)),
        deletes(key) ==> !key.modifiers.control && !key.modifiers.super_key && !key.modifiers.shift
            && !key.modifiers.alt,
        copies(key) || cuts(key) ==> (key.modifiers.control <==> !key.modifiers.super_key)
            && !key.modifiers.shift && !key.modifiers.alt,
{
}

/// A character above another on a key is typed by the key of the lower one, which is what the key
/// types without shift.
pub proof fn shifted_characters_are_on_their_keys(i: int)
    requires
        0 <= i < 21,
    ensures
        ({
            let upper = seq![
                ')', '!', '@', '#', '$', '%', '^', '&', '*', '(', '~', '|', '{', '}', '<', '+', '_',
                '>', '"', ':', '?',
            ];
            let lower = seq![
                '0', '1', '2', '3', '4', '5', '6', '7', '8', '9', '`', '\\', '[', ']', ',', '=',
                '-', '.', '\'', ';', '/',
            ];
            &&& key_typing(upper[i]) == key_typing(lower[i])
            &&& key_typing(lower[i]).1 == lower[i]
            &&& key_typing(lower[i]).0 != Key::Unidentified
        }),
{
}

/// The keys that type nothing are told by their own names.
pub proof fn named_keys_are_told(event: KeyEvent)
    ensures
        request_for(event) matches Some(r) ==> {
            &&& event.code == KeyCode::Left <==> r.key == Key::ArrowLeft
            &&& event.code == KeyCode::Right <==> r.key == Key::ArrowRight
            &&& event.code == KeyCode::Up <==> r.key == Key::ArrowUp
            &&& event.code == KeyCode::Down <==> r.key == Key::ArrowDown
            &&& event.code == KeyCode::Home <==> r.key == Key::Home
            &&& event.code == KeyCode::End <==> r.key == Key::End
            &&& event.code == KeyCode::PageUp <==> r.key == Key::PageUp
            &&& event.code == KeyCode::PageDown <==> r.key == Key::PageDown
            &&& event.code == KeyCode::Enter <==> r.key == Key::Enter
            &&& event.code == KeyCode::Esc <==> r.key == Key::Escape
            &&& event.code == KeyCode::Backspace <==> r.key == Key::Backspace
            &&& event.code == KeyCode::Delete <==> r.key == Key::Delete
            &&& event.code == KeyCode::Insert <==> r.key == Key::Insert
            &&& event.code == KeyCode::Tab || event.code == KeyCode::BackTab <==> r.key == Key::Tab
        },
{
}

/// The buttons are told by their own names, pressed, moved with or released alike, and the wheel by
/// the direction in which it turns.
pub proof fn buttons_are_told(kind: MouseEventKind)
    ensures
        kind matches MouseEventKind::Down(b) ==> action_of(kind).0 == MouseAction::Press
            && action_of(kind).1 == action_of(MouseEventKind::Up(b)).1 && action_of(kind).1
            == action_of(MouseEventKind::Drag(b)).1,
        kind is Drag || kind is Moved <==> action_of(kind).0 == MouseAction::Motion,
        action_of(kind).1 == Some(PointerButton::Left) <==> kind == MouseEventKind::Down(
            MouseButton::Left,
        ) || kind == MouseEventKind::Up(MouseButton::Left) || kind == MouseEventKind::Drag(
            MouseButton::Left,
        ),
        action_of(kind).1 == Some(PointerButton::Right) <==> kind == MouseEventKind::Down(
            MouseButton::Right,
        ) || kind == MouseEventKind::Up(MouseButton::Right) || kind == MouseEventKind::Drag(
            MouseButton::Right,
        ),
        action_of(kind).1 == Some(PointerButton::Four) <==> kind is ScrollUp,
        action_of(kind).1 == Some(PointerButton::Five) <==> kind is ScrollDown,
        action_of(kind).1 == Some(PointerButton::Six) <==> kind is ScrollLeft,
        action_of(kind).1 == Some(PointerButton::Seven) <==> kind is ScrollRight,
{
}

} // verus!
