//! The settings of the user.

use crate::color::Color;
use crate::keys::{KeyCode, KeyModifiers};
use crate::text;
use vstd::prelude::*;

verus! {

/// The bytes that a pane keeps of what has scrolled out of sight, unless set otherwise.
pub const DEFAULT_SCROLLBACK_LIMIT_BYTES: usize = 10_000_000;

/// The least width of a tab.
pub const TAB_MIN_W: u16 = 8;

/// The most lines that a popup shows.
pub const SUGGEST_MAX_VISIBLE: usize = 10;

/// The most suggestions that are fetched.
pub const SUGGEST_FETCH: usize = 50;

/// A key with its modifiers.
pub type KeyBind = (KeyModifiers, KeyCode);

/// The keys that do something.
#[derive(Debug, Clone, Copy)]
pub struct Keymap {
    /// Makes the next key a command.
    pub prefix: KeyBind,
    /// Quits at once.
    pub quit: KeyBind,
    pub split_right: char,
    pub split_down: char,
    pub close_pane: char,
    pub tab_new: char,
    pub tab_next: char,
    pub tab_prev: char,
    pub tab_rename: char,
    pub tab_close: char,
    pub palette: char,
    pub quit_action: char,
}

/// The settings.
#[derive(Debug)]
pub struct Config {
    /// The background of popups, and of the active tab.
    pub bg: Color,
    /// Borders, and what is selected.
    pub accent: Color,
    /// Commands of the current directory.
    pub green: Color,
    /// The border of the pane with the focus.
    pub blue: Color,
    /// Questions before something is lost.
    pub red: Color,
    /// The signs that a list goes on.
    pub yellow: Color,
    pub tab_min_width: u16,
    pub suggest_max_visible: usize,
    pub suggest_fetch: usize,
    pub mention_exclude: Vec<String>,
    pub scrollback_limit_bytes: usize,
    pub keys: Keymap,
}

/// The keys, unless set otherwise.
pub open spec fn default_keys() -> Keymap {
    Keymap {
        prefix: (KeyModifiers::only_control(), KeyCode::Char('`')),
        quit: (KeyModifiers::only_control(), KeyCode::Char('q')),
        split_right: '%',
        split_down: '"',
        close_pane: 'x',
        tab_new: 'c',
        tab_next: 'n',
        tab_prev: 'p',
        tab_rename: ',',
        tab_close: '&',
        palette: 'r',
        quit_action: 'q',
    }
}

impl Default for Config {
    fn default() -> (r: Self)
        ensures
            r.bg == Color::Rgb(40, 42, 54),
            r.accent == Color::Rgb(203, 166, 247),
            r.green == Color::Rgb(166, 227, 161),
            r.blue == Color::Rgb(137, 180, 250),
            r.red == Color::Rgb(243, 139, 168),
            r.yellow == Color::Rgb(249, 226, 175),
            r.tab_min_width == TAB_MIN_W,
            r.suggest_max_visible == SUGGEST_MAX_VISIBLE,
            r.suggest_fetch == SUGGEST_FETCH,
            r.mention_exclude@.len() == 0,
            r.scrollback_limit_bytes == DEFAULT_SCROLLBACK_LIMIT_BYTES,
            r.keys == default_keys(),
    {
        Config {
            bg: Color::Rgb(40, 42, 54),
            accent: Color::Rgb(203, 166, 247),
            green: Color::Rgb(166, 227, 161),
            blue: Color::Rgb(137, 180, 250),
            red: Color::Rgb(243, 139, 168),
            yellow: Color::Rgb(249, 226, 175),
            tab_min_width: TAB_MIN_W,
            suggest_max_visible: SUGGEST_MAX_VISIBLE,
            suggest_fetch: SUGGEST_FETCH,
            mention_exclude: Vec::new(),
            scrollback_limit_bytes: DEFAULT_SCROLLBACK_LIMIT_BYTES,
            keys: Keymap {
                prefix: (KeyModifiers::control(), KeyCode::Char('`')),
                quit: (KeyModifiers::control(), KeyCode::Char('q')),
                split_right: '%',
                split_down: '"',
                close_pane: 'x',
                tab_new: 'c',
                tab_next: 'n',
                tab_prev: 'p',
                tab_rename: ',',
                tab_close: '&',
                palette: 'r',
                quit_action: 'q',
            },
        }
    }
}

/// The `[appearance]` part of the settings file.
#[derive(Debug, Default)]
pub struct FileAppearance {
    pub bg: Option<String>,
    pub accent: Option<String>,
    pub green: Option<String>,
    pub blue: Option<String>,
    pub red: Option<String>,
    pub yellow: Option<String>,
    pub tab_min_width: Option<u16>,
}

/// The `[behavior]` part of the settings file.
#[derive(Debug, Default)]
pub struct FileBehavior {
    pub suggest_max_visible: Option<usize>,
    pub suggest_fetch: Option<usize>,
}

/// The `[mention]` part of the settings file.
#[derive(Debug, Default)]
pub struct FileMention {
    pub exclude: Vec<String>,
}

/// The `[advanced]` part of the settings file.
#[derive(Debug, Default)]
pub struct FileAdvanced {
    pub scrollback_limit_bytes: Option<usize>,
}

/// The `[keys]` part of the settings file.
#[derive(Debug, Default)]
pub struct FileKeys {
    pub prefix: Option<String>,
    pub quit: Option<String>,
    pub split_right: Option<String>,
    pub split_down: Option<String>,
    pub close_pane: Option<String>,
    pub tab_new: Option<String>,
    pub tab_next: Option<String>,
    pub tab_prev: Option<String>,
    pub tab_rename: Option<String>,
    pub tab_close: Option<String>,
    pub palette: Option<String>,
    pub quit_action: Option<String>,
}

/// The settings file: what it does not set keeps its default.
#[derive(Debug, Default)]
pub struct FileConfig {
    pub appearance: FileAppearance,
    pub behavior: FileBehavior,
    pub mention: FileMention,
    pub advanced: FileAdvanced,
    pub keys: FileKeys,
}

/// A colour written `#rrggbb` or `rrggbb`, with white space around it.
pub open spec fn color_in(s: Seq<char>) -> Option<Color> {
    let hex = without_hashes(text::trimmed(s));
    if hex.len() == 6 {
        match (
            text::parsed_unsigned(hex.subrange(0, 2), 16, 255),
            text::parsed_unsigned(hex.subrange(2, 4), 16, 255),
            text::parsed_unsigned(hex.subrange(4, 6), 16, 255),
        ) {
            (Some(r), Some(g), Some(b)) => Some(Color::Rgb(r as u8, g as u8, b as u8)),
            _ => None,
        }
    } else {
        None
    }
}

/// The text without the `#` at its start.
pub open spec fn without_hashes(s: Seq<char>) -> Seq<char>
    decreases s.len(),
{
    if s.len() > 0 && s[0] == '#' {
        without_hashes(s.skip(1))
    } else {
        s
    }
}

/// Reads a colour.
pub fn parse_color(s: &str) -> (r: Option<Color>)
    ensures
        r == color_in(s@),
{
    let chars = text::chars_of(s);
    let trimmed = text::trim(&chars);
    let n: usize = trimmed.len();
    let mut i: usize = 0;
    assert(trimmed@.skip(0) =~= trimmed@);
    while i < n && trimmed[i] == '#'
        invariant
            i <= n,
            n == trimmed@.len(),
            without_hashes(trimmed@) == without_hashes(trimmed@.skip(i as int)),
        decreases n - i,
    {
        assert(trimmed@.skip(i as int).skip(1) =~= trimmed@.skip(i + 1));
        i = i + 1;
    }
    let hex = text::part(&trimmed, i, n);
    assert(hex@ =~= trimmed@.skip(i as int));
    if hex.len() != 6 {
        return None;
    }
    let r = text::part(&hex, 0, 2);
    let g = text::part(&hex, 2, 4);
    let b = text::part(&hex, 4, 6);
    match (
        text::parse_unsigned(&r, 16, 255),
        text::parse_unsigned(&g, 16, 255),
        text::parse_unsigned(&b, 16, 255),
    ) {
        (Some(r), Some(g), Some(b)) => Some(Color::Rgb(r as u8, g as u8, b as u8)),
        _ => None,
    }
}

/// The modifiers with the one of this name, which is in lower case.
pub open spec fn with_modifier(mods: KeyModifiers, name: Seq<char>) -> Option<KeyModifiers> {
    if name == "ctrl"@ || name == "control"@ {
        Some(KeyModifiers { control: true, ..mods })
    } else if name == "alt"@ || name == "option"@ {
        Some(KeyModifiers { alt: true, ..mods })
    } else if name == "shift"@ {
        Some(KeyModifiers { shift: true, ..mods })
    } else {
        None
    }
}

/// Adds the modifier of a name in lower case.
pub fn add_modifier(mods: KeyModifiers, name: &str) -> (r: Option<KeyModifiers>)
    ensures
        r == with_modifier(mods, name@),
{
    let name = text::chars_of(name);
    if text::is_text(&name, "ctrl") || text::is_text(&name, "control") {
        Some(KeyModifiers { control: true, ..mods })
    } else if text::is_text(&name, "alt") || text::is_text(&name, "option") {
        Some(KeyModifiers { alt: true, ..mods })
    } else if text::is_text(&name, "shift") {
        Some(KeyModifiers { shift: true, ..mods })
    } else {
        None
    }
}

/// The key of a name in lower case.
pub open spec fn named_key(name: Seq<char>) -> Option<KeyCode> {
    if name == "enter"@ {
        Some(KeyCode::Enter)
    } else if name == "tab"@ {
        Some(KeyCode::Tab)
    } else if name == "esc"@ || name == "escape"@ {
        Some(KeyCode::Esc)
    } else if name == "space"@ {
        Some(KeyCode::Char(' '))
    } else if name == "left"@ {
        Some(KeyCode::Left)
    } else if name == "right"@ {
        Some(KeyCode::Right)
    } else if name == "up"@ {
        Some(KeyCode::Up)
    } else if name == "down"@ {
        Some(KeyCode::Down)
    } else {
        None
    }
}

/// The key of a name in lower case.
pub fn key_named(name: &str) -> (r: Option<KeyCode>)
    ensures
        r == named_key(name@),
{
    let name = text::chars_of(name);
    if text::is_text(&name, "enter") {
        Some(KeyCode::Enter)
    } else if text::is_text(&name, "tab") {
        Some(KeyCode::Tab)
    } else if text::is_text(&name, "esc") || text::is_text(&name, "escape") {
        Some(KeyCode::Esc)
    } else if text::is_text(&name, "space") {
        Some(KeyCode::Char(' '))
    } else if text::is_text(&name, "left") {
        Some(KeyCode::Left)
    } else if text::is_text(&name, "right") {
        Some(KeyCode::Right)
    } else if text::is_text(&name, "up") {
        Some(KeyCode::Up)
    } else if text::is_text(&name, "down") {
        Some(KeyCode::Down)
    } else {
        None
    }
}

/// The key of a text: a character, or the name of a key in upper or lower case.
pub open spec fn code_in(s: Seq<char>) -> Option<KeyCode> {
    if s.len() == 0 {
        None
    } else if s.len() == 1 {
        Some(KeyCode::Char(s[0]))
    } else {
        named_key(text::lowercase(s))
    }
}

/// Reads a key.
pub fn parse_code(s: &[char]) -> (r: Option<KeyCode>)
    ensures
        r == code_in(s@),
{
    if s.len() == 0 {
        None
    } else if s.len() == 1 {
        Some(KeyCode::Char(s[0]))
    } else {
        let name = text::string_of(s);
        let lower = text::to_lowercase(name.as_str());
        key_named(lower.as_str())
    }
}

/// The modifiers that the first `n` parts name.
pub open spec fn modifiers_in(parts: Seq<Seq<char>>, n: int) -> Option<KeyModifiers>
    decreases n,
{
    if n <= 0 {
        Some(KeyModifiers::no_modifiers())
    } else {
        match modifiers_in(parts, n - 1) {
            Some(mods) => with_modifier(mods, text::lowercase(text::trimmed(parts[n - 1]))),
            None => None,
        }
    }
}

/// A key with modifiers: names between `+`, the key last, with white space around them.
pub open spec fn bind_in(s: Seq<char>) -> Option<KeyBind> {
    let parts = text::fields(s, '+');
    let last = parts.len() - 1;
    match (modifiers_in(parts, last), code_in(text::trimmed(parts[last]))) {
        (Some(mods), Some(code)) => Some((mods, code)),
        _ => None,
    }
}

/// Reads a key with modifiers.
pub fn parse_bind(s: &str) -> (r: Option<KeyBind>)
    ensures
        r == bind_in(s@),
{
    let chars = text::chars_of(s);
    let parts = text::split(&chars, '+');
    let ghost fields = text::fields(s@, '+');
    assert(fields == text::views(parts@));
    let last: usize = parts.len() - 1;
    let mut mods = KeyModifiers::none();
    let mut i: usize = 0;
    while i < last
        invariant
            i <= last,
            last == parts@.len() - 1,
            fields == text::views(parts@),
            fields == text::fields(s@, '+'),
            modifiers_in(fields, i as int) == Some(mods),
        decreases last - i,
    {
        assert(fields[i as int] == parts@[i as int]@);
        let part = text::trim(&parts[i]);
        let name = text::string_of(&part);
        let lower = text::to_lowercase(name.as_str());
        match add_modifier(mods, lower.as_str()) {
            Some(more) => {
                mods = more;
            },
            None => {
                proof {
                    no_modifiers_beyond(fields, i + 1, last as int);
                }
                return None;
            },
        }
        i = i + 1;
    }
    assert(fields[last as int] == parts@[last as int]@);
    let key = text::trim(&parts[last]);
    match parse_code(&key) {
        Some(code) => Some((mods, code)),
        None => None,
    }
}

proof fn no_modifiers_beyond(parts: Seq<Seq<char>>, i: int, n: int)
    requires
        modifiers_in(parts, i) is None,
        0 <= i <= n,
    ensures
        modifiers_in(parts, n) is None,
    decreases n,
{
    if i < n {
        no_modifiers_beyond(parts, i, n - 1);
    }
}

/// Whether a key event is the key.
pub fn key_matches(code: KeyCode, mods: KeyModifiers, bind: KeyBind) -> (r: bool)
    ensures
        r == (bind == (mods, code)),
{
    code == bind.1 && mods == bind.0
}

/// The first character of a text that is set.
pub open spec fn first_of(s: Option<String>) -> Option<char> {
    match s {
        Some(t) => if t@.len() > 0 {
            Some(t@[0])
        } else {
            None
        },
        None => None,
    }
}

/// The first character of a text that is set.
pub fn first_char(s: Option<String>) -> (r: Option<char>)
    ensures
        r == first_of(s),
{
    match s {
        Some(t) => {
            let chars = text::chars_of(t.as_str());
            if chars.len() > 0 {
                Some(chars[0])
            } else {
                None
            }
        },
        None => None,
    }
}

/// The value where there is one, else the default.
pub open spec fn set_or<T>(value: Option<T>, default: T) -> T {
    match value {
        Some(v) => v,
        None => default,
    }
}

pub open spec fn color_or(value: Option<String>, default: Color) -> Color {
    match value {
        Some(s) => set_or(color_in(s@), default),
        None => default,
    }
}

pub open spec fn bind_or(value: Option<String>, default: KeyBind) -> KeyBind {
    match value {
        Some(s) => set_or(bind_in(s@), default),
        None => default,
    }
}

fn read_color(value: Option<String>, default: Color) -> (r: Color)
    ensures
        r == color_or(value, default),
{
    match value {
        Some(s) => match parse_color(s.as_str()) {
            Some(color) => color,
            None => default,
        },
        None => default,
    }
}

fn read_bind(value: Option<String>, default: KeyBind) -> (r: KeyBind)
    ensures
        r == bind_or(value, default),
{
    match value {
        Some(s) => match parse_bind(s.as_str()) {
            Some(bind) => bind,
            None => default,
        },
        None => default,
    }
}

/// The settings that the file gives: what is missing in it, or cannot be read, keeps its default.
pub open spec fn settings_of(file: FileConfig) -> Config {
    let a = file.appearance;
    let b = file.behavior;
    let k = file.keys;
    let d = default_keys();
    Config {
        bg: color_or(a.bg, Color::Rgb(40, 42, 54)),
        accent: color_or(a.accent, Color::Rgb(203, 166, 247)),
        green: color_or(a.green, Color::Rgb(166, 227, 161)),
        blue: color_or(a.blue, Color::Rgb(137, 180, 250)),
        red: color_or(a.red, Color::Rgb(243, 139, 168)),
        yellow: color_or(a.yellow, Color::Rgb(249, 226, 175)),
        tab_min_width: set_or(a.tab_min_width, TAB_MIN_W),
        suggest_max_visible: set_or(b.suggest_max_visible, SUGGEST_MAX_VISIBLE),
        suggest_fetch: set_or(b.suggest_fetch, SUGGEST_FETCH),
        mention_exclude: file.mention.exclude,
        scrollback_limit_bytes: set_or(
            file.advanced.scrollback_limit_bytes,
            DEFAULT_SCROLLBACK_LIMIT_BYTES,
        ),
        keys: Keymap {
            prefix: bind_or(k.prefix, d.prefix),
            quit: bind_or(k.quit, d.quit),
            split_right: set_or(first_of(k.split_right), d.split_right),
            split_down: set_or(first_of(k.split_down), d.split_down),
            close_pane: set_or(first_of(k.close_pane), d.close_pane),
            tab_new: set_or(first_of(k.tab_new), d.tab_new),
            tab_next: set_or(first_of(k.tab_next), d.tab_next),
            tab_prev: set_or(first_of(k.tab_prev), d.tab_prev),
            tab_rename: set_or(first_of(k.tab_rename), d.tab_rename),
            tab_close: set_or(first_of(k.tab_close), d.tab_close),
            palette: set_or(first_of(k.palette), d.palette),
            quit_action: set_or(first_of(k.quit_action), d.quit_action),
        },
    }
}

impl FileConfig {
    /// The settings that the file gives.
    pub fn resolve(self) -> (r: Config)
        ensures
            r == settings_of(self),
    {
        let d = Config::default();
        let a = self.appearance;
        let b = self.behavior;
        let k = self.keys;
        Config {
            bg: read_color(a.bg, d.bg),
            accent: read_color(a.accent, d.accent),
            green: read_color(a.green, d.green),
            blue: read_color(a.blue, d.blue),
            red: read_color(a.red, d.red),
            yellow: read_color(a.yellow, d.yellow),
            tab_min_width: a.tab_min_width.unwrap_or(d.tab_min_width),
            suggest_max_visible: b.suggest_max_visible.unwrap_or(d.suggest_max_visible),
            suggest_fetch: b.suggest_fetch.unwrap_or(d.suggest_fetch),
            mention_exclude: self.mention.exclude,
            scrollback_limit_bytes: self.advanced.scrollback_limit_bytes.unwrap_or(
                d.scrollback_limit_bytes,
            ),
            keys: Keymap {
                prefix: read_bind(k.prefix, d.keys.prefix),
                quit: read_bind(k.quit, d.keys.quit),
                split_right: first_char(k.split_right).unwrap_or(d.keys.split_right),
                split_down: first_char(k.split_down).unwrap_or(d.keys.split_down),
                close_pane: first_char(k.close_pane).unwrap_or(d.keys.close_pane),
                tab_new: first_char(k.tab_new).unwrap_or(d.keys.tab_new),
                tab_next: first_char(k.tab_next).unwrap_or(d.keys.tab_next),
                tab_prev: first_char(k.tab_prev).unwrap_or(d.keys.tab_prev),
                tab_rename: first_char(k.tab_rename).unwrap_or(d.keys.tab_rename),
                tab_close: first_char(k.tab_close).unwrap_or(d.keys.tab_close),
                palette: first_char(k.palette).unwrap_or(d.keys.palette),
                quit_action: first_char(k.quit_action).unwrap_or(d.keys.quit_action),
            },
        }
    }
}

/// A colour of six hexadecimal digits is read as the three bytes that they write, with or without a
/// `#` before it.
pub proof fn colours_are_read(a: char, b: char, c: char, d: char, e: char, f: char)
    requires
        text::digit_value(a, 16) >= 0,
        text::digit_value(b, 16) >= 0,
        text::digit_value(c, 16) >= 0,
        text::digit_value(d, 16) >= 0,
        text::digit_value(e, 16) >= 0,
        text::digit_value(f, 16) >= 0,
    ensures
        ({
            let color = Some(
                Color::Rgb(
                    (16 * text::digit_value(a, 16) + text::digit_value(b, 16)) as u8,
                    (16 * text::digit_value(c, 16) + text::digit_value(d, 16)) as u8,
                    (16 * text::digit_value(e, 16) + text::digit_value(f, 16)) as u8,
                ),
            );
            &&& color_in(seq![a, b, c, d, e, f]) == color
            &&& color_in(seq!['#', a, b, c, d, e, f]) == color
        }),
{
    let hex = seq![a, b, c, d, e, f];
    let with = seq!['#', a, b, c, d, e, f];
    text::hex_pairs_are_read(a, b);
    text::hex_pairs_are_read(c, d);
    text::hex_pairs_are_read(e, f);
    assert(hex.subrange(0, 2) =~= seq![a, b]);
    assert(hex.subrange(2, 4) =~= seq![c, d]);
    assert(hex.subrange(4, 6) =~= seq![e, f]);
    assert(with.skip(1) =~= hex);
    reveal_with_fuel(without_hashes, 3);
    assert(without_hashes(hex) == hex);
    assert(without_hashes(with) == hex);
    assert(text::trimmed(hex) == hex);
    assert(text::trimmed(with) == with);
}

/// A single character is the key of that character, without modifiers.
pub proof fn characters_are_keys(c: char)
    requires
        c != '+',
        !text::is_space(c),
    ensures
        bind_in(seq![c]) == Some((KeyModifiers::no_modifiers(), KeyCode::Char(c))),
{
    let s = seq![c];
    assert(!s.contains('+')) by {
        if s.contains('+') {
            let i = choose|i: int| 0 <= i < s.len() && s[i] == '+';
        }
    }
    text::index_of_is_first(s, '+');
    assert(text::index_of(s, '+') == 1) by {
        if text::index_of(s, '+') < 1 {
            assert(s.contains(s[text::index_of(s, '+')]));
        }
    }
    let parts = text::fields(s, '+');
    assert(parts == seq![s]);
    assert(parts[0] == s);
    assert(text::trimmed(s) == s);
    assert(modifiers_in(parts, 0) == Some(KeyModifiers::no_modifiers()));
}

/// A modifier named before a key is held with it, and changes neither the key nor the others.
pub proof fn modifiers_are_held(mods: KeyModifiers, name: Seq<char>)
    ensures
        with_modifier(mods, name) matches Some(held) ==> {
            &&& held.control == (mods.control || name == "ctrl"@ || name == "control"@)
            &&& held.alt == (mods.alt || name == "alt"@ || name == "option"@)
            &&& held.shift == (mods.shift || name == "shift"@)
            &&& held.super_key == mods.super_key
            &&& held.hyper == mods.hyper
            &&& held.meta == mods.meta
        },
{
    reveal_strlit("ctrl");
    reveal_strlit("control");
    reveal_strlit("alt");
    reveal_strlit("option");
    reveal_strlit("shift");
    assert("ctrl"@[0] == 'c' && "control"@[0] == 'c' && "alt"@[0] == 'a' && "option"@[0] == 'o'
        && "shift"@[0] == 's');
}

/// A setting that is missing, or cannot be read, is the default one, and no setting changes another:
/// files that agree in one setting give the same there.
pub proof fn settings_do_not_mix(f: FileConfig, g: FileConfig)
    ensures
        f.appearance.bg == g.appearance.bg ==> settings_of(f).bg == settings_of(g).bg,
        f.appearance.accent == g.appearance.accent ==> settings_of(f).accent == settings_of(
            g,
        ).accent,
        f.appearance.green == g.appearance.green ==> settings_of(f).green == settings_of(g).green,
        f.appearance.blue == g.appearance.blue ==> settings_of(f).blue == settings_of(g).blue,
        f.appearance.red == g.appearance.red ==> settings_of(f).red == settings_of(g).red,
        f.appearance.yellow == g.appearance.yellow ==> settings_of(f).yellow == settings_of(
            g,
        ).yellow,
        f.keys.prefix == g.keys.prefix ==> settings_of(f).keys.prefix == settings_of(
            g,
        ).keys.prefix,
        f.keys.quit == g.keys.quit ==> settings_of(f).keys.quit == settings_of(g).keys.quit,
        f.appearance.tab_min_width matches Some(w) ==> settings_of(f).tab_min_width == w,
        f.behavior.suggest_max_visible matches Some(n) ==> settings_of(f).suggest_max_visible == n,
        f.behavior.suggest_fetch matches Some(n) ==> settings_of(f).suggest_fetch == n,
        f.advanced.scrollback_limit_bytes matches Some(n) ==> settings_of(f).scrollback_limit_bytes
            == n,
        f.mention.exclude == settings_of(f).mention_exclude,
        f.keys.split_right matches Some(s) ==> (s@.len() > 0 ==> settings_of(f).keys.split_right == s@[0]),
        f.keys.split_down matches Some(s) ==> (s@.len() > 0 ==> settings_of(f).keys.split_down == s@[0]),
        f.keys.close_pane matches Some(s) ==> (s@.len() > 0 ==> settings_of(f).keys.close_pane == s@[0]),
        f.keys.tab_new matches Some(s) ==> (s@.len() > 0 ==> settings_of(f).keys.tab_new == s@[0]),
        f.keys.tab_next matches Some(s) ==> (s@.len() > 0 ==> settings_of(f).keys.tab_next == s@[0]),
        f.keys.tab_prev matches Some(s) ==> (s@.len() > 0 ==> settings_of(f).keys.tab_prev == s@[0]),
        f.keys.tab_rename matches Some(s) ==> (s@.len() > 0 ==> settings_of(f).keys.tab_rename == s@[0]),
        f.keys.tab_close matches Some(s) ==> (s@.len() > 0 ==> settings_of(f).keys.tab_close == s@[0]),
        f.keys.palette matches Some(s) ==> (s@.len() > 0 ==> settings_of(f).keys.palette == s@[0]),
        f.keys.quit_action matches Some(s) ==> (s@.len() > 0 ==> settings_of(f).keys.quit_action == s@[0]),
        f.appearance.bg matches Some(s) ==> (color_in(s@) matches Some(c) ==> settings_of(f).bg
            == c),
        f.appearance.accent matches Some(s) ==> (color_in(s@) matches Some(c) ==> settings_of(
            f,
        ).accent == c),
        f.appearance.green matches Some(s) ==> (color_in(s@) matches Some(c) ==> settings_of(
            f,
        ).green == c),
        f.appearance.blue matches Some(s) ==> (color_in(s@) matches Some(c) ==> settings_of(f).blue
            == c),
        f.appearance.red matches Some(s) ==> (color_in(s@) matches Some(c) ==> settings_of(f).red
            == c),
        f.appearance.yellow matches Some(s) ==> (color_in(s@) matches Some(c) ==> settings_of(
            f,
        ).yellow == c),
        f.keys.prefix matches Some(s) ==> (bind_in(s@) matches Some(k) ==> settings_of(
            f,
        ).keys.prefix == k),
        f.keys.quit matches Some(s) ==> (bind_in(s@) matches Some(k) ==> settings_of(f).keys.quit
            == k),
{
}

} // verus!
