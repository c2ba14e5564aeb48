use termul::color::Color;
use termul::config::{
    first_char, parse_bind, parse_code, parse_color, Config, FileAdvanced, FileAppearance,
    FileBehavior, FileConfig, FileKeys, FileMention, DEFAULT_SCROLLBACK_LIMIT_BYTES, SUGGEST_FETCH,
    SUGGEST_MAX_VISIBLE, TAB_MIN_W,
};
use termul::keys::{KeyCode, KeyModifiers};

fn text(table: &toml::Table, section: &str, key: &str) -> Option<String> {
    table.get(section)?.get(key)?.as_str().map(|s| s.to_string())
}

fn number(table: &toml::Table, section: &str, key: &str) -> Option<usize> {
    table.get(section)?.get(key)?.as_integer().map(|n| n as usize)
}

/// The settings in the text of a file.
fn read(source: &str) -> FileConfig {
    let table: toml::Table = toml::from_str(source).unwrap();
    FileConfig {
        appearance: FileAppearance {
            bg: text(&table, "appearance", "bg"),
            accent: text(&table, "appearance", "accent"),
            green: text(&table, "appearance", "green"),
            blue: text(&table, "appearance", "blue"),
            red: text(&table, "appearance", "red"),
            yellow: text(&table, "appearance", "yellow"),
            tab_min_width: number(&table, "appearance", "tab_min_width").map(|n| n as u16),
        },
        behavior: FileBehavior {
            suggest_max_visible: number(&table, "behavior", "suggest_max_visible"),
            suggest_fetch: number(&table, "behavior", "suggest_fetch"),
        },
        mention: FileMention {
            exclude: table
                .get("mention")
                .and_then(|m| m.get("exclude"))
                .and_then(|e| e.as_array())
                .map(|a| a.iter().map(|v| v.as_str().unwrap().to_string()).collect())
                .unwrap_or_default(),
        },
        advanced: FileAdvanced {
            scrollback_limit_bytes: number(&table, "advanced", "scrollback_limit_bytes"),
        },
        keys: FileKeys {
            prefix: text(&table, "keys", "prefix"),
            quit: text(&table, "keys", "quit"),
            split_right: text(&table, "keys", "split_right"),
            ..FileKeys::default()
        },
    }
}

#[test]
fn parses_color_hex() {
    assert_eq!(parse_color("#cba6f7"), Some(Color::Rgb(203, 166, 247)));
    assert_eq!(parse_color("00d7ff"), Some(Color::Rgb(0, 215, 255)));
    assert_eq!(parse_color("#xyz"), None);
}

#[test]
fn colours_that_are_no_colours() {
    assert_eq!(parse_color(""), None);
    assert_eq!(parse_color("#12345"), None);
    assert_eq!(parse_color("#1234567"), None);
    assert_eq!(parse_color("#12345é"), None);
}

#[test]
fn parses_keybind() {
    assert_eq!(parse_bind("ctrl+`"), Some((KeyModifiers::control(), KeyCode::Char('`'))));
    assert_eq!(parse_bind("q"), Some((KeyModifiers::none(), KeyCode::Char('q'))));
    assert_eq!(
        parse_bind("alt+enter"),
        Some((KeyModifiers { alt: true, ..KeyModifiers::none() }, KeyCode::Enter))
    );
    assert_eq!(parse_bind("bogus+b"), None);
}

#[test]
fn keys_by_their_names() {
    let code = |s: &str| parse_code(&s.chars().collect::<Vec<char>>());
    assert_eq!(code("esc"), Some(KeyCode::Esc));
    assert_eq!(code("x"), Some(KeyCode::Char('x')));
    assert_eq!(code("xy"), None);
}

#[test]
fn default_prefix_is_ctrl_backtick() {
    assert_eq!(Config::default().keys.prefix, (KeyModifiers::control(), KeyCode::Char('`')));
}

#[test]
fn file_overrides_merge_onto_defaults() {
    let fc = read(
        r##"
            [appearance]
            accent = "#ff0000"
            green = "#00ff00"
            [behavior]
            suggest_max_visible = 5
            [mention]
            exclude = ["target/", "*.log"]
            [advanced]
            scrollback_limit_bytes = 20000000
            [keys]
            prefix = "ctrl+a"
        "##,
    );
    let cfg = fc.resolve();
    assert_eq!(cfg.accent, Color::Rgb(255, 0, 0));
    assert_eq!(cfg.green, Color::Rgb(0, 255, 0));
    assert_eq!(cfg.suggest_max_visible, 5);
    assert_eq!(cfg.mention_exclude, ["target/", "*.log"]);
    assert_eq!(cfg.scrollback_limit_bytes, 20_000_000);
    assert_eq!(cfg.keys.prefix, (KeyModifiers::control(), KeyCode::Char('a')));
    assert_eq!(cfg.blue, Color::Rgb(137, 180, 250));
    assert_eq!(cfg.bg, Color::Rgb(40, 42, 54));
    assert_eq!(cfg.suggest_fetch, SUGGEST_FETCH);
    assert_eq!(cfg.keys.close_pane, 'x');
}

#[test]
fn scrollback_limit_defaults_to_ten_megabytes() {
    assert_eq!(Config::default().scrollback_limit_bytes, DEFAULT_SCROLLBACK_LIMIT_BYTES);
    assert_eq!(DEFAULT_SCROLLBACK_LIMIT_BYTES, 10_000_000);
}

#[test]
fn settings_that_cannot_be_read_are_left_out() {
    let cfg = read("[appearance]\naccent = \"red\"\n[keys]\nprefix = \"hyper+meta\"\n").resolve();
    assert_eq!(cfg.accent, Config::default().accent);
    assert_eq!(cfg.keys.prefix, Config::default().keys.prefix);
    let cfg = FileConfig::default().resolve();
    assert_eq!(cfg.suggest_max_visible, SUGGEST_MAX_VISIBLE);
    assert_eq!(cfg.tab_min_width, TAB_MIN_W);
}

#[test]
fn keys_of_one_character() {
    assert_eq!(first_char(Some("né".to_string())), Some('n'));
    assert_eq!(first_char(Some(String::new())), None);
    assert_eq!(first_char(None), None);
}
