use termul::shell::{is_zsh, join_path, session_env, ShellIntegration, ZSHENV};

fn integration() -> ShellIntegration {
    ShellIntegration { dir: "/tmp/termul-1".to_string() }
}

#[test]
fn shell_integration_env_only_for_zsh() {
    let integ = integration();
    let env = integ.env_for("/bin/zsh", 0, "/home/u");
    assert!(!env.is_empty());
    assert!(integ.env_for("/bin/bash", 0, "/home/u").is_empty());
    let zdot = &env.iter().find(|(k, _)| k == "ZDOTDIR").unwrap().1;
    assert_eq!(zdot, "/tmp/termul-1");
    let file: Vec<char> = ".zshenv".chars().collect();
    assert_eq!(join_path(zdot, &file), "/tmp/termul-1/.zshenv");
    let original = &env.iter().find(|(k, _)| k == "TERMUL_ORIG_ZDOTDIR").unwrap().1;
    assert_eq!(original, "/home/u");
}

#[test]
fn clears_zsh_autosuggestion_postdisplay_during_atomic_edit() {
    let script = ZSHENV;
    assert!(!script.contains("_ZSH_AUTOSUGGEST_DISABLED"));
    assert!(script.contains("POSTDISPLAY=''"));
}

#[test]
fn wraps_accept_line_to_keep_backslash_continuation_in_buffer() {
    let script = ZSHENV;
    assert!(script.contains("zle -A accept-line _termul_orig_accept_line"));
    assert!(script.contains("zle -N accept-line _termul_accept_line"));
}

#[test]
fn prepares_atomic_zle_edit_including_multiline_payload() {
    let integration = integration();
    let edit = integration.prepare_zle_edit(7, "echo hé", 4).unwrap();
    assert_eq!(edit.keys, b"\x1b[99~".to_vec());
    assert_eq!(edit.file, integration.edit_file(7));
    assert_eq!(edit.contents.as_bytes(), b"4\necho h\xc3\xa9");
    let edit = integration.prepare_zle_edit(7, "echo \\\n\tnext\n", 4).unwrap();
    assert_eq!(edit.keys, b"\x1b[99~".to_vec());
    assert_eq!(edit.contents.as_bytes(), b"4\necho \\\n\tnext\n");
    assert_eq!(integration.prepare_zle_edit(7, "echo", 5), None);
    assert_eq!(integration.prepare_zle_edit(7, "a\0b", 0), None);
}

#[test]
fn shells_by_their_path() {
    assert!(is_zsh("/usr/local/bin/zsh"));
    assert!(is_zsh("zsh"));
    assert!(!is_zsh("/bin/bash"));
}

#[test]
fn the_environment_of_a_shell() {
    let env = session_env("1.2.3", vec![("A".to_string(), "b".to_string())]);
    let pairs: Vec<(&str, &str)> = env.iter().map(|(k, v)| (k.as_str(), v.as_str())).collect();
    assert_eq!(
        pairs,
        [
            ("TERM", "xterm-256color"),
            ("COLORTERM", "truecolor"),
            ("TERM_PROGRAM", "termul"),
            ("TERM_PROGRAM_VERSION", "1.2.3"),
            ("A", "b"),
        ]
    );
}
