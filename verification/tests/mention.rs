use termul::mention::{
    accepted_path, build_excludes, find_excluded, find_matches, keep_paths,
    mention_scroll_to_selected, mention_token, replace_keys,
    shell_escape, sorted_paths, best_paths, FoundEntry, Mention, MentionToken,
};

fn entry(path: &str, is_dir: bool) -> FoundEntry {
    FoundEntry {
        path: path.to_string(),
        is_dir,
    }
}

#[test]
fn tim_token_tai_con_tro_giua_dong() {
    assert_eq!(
        mention_token("cat @src/main.rs --color", 11),
        Some(MentionToken {
            start: 4,
            end: 16,
            query: "src/ma".into(),
        })
    );
}

#[test]
fn escape_ky_tu_dac_biet_cua_shell() {
    assert_eq!(shell_escape("My Folder/a$b.txt"), "My\\ Folder/a\\$b.txt");
}

#[test]
fn them_tien_to_thu_muc_hien_tai_khi_accept() {
    assert_eq!(accepted_path("src/main.rs"), "./src/main.rs");
    assert_eq!(accepted_path(".env"), "./.env");
}

#[test]
fn quet_fuzzy_ton_trong_gitignore_nhung_giu_dotfile() {
    // What a walk hands out that leaves `.git` and the ignored files aside.
    let entries = vec![
        entry(".gitignore", false),
        entry(".visible", false),
        entry("debug.tmp", false),
        entry("src", true),
        entry("src/main.rs", false),
    ];
    let excludes = vec!["[".to_string(), "src/".to_string(), "*.tmp".to_string()];
    let all = find_matches(&entries, "", 20, &excludes);
    assert!(all.contains(&".visible".to_string()));
    assert!(!all.contains(&"ignored.txt".to_string()));
    assert!(!all.iter().any(|path| path.starts_with(".git/")));
    assert!(!all.iter().any(|path| path.starts_with("src/")));
    assert!(!all.contains(&"debug.tmp".to_string()));

    let no_excludes = Vec::new();
    assert_eq!(
        find_matches(&entries, "srcmn", 20, &no_excludes),
        vec!["src/main.rs"]
    );
}

#[test]
fn paths_without_a_query_come_in_order() {
    let entries = vec![
        entry("b", false),
        entry("a", true),
        entry("a.txt", false),
        entry("B", false),
    ];
    assert_eq!(
        find_matches(&entries, "", 20, &[]),
        vec!["B", "a.txt", "a/", "b"]
    );
    assert_eq!(find_matches(&entries, "", 2, &[]), vec!["B", "a.txt"]);
}

#[test]
fn exclude_rules_can_be_taken_back() {
    let entries = vec![entry("a.log", false), entry("keep.log", false)];
    let rules = vec!["# a comment".to_string(), "*.log".to_string(), "!keep.log".to_string()];
    assert_eq!(find_matches(&entries, "", 20, &rules), vec!["keep.log"]);
}

#[test]
fn better_scores_come_first_then_names() {
    let paths: Vec<Vec<char>> = ["x", "b", "a", "c"].iter().map(|s| s.chars().collect()).collect();
    let scores = vec![Some(1), Some(5), Some(5), None];
    assert_eq!(best_paths(&paths, &scores, 10), vec!["a", "b", "x"]);
    assert_eq!(best_paths(&paths, &scores, 1), vec!["a"]);
    assert_eq!(sorted_paths(&paths, 3), vec!["a", "b", "c"]);
}

#[test]
fn mentions_begin_a_word() {
    assert_eq!(mention_token("mail@host", 9), None);
    assert_eq!(mention_token("@a@b", 4), None);
    assert_eq!(mention_token("echo", 4), None);
    assert_eq!(
        mention_token("a|@x", 99),
        Some(MentionToken {
            start: 2,
            end: 4,
            query: "x".into()
        })
    );
    // Before the `@` there is no mention yet.
    assert_eq!(mention_token("cat @src", 4), None);
    assert_eq!(
        mention_token("cat @src", 5),
        Some(MentionToken {
            start: 4,
            end: 8,
            query: String::new()
        })
    );
}

#[test]
fn accepting_replaces_the_mention_only() {
    let keys = replace_keys("cat @ma -n", 4, 7, "a b").unwrap();
    assert_eq!(keys, b"\x01\x0bcat ./a\\ b -n\x1b[D\x1b[D\x1b[D".to_vec());
    assert_eq!(replace_keys("cat @ma", 4, 8, "x"), None);
    assert_eq!(replace_keys("cat @ma", 5, 4, "x"), None);
}

#[test]
fn escaping_can_be_undone() {
    let text = "a b\\c$(d)\u{e9}/.-_9";
    let escaped = shell_escape(text);
    let mut plain = String::new();
    let mut chars = escaped.chars();
    while let Some(c) = chars.next() {
        if c == '\\' {
            plain.push(chars.next().unwrap());
        } else {
            plain.push(c);
        }
    }
    assert_eq!(plain, text);
}

#[test]
fn scrolling_follows_the_selected_path() {
    let mut mention = Mention {
        token_start: 0,
        token_end: 1,
        matches: (0..20).map(|i| i.to_string()).collect(),
        selected: 12,
        offset: 0,
    };
    mention_scroll_to_selected(&mut mention, 10);
    assert_eq!(mention.offset, 3);
    mention.selected = 1;
    mention_scroll_to_selected(&mut mention, 10);
    assert_eq!(mention.offset, 1);
    mention.selected = 5;
    mention_scroll_to_selected(&mut mention, 10);
    assert_eq!(mention.offset, 1);
}

#[test]
fn excluded_entries_are_left_out() {
    let entries = vec![entry("a.rs", false), entry("out", true), entry("src", true)];
    let kept: Vec<String> = keep_paths(&entries, &[false, true, false])
        .into_iter()
        .map(|path| path.into_iter().collect())
        .collect();
    assert_eq!(kept, ["a.rs", "src/"]);
    let rules = build_excludes(&["*.rs".to_string(), "# note".to_string(), "!a.rs".to_string()]);
    assert_eq!(find_excluded(&entries, &rules), [false, false, false]);
    let rules = build_excludes(&["*.rs".to_string(), "out/".to_string()]);
    assert_eq!(find_excluded(&entries, &rules), [true, true, false]);
    assert_eq!(find_excluded(&entries, &None), [false, false, false]);
}
