use termul::history::{best_entries, recorded_command, search, suggest, HistoryRow};

fn row(cmdline: &str, cwd_match: bool, frecency: f64) -> HistoryRow {
    HistoryRow { cmdline: cmdline.to_string(), cwd_match, frecency: frecency.to_bits() }
}

#[test]
fn record_and_search() {
    // Two runs of one command count more than one run of another.
    let rows = vec![
        row("git status", true, 2.0),
        row("git commit", true, 1.0),
        row("cargo build", false, 1.0),
    ];

    let res = search(&rows, "", 10);
    assert!(!res.is_empty());
    assert_eq!(res[0].cmdline, "git status");
    assert!(res[0].cwd_match);

    let res = search(&rows, "gcom", 10);
    assert_eq!(res[0].cmdline, "git commit");

    let res = search(&rows, "zzzzz", 10);
    assert!(res.is_empty());
}

#[test]
fn suggest_contains() {
    let rows = vec![
        row("git status", true, 1.0),
        row("git stash", true, 1.0),
        row("cargo build", true, 1.0),
    ];

    let s = suggest(&rows, "status", 10);
    assert!(s.contains(&"git status".to_string()));

    let s = suggest(&rows, "GIT", 10);
    assert!(s.contains(&"git status".to_string()));
    assert!(s.contains(&"git stash".to_string()));
    assert!(!s.contains(&"cargo build".to_string()));

    let s = suggest(&rows, "git status", 10);
    assert!(!s.contains(&"git status".to_string()));

    assert!(suggest(&rows, "", 10).is_empty());
}

#[test]
fn offers_are_cut_off_and_in_their_order() {
    let rows = vec![
        row("a one", false, 3.0),
        row("a two", false, 5.0),
        row("a three", false, 4.0),
    ];
    assert_eq!(suggest(&rows, "a", 2), ["a two", "a three"]);
    let found: Vec<String> = search(&rows, "", 10).into_iter().map(|e| e.cmdline).collect();
    assert_eq!(found, ["a two", "a three", "a one"]);
}

#[test]
fn entries_with_the_better_score_come_first() {
    let rows = vec![row("x", false, 9.0), row("y", false, 1.0), row("z", false, 5.0)];
    let found: Vec<String> = best_entries(&rows, &[Some(1), Some(7), None], 10)
        .into_iter()
        .map(|e| e.cmdline)
        .collect();
    assert_eq!(found, ["y", "x"]);
}

#[test]
fn letters_beyond_ascii_are_compared_in_lower_case() {
    let rows = vec![row("echo ÄÖ", false, 1.0)];
    assert_eq!(suggest(&rows, "äö", 10), ["echo ÄÖ"]);
}

#[test]
fn blank_commands_are_not_recorded() {
    assert_eq!(recorded_command("  ls -l \n").as_deref(), Some("ls -l"));
    assert_eq!(recorded_command(" \t\n"), None);
    assert_eq!(recorded_command(""), None);
}
