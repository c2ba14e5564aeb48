//! Mentions: `@query` in the input line offers the files below the current directory, and is
//! replaced by the path that is picked.

use crate::rank;
use crate::text;
use ignore::gitignore::{Gitignore, GitignoreBuilder};
use vstd::prelude::*;
use vstd::utf8;

verus! {

/// The most paths that are offered.
pub const MAX_MATCHES: usize = 100;

/// A mention in the input line: its characters, the `@` included, and the query between the `@`
/// and the cursor.
#[derive(Debug, PartialEq, Eq)]
pub struct MentionToken {
    pub start: usize,
    pub end: usize,
    pub query: String,
}

/// The characters between which a mention stands.
pub open spec fn separates(c: char) -> bool {
    text::is_space(c) || c == '|' || c == '&' || c == ';' || c == '<' || c == '>' || c == '(' || c
        == ')' || c == '{' || c == '}'
}

/// Whether a mention ends at this character.
pub fn is_boundary(c: char) -> (r: bool)
    ensures
        r == separates(c),
{
    text::is_whitespace(c) || c == '|' || c == '&' || c == ';' || c == '<' || c == '>' || c == '('
        || c == ')' || c == '{' || c == '}'
}

/// Where the word begins that ends at `i`.
pub open spec fn word_start(s: Seq<char>, i: int) -> int
    decreases i,
{
    if i <= 0 {
        0
    } else if separates(s[i - 1]) {
        i
    } else {
        word_start(s, i - 1)
    }
}

/// Where the word ends that goes on at `i`.
pub open spec fn word_end(s: Seq<char>, i: int) -> int
    decreases s.len() - i,
{
    if i >= s.len() {
        s.len() as int
    } else if separates(s[i]) {
        i
    } else {
        word_end(s, i + 1)
    }
}

/// The mention at the cursor: the word there, if it begins with its only `@` before the cursor.
pub open spec fn token_at(s: Seq<char>, cursor: int) -> Option<(int, int, Seq<char>)> {
    let c = if cursor < s.len() {
        cursor
    } else {
        s.len() as int
    };
    let start = word_start(s, c);
    if start < c && s[start] == '@' && (forall|i: int| start < i < c ==> #[trigger] s[i] != '@') {
        Some((start, word_end(s, c), s.subrange(start + 1, c)))
    } else {
        None
    }
}

/// The mention at the cursor.
pub fn mention_token(buffer: &str, at: usize) -> (r: Option<MentionToken>)
    ensures
        match r {
            Some(token) => token_at(buffer@, at as int) == Some(
                (token.start as int, token.end as int, token.query@),
            ),
            None => token_at(buffer@, at as int) is None,
        },
{
    let chars = text::chars_of(buffer);
    let n: usize = chars.len();
    let cursor: usize = if at < n {
        at
    } else {
        n
    };
    let mut start: usize = cursor;
    while start > 0 && !is_boundary(chars[start - 1])
        invariant
            start <= cursor <= n,
            n == chars@.len(),
            word_start(chars@, cursor as int) == word_start(chars@, start as int),
        decreases start,
    {
        start = start - 1;
    }
    if start == cursor || chars[start] != '@' {
        return None;
    }
    let mut i: usize = start + 1;
    while i < cursor
        invariant
            start < i <= cursor <= n,
            n == chars@.len(),
            start == word_start(chars@, cursor as int),
            forall|j: int| start < j < i ==> #[trigger] chars@[j] != '@',
            chars@ == buffer@,
            cursor == (if at < n {
                at
            } else {
                n
            }),
            chars@[start as int] == '@',
        decreases cursor - i,
    {
        if chars[i] == '@' {
            return None;
        }
        i = i + 1;
    }
    let mut end: usize = cursor;
    while end < n && !is_boundary(chars[end])
        invariant
            cursor <= end <= n,
            n == chars@.len(),
            word_end(chars@, cursor as int) == word_end(chars@, end as int),
        decreases n - end,
    {
        end = end + 1;
    }
    let query = text::part(&chars, start + 1, cursor);
    Some(MentionToken { start, end, query: text::string_of(&query) })
}

/// A mention holds the cursor, and no separator.
pub proof fn mention_holds_the_cursor(s: Seq<char>, cursor: int)
    requires
        0 <= cursor <= s.len(),
    ensures
        match token_at(s, cursor) {
            Some((start, end, query)) => {
                &&& 0 <= start < cursor <= end <= s.len()
                &&& s[start] == '@'
                &&& forall|i: int| start <= i < end ==> !separates(#[trigger] s[i])
                &&& query == s.subrange(start + 1, cursor)
            },
            None => true,
        },
{
    word_start_bounds(s, cursor);
    word_end_bounds(s, cursor);
}

proof fn word_start_bounds(s: Seq<char>, i: int)
    requires
        0 <= i <= s.len(),
    ensures
        0 <= word_start(s, i) <= i,
        forall|j: int| word_start(s, i) <= j < i ==> !separates(#[trigger] s[j]),
    decreases i,
{
    if i > 0 && !separates(s[i - 1]) {
        word_start_bounds(s, i - 1);
    }
}

proof fn word_end_bounds(s: Seq<char>, i: int)
    requires
        0 <= i <= s.len(),
    ensures
        i <= word_end(s, i) <= s.len(),
        forall|j: int| i <= j < word_end(s, i) ==> !separates(#[trigger] s[j]),
    decreases s.len() - i,
{
    if i < s.len() && !separates(s[i]) {
        word_end_bounds(s, i + 1);
    }
}

/// A builder of exclude rules.
#[verifier::external_type_specification]
#[verifier::external_body]
pub struct ExGitignoreBuilder(GitignoreBuilder);

/// A set of exclude rules.
#[verifier::external_type_specification]
#[verifier::external_body]
pub struct ExGitignore(Gitignore);

/// The rules that a builder holds, as they were written.
pub uninterp spec fn builder_rules(builder: GitignoreBuilder) -> Seq<Seq<char>>;

/// The rules of a set, as they were written.
pub uninterp spec fn set_rules(set: Gitignore) -> Seq<Seq<char>>;

/// The rule in a line of an ignore file; none in a comment, a blank line, or a line that is no
/// valid rule.
pub uninterp spec fn rule_of(line: Seq<char>) -> Option<Seq<char>>;

/// Whether rules exclude a path, or a directory above it.
pub uninterp spec fn rules_exclude(rules: Seq<Seq<char>>, path: Seq<char>, is_dir: bool) -> bool;

/// Whether a set can be made of rules: they may be too large together.
pub uninterp spec fn rules_fit(rules: Seq<Seq<char>>) -> bool;

/// Rules that are being collected, for paths relative to the directory that is searched.
struct RuleBuilder {
    inner: GitignoreBuilder,
}

/// Exclude rules, for paths relative to the directory that is searched.
pub struct ExcludeRules {
    inner: Gitignore,
}

impl ExcludeRules {
    /// The rules, as they were written.
    pub closed spec fn rules(&self) -> Seq<Seq<char>> {
        set_rules(self.inner)
    }
}

/// `GitignoreBuilder::new`: a builder with the default settings holds no rules. Its root is the
/// empty path, so that relative paths are matched as they are.
#[verifier::external_body]
fn new_builder() -> (r: RuleBuilder)
    ensures
        builder_rules(r.inner) == Seq::<Seq<char>>::empty(),
{
    RuleBuilder { inner: GitignoreBuilder::new("") }
}

/// `GitignoreBuilder::add_line`, with its error left aside: the rule of the line, where it has
/// one, is added behind the others. Which rule that is depends on the line alone, for a builder
/// with the default settings.
#[verifier::external_body]
fn add_line(builder: &mut RuleBuilder, line: &str)
    ensures
        builder_rules(final(builder).inner) == (match rule_of(line@) {
            Some(rule) => builder_rules(old(builder).inner).push(rule),
            None => builder_rules(old(builder).inner),
        }),
{
    let _ = builder.inner.add_line(None, line);
}

/// `GitignoreBuilder::build`: whether a set can be made depends on the rules alone, and the set
/// holds the rules of the builder.
#[verifier::external_body]
fn build(builder: &RuleBuilder) -> (r: Option<ExcludeRules>)
    ensures
        r is Some <==> rules_fit(builder_rules(builder.inner)),
        r matches Some(set) ==> set_rules(set.inner) == builder_rules(builder.inner),
{
    builder.inner.build().ok().map(|inner| ExcludeRules { inner })
}

/// `Gitignore::matched_path_or_any_parents`, whether it says to ignore the path: that depends on
/// the rules, the path and its kind alone. It panics on a path that is not relative.
#[verifier::external_body]
fn excludes(set: &ExcludeRules, path: &str, is_dir: bool) -> (r: bool)
    requires
        is_relative(path@),
    ensures
        r == rules_exclude(set_rules(set.inner), path@, is_dir),
{
    set.inner.matched_path_or_any_parents(path, is_dir).is_ignore()
}

/// A path without a root, and without a superfluous `./`.
pub open spec fn is_relative(path: Seq<char>) -> bool {
    !"/"@.is_prefix_of(path) && !"./"@.is_prefix_of(path)
}

/// The rules in the first `n` lines.
pub open spec fn rules_in(lines: Seq<String>, n: int) -> Seq<Seq<char>>
    decreases n,
{
    if n <= 0 {
        Seq::empty()
    } else {
        match rule_of(lines[n - 1]@) {
            Some(rule) => rules_in(lines, n - 1).push(rule),
            None => rules_in(lines, n - 1),
        }
    }
}

/// The exclude rules in a list of lines, where a set can be made of them.
pub open spec fn exclude_rules(lines: Seq<String>) -> Option<Seq<Seq<char>>> {
    let rules = rules_in(lines, lines.len() as int);
    if rules_fit(rules) {
        Some(rules)
    } else {
        None
    }
}

/// The exclude rules in a list of lines. A line that is no rule does not spoil the others.
pub fn build_excludes(patterns: &[String]) -> (r: Option<ExcludeRules>)
    ensures
        rules_view(r) == exclude_rules(patterns@),
{
    let mut builder = new_builder();
    let mut i: usize = 0;
    while i < patterns.len()
        invariant
            i <= patterns@.len(),
            builder_rules(builder.inner) == rules_in(patterns@, i as int),
        decreases patterns@.len() - i,
    {
        add_line(&mut builder, patterns[i].as_str());
        i = i + 1;
    }
    build(&builder)
}

/// A file or directory below the directory that is searched.
#[derive(Debug)]
pub struct FoundEntry {
    /// The path, relative to that directory.
    pub path: String,
    pub is_dir: bool,
}

/// The path of an entry as it is offered: a directory ends with a slash.
pub open spec fn offered_path(entry: FoundEntry) -> Seq<char> {
    if entry.is_dir {
        entry.path@.push('/')
    } else {
        entry.path@
    }
}

/// The paths of the first `n` entries that are not excluded.
pub open spec fn kept_paths(entries: Seq<FoundEntry>, excluded: Seq<bool>, n: int) -> Seq<Seq<char>>
    decreases n,
{
    if n <= 0 {
        Seq::empty()
    } else {
        let before = kept_paths(entries, excluded, n - 1);
        if excluded[n - 1] {
            before
        } else {
            before.push(offered_path(entries[n - 1]))
        }
    }
}

/// Which entries rules exclude.
pub open spec fn excluded_by(entries: Seq<FoundEntry>, rules: Option<Seq<Seq<char>>>) -> Seq<bool> {
    Seq::new(
        entries.len(),
        |i: int| rules is Some && rules_exclude(rules->0, entries[i].path@, entries[i].is_dir),
    )
}

/// The entries can be handed to the exclude rules and the fuzzy finder.
pub open spec fn entries_wf(entries: Seq<FoundEntry>) -> bool {
    forall|i: int|
        0 <= i < entries.len() ==> is_relative((#[trigger] entries[i]).path@) && entries[i].path@.len()
            < u32::MAX
}

pub open spec fn rules_view(rules: Option<ExcludeRules>) -> Option<Seq<Seq<char>>> {
    match rules {
        Some(set) => Some(set.rules()),
        None => None,
    }
}

/// Which entries rules exclude.
pub fn find_excluded(entries: &[FoundEntry], rules: &Option<ExcludeRules>) -> (r: Vec<bool>)
    requires
        entries_wf(entries@),
    ensures
        r@ == excluded_by(entries@, rules_view(*rules)),
{
    let mut out: Vec<bool> = Vec::new();
    let mut i: usize = 0;
    while i < entries.len()
        invariant
            i <= entries@.len(),
            entries_wf(entries@),
            out@ == excluded_by(entries@, rules_view(*rules)).take(i as int),
        decreases entries@.len() - i,
    {
        assert(is_relative(entries@[i as int].path@));
        out.push(
            match rules {
                Some(set) => excludes(set, entries[i].path.as_str(), entries[i].is_dir),
                None => false,
            },
        );
        i = i + 1;
        assert(out@ =~= excluded_by(entries@, rules_view(*rules)).take(i as int));
    }
    assert(out@ =~= excluded_by(entries@, rules_view(*rules)));
    out
}

/// The paths of the entries that are not excluded.
pub fn keep_paths(entries: &[FoundEntry], excluded: &[bool]) -> (r: Vec<Vec<char>>)
    requires
        entries_wf(entries@),
        excluded@.len() == entries@.len(),
    ensures
        text::views(r@) == kept_paths(entries@, excluded@, entries@.len() as int),
        forall|i: int| 0 <= i < r@.len() ==> (#[trigger] r@[i])@.len() <= u32::MAX,
{
    let mut out: Vec<Vec<char>> = Vec::new();
    let mut i: usize = 0;
    assert(text::views(out@) =~= kept_paths(entries@, excluded@, 0));
    while i < entries.len()
        invariant
            i <= entries@.len(),
            entries_wf(entries@),
            excluded@.len() == entries@.len(),
            text::views(out@) == kept_paths(entries@, excluded@, i as int),
            forall|k: int| 0 <= k < out@.len() ==> (#[trigger] out@[k])@.len() <= u32::MAX,
        decreases entries@.len() - i,
    {
        if !excluded[i] {
            let ghost before = text::views(out@);
            let mut path = text::chars_of(entries[i].path.as_str());
            if entries[i].is_dir {
                path.push('/');
            }
            assert(path@ == offered_path(entries@[i as int]));
            assert(is_relative(entries@[i as int].path@));
            out.push(path);
            assert(text::views(out@) =~= before.push(path@));
        }
        i = i + 1;
    }
    out
}

/// The order of paths without a query.
pub open spec fn path_order(paths: Seq<Seq<char>>) -> spec_fn(int, int) -> bool {
    |i: int, j: int|
        rank::text_before(paths[i], paths[j]) || (paths[i] == paths[j] && i < j)
}

/// The order of paths with scores: the best score first, then by path.
pub open spec fn score_order(paths: Seq<Seq<char>>, scores: Seq<u32>) -> spec_fn(int, int) -> bool {
    |i: int, j: int|
        scores[i] > scores[j] || (scores[i] == scores[j] && (rank::text_before(paths[i], paths[j])
            || (paths[i] == paths[j] && i < j)))
}

/// Both are strict orders.
proof fn orders_are_strict(paths: Seq<Seq<char>>, scores: Seq<u32>)
    requires
        scores.len() == paths.len(),
    ensures
        rank::is_order(paths.len() as int, path_order(paths)),
        rank::is_order(paths.len() as int, score_order(paths, scores)),
{
    let n = paths.len() as int;
    assert forall|i: int, j: int| 0 <= i < n && 0 <= j < n implies {
        &&& !(rank::text_before(paths[i], paths[j]) && rank::text_before(paths[j], paths[i]))
        &&& paths[i] != paths[j] ==> rank::text_before(paths[i], paths[j]) || rank::text_before(
            paths[j],
            paths[i],
        )
        &&& !rank::text_before(paths[i], paths[i])
    } by {
        rank::text_order_is_strict(paths[i], paths[j]);
    }
    assert forall|i: int, j: int, k: int|
        0 <= i < n && 0 <= j < n && 0 <= k < n && #[trigger] rank::text_before(paths[i], paths[j])
            && #[trigger] rank::text_before(paths[j], paths[k]) implies rank::text_before(
        paths[i],
        paths[k],
    ) by {
        rank::text_order_is_transitive(paths[i], paths[j], paths[k]);
    }
    let p = path_order(paths);
    let q = score_order(paths, scores);
    assert forall|i: int, j: int| 0 <= i < n && 0 <= j < n && #[trigger] p(i, j) implies !p(
        j,
        i,
    ) by {}
    assert forall|i: int, j: int| 0 <= i < n && 0 <= j < n && i != j implies #[trigger] p(i, j)
        || p(j, i) by {}
    assert forall|i: int, j: int, k: int|
        0 <= i < n && 0 <= j < n && 0 <= k < n && #[trigger] p(i, j) && #[trigger] p(
            j,
            k,
        ) implies p(i, k) by {}
    assert forall|i: int, j: int, k: int|
        0 <= i < n && 0 <= j < n && 0 <= k < n && #[trigger] q(i, j) && #[trigger] q(
            j,
            k,
        ) implies q(i, k) by {}
}

/// The first of some texts in the given order, up to `limit` of them.
pub open spec fn in_order(texts: Seq<Seq<char>>, order: Seq<usize>, limit: int) -> Seq<Seq<char>> {
    Seq::new(
        if order.len() < limit {
            order.len()
        } else {
            limit as nat
        },
        |i: int| texts[order[i] as int],
    )
}

pub open spec fn strings_view(list: Seq<String>) -> Seq<Seq<char>> {
    Seq::new(list.len(), |i: int| list[i]@)
}

fn take_in_order(texts: &Vec<Vec<char>>, order: &Vec<usize>, limit: usize) -> (r: Vec<String>)
    requires
        forall|i: int| 0 <= i < order@.len() ==> (#[trigger] order@[i]) < texts@.len(),
    ensures
        strings_view(r@) == in_order(text::views(texts@), order@, limit as int),
{
    let ghost all = in_order(text::views(texts@), order@, limit as int);
    let mut out: Vec<String> = Vec::new();
    let mut i: usize = 0;
    while i < order.len() && i < limit
        invariant
            i <= all.len(),
            all == in_order(text::views(texts@), order@, limit as int),
            forall|i: int| 0 <= i < order@.len() ==> (#[trigger] order@[i]) < texts@.len(),
            strings_view(out@) == all.take(i as int),
        decreases all.len() - i,
    {
        let ghost before = strings_view(out@);
        assert(order@[i as int] < texts@.len());
        let s = text::string_of(&texts[order[i]]);
        out.push(s);
        assert(strings_view(out@) =~= before.push(s@));
        assert(s@ == all[i as int]);
        i = i + 1;
        assert(strings_view(out@) =~= all.take(i as int));
    }
    assert(all.take(i as int) =~= all);
    out
}

/// The texts at the places.
pub open spec fn texts_at(texts: Seq<Seq<char>>, places: Seq<int>) -> Seq<Seq<char>> {
    Seq::new(places.len(), |i: int| texts[places[i]])
}

/// Whether `offer` is the paths in the order of their names, up to `limit` of them.
pub open spec fn sorted_offer(paths: Seq<Seq<char>>, limit: int, offer: Seq<Seq<char>>) -> bool {
    exists|order: Seq<usize>| #[trigger]
        rank::arranged(paths.len() as int, path_order(paths), order) && offer == in_order(
            paths,
            order,
            limit,
        )
}

/// Whether `offer` is the paths with a score, the best first, then in the order of their names, up
/// to `limit` of them.
pub open spec fn scored_offer(
    paths: Seq<Seq<char>>,
    scores: Seq<Option<u32>>,
    limit: int,
    offer: Seq<Seq<char>>,
) -> bool {
    let (places, values) = rank::hits_in(scores, scores.len() as int);
    let hits = texts_at(paths, places);
    exists|order: Seq<usize>| #[trigger]
        rank::arranged(hits.len() as int, score_order(hits, values), order) && offer == in_order(
            hits,
            order,
            limit,
        )
}

/// The paths in the order of their names, up to `limit` of them.
pub fn sorted_paths(paths: &Vec<Vec<char>>, limit: usize) -> (r: Vec<String>)
    ensures
        sorted_offer(text::views(paths@), limit as int, strings_view(r@)),
{
    let ghost texts = text::views(paths@);
    proof {
        orders_are_strict(texts, Seq::new(texts.len(), |i: int| 0u32));
    }
    let before = |i: usize, j: usize| -> (b: bool)
        requires
            i < paths@.len(),
            j < paths@.len(),
        ensures
            b == path_order(text::views(paths@))(i as int, j as int),
        {
            rank::precedes(&paths[i], &paths[j]) || (text::same(&paths[i], &paths[j]) && i < j)
        };
    let order = rank::arrange(paths.len(), before, Ghost(path_order(texts)));
    take_in_order(paths, &order, limit)
}

/// The paths that have a score, the best first, then in the order of their names, up to `limit` of
/// them.
pub fn best_paths(paths: &Vec<Vec<char>>, scores: &Vec<Option<u32>>, limit: usize) -> (r: Vec<
    String,
>)
    requires
        scores@.len() == paths@.len(),
    ensures
        scored_offer(text::views(paths@), scores@, limit as int, strings_view(r@)),
{
    let mut hits: Vec<Vec<char>> = Vec::new();
    let mut values: Vec<u32> = Vec::new();
    let mut i: usize = 0;
    let ghost texts = text::views(paths@);
    assert(text::views(hits@) =~= texts_at(texts, rank::hits_in(scores@, 0).0));
    while i < paths.len()
        invariant
            i <= paths@.len(),
            scores@.len() == paths@.len(),
            texts == text::views(paths@),
            text::views(hits@) == texts_at(texts, rank::hits_in(scores@, i as int).0),
            values@ == rank::hits_in(scores@, i as int).1,
            hits@.len() == values@.len(),
        decreases paths@.len() - i,
    {
        if let Some(score) = scores[i] {
            let ghost before = text::views(hits@);
            let ghost places = rank::hits_in(scores@, i as int).0;
            let path = text::part(&paths[i], 0, paths[i].len());
            assert(path@ =~= texts[i as int]);
            hits.push(path);
            values.push(score);
            assert(text::views(hits@) =~= before.push(path@));
            assert(texts_at(texts, places.push(i as int)) =~= texts_at(texts, places).push(
                texts[i as int],
            ));
        }
        i = i + 1;
    }
    let ghost found = text::views(hits@);
    let ghost order_of = score_order(found, values@);
    proof {
        orders_are_strict(found, values@);
    }
    let before = |i: usize, j: usize| -> (b: bool)
        requires
            i < hits@.len(),
            j < hits@.len(),
            hits@.len() == values@.len(),
        ensures
            b == score_order(text::views(hits@), values@)(i as int, j as int),
        {
            values[i] > values[j] || (values[i] == values[j] && (rank::precedes(
                &hits[i],
                &hits[j],
            ) || (text::same(&hits[i], &hits[j]) && i < j)))
        };
    let order = rank::arrange(hits.len(), before, Ghost(order_of));
    take_in_order(&hits, &order, limit)
}

/// What is offered is determined by the paths and their scores: there is one such list.
pub proof fn offers_are_determined(
    paths: Seq<Seq<char>>,
    scores: Seq<Option<u32>>,
    limit: int,
    a: Seq<Seq<char>>,
    b: Seq<Seq<char>>,
)
    ensures
        sorted_offer(paths, limit, a) && sorted_offer(paths, limit, b) ==> a == b,
        scored_offer(paths, scores, limit, a) && scored_offer(paths, scores, limit, b) ==> a == b,
{
    if sorted_offer(paths, limit, a) && sorted_offer(paths, limit, b) {
        let n = paths.len() as int;
        let first = choose|x: Seq<usize>| #[trigger]
            rank::arranged(n, path_order(paths), x) && a == in_order(paths, x, limit);
        let second = choose|x: Seq<usize>| #[trigger]
            rank::arranged(n, path_order(paths), x) && b == in_order(paths, x, limit);
        orders_are_strict(paths, Seq::new(paths.len(), |i: int| 0u32));
        rank::arrangement_is_unique(n, path_order(paths), first, second);
    }
    if scored_offer(paths, scores, limit, a) && scored_offer(paths, scores, limit, b) {
        let (places, values) = rank::hits_in(scores, scores.len() as int);
        let hits = texts_at(paths, places);
        let n = hits.len() as int;
        let first = choose|x: Seq<usize>| #[trigger]
            rank::arranged(n, score_order(hits, values), x) && a == in_order(hits, x, limit);
        let second = choose|x: Seq<usize>| #[trigger]
            rank::arranged(n, score_order(hits, values), x) && b == in_order(hits, x, limit);
        hits_go_together(scores, scores.len() as int);
        orders_are_strict(hits, values);
        rank::arrangement_is_unique(n, score_order(hits, values), first, second);
    }
}

/// There are as many scores as places.
proof fn hits_go_together(scores: Seq<Option<u32>>, n: int)
    ensures
        rank::hits_in(scores, n).0.len() == rank::hits_in(scores, n).1.len(),
    decreases n,
{
    if n > 0 {
        hits_go_together(scores, n - 1);
    }
}

/// The scores of texts.
pub open spec fn scores_of(query: Seq<char>, texts: Seq<Seq<char>>) -> Seq<Option<u32>> {
    Seq::new(texts.len(), |i: int| rank::fuzzy(query, texts[i]))
}

/// The paths to offer for a query: those that the exclude rules do not take away, matched with the
/// query where there is one.
pub fn find_matches(
    entries: &[FoundEntry],
    query: &str,
    limit: usize,
    excludes: &[String],
) -> (r: Vec<String>)
    requires
        entries_wf(entries@),
        query@.len() <= rank::MAX_QUERY,
    ensures
        ({
            let excluded = excluded_by(entries@, exclude_rules(excludes@));
            let paths = kept_paths(entries@, excluded, entries@.len() as int);
            if query@.len() == 0 {
                sorted_offer(paths, limit as int, strings_view(r@))
            } else {
                scored_offer(paths, scores_of(query@, paths), limit as int, strings_view(r@))
            }
        }),
{
    let rules = build_excludes(excludes);
    let excluded = find_excluded(entries, &rules);
    let paths = keep_paths(entries, &excluded);
    if query.is_empty() {
        return sorted_paths(&paths, limit);
    }
    let mut scores: Vec<Option<u32>> = Vec::new();
    let mut i: usize = 0;
    let ghost texts = text::views(paths@);
    while i < paths.len()
        invariant
            i <= paths@.len(),
            texts == text::views(paths@),
            query@.len() <= rank::MAX_QUERY,
            forall|i: int| 0 <= i < paths@.len() ==> (#[trigger] paths@[i])@.len() <= u32::MAX,
            scores@ == scores_of(query@, texts).take(i as int),
        decreases paths@.len() - i,
    {
        let path = text::string_of(&paths[i]);
        assert(path@ == texts[i as int]);
        scores.push(rank::fuzzy_score(query, path.as_str()));
        i = i + 1;
        assert(scores@ =~= scores_of(query@, texts).take(i as int));
    }
    assert(scores@ =~= scores_of(query@, texts));
    best_paths(&paths, &scores, limit)
}

/// A popup with the paths for a mention.
#[derive(Debug)]
pub struct Mention {
    /// The characters of the input line that the mention takes.
    pub token_start: usize,
    pub token_end: usize,
    pub matches: Vec<String>,
    pub selected: usize,
    /// The first match that is shown.
    pub offset: usize,
}

impl Mention {
    /// A match is selected, and no more matches are scrolled out of sight than there are.
    pub open spec fn wf(&self) -> bool {
        self.selected < self.matches@.len() && self.offset <= self.matches@.len()
    }
}

/// Scrolls so that the selected match is shown.
pub fn mention_scroll_to_selected(mention: &mut Mention, max_visible: usize)
    requires
        old(mention).selected < old(mention).matches@.len(),
        old(mention).offset <= old(mention).matches@.len(),
    ensures
        *final(mention) == (Mention {
            offset: scrolled(
                old(mention).selected as int,
                old(mention).offset as int,
                crate::geometry::min_of(old(mention).matches@.len() as int, max_visible as int),
            ) as usize,
            ..*old(mention)
        }),
{
    let n: usize = mention.matches.len();
    let visible: usize = if n < max_visible {
        n
    } else {
        max_visible
    };
    if mention.selected < mention.offset {
        mention.offset = mention.selected;
    } else if mention.selected - mention.offset >= visible {
        mention.offset = mention.selected - visible + 1;
    }
}

/// The first shown item of a list of which `visible` items are shown, after scrolling to the
/// selected one by as little as possible.
pub open spec fn scrolled(selected: int, offset: int, visible: int) -> int {
    if selected < offset {
        selected
    } else if selected >= offset + visible {
        selected + 1 - visible
    } else {
        offset
    }
}

/// Scrolling shows the selected item.
pub proof fn scrolling_shows_the_selection(selected: int, offset: int, visible: int)
    requires
        visible > 0,
        0 <= selected,
        0 <= offset,
    ensures
        0 <= scrolled(selected, offset, visible) <= selected < scrolled(selected, offset, visible)
            + visible,
{
}

/// A character that a shell takes as it is.
pub open spec fn is_plain(c: char) -> bool {
    'a' <= c <= 'z' || 'A' <= c <= 'Z' || '0' <= c <= '9' || c == '/' || c == '_' || c == '-' || c
        == '.'
}

/// The text with a backslash before each character that a shell might not take as it is.
pub open spec fn escaped(s: Seq<char>) -> Seq<char>
    decreases s.len(),
{
    if s.len() == 0 {
        s
    } else if is_plain(s.last()) {
        escaped(s.drop_last()).push(s.last())
    } else {
        escaped(s.drop_last()).push('\\').push(s.last())
    }
}

/// The text with a backslash before each character that a shell might not take as it is.
pub fn shell_escape(path: &str) -> (r: String)
    ensures
        r@ == escaped(path@),
{
    let chars = text::chars_of(path);
    let mut out: Vec<char> = Vec::new();
    let mut i: usize = 0;
    assert(chars@.take(0) =~= Seq::empty());
    while i < chars.len()
        invariant
            i <= chars@.len(),
            chars@ == path@,
            out@ == escaped(chars@.take(i as int)),
        decreases chars@.len() - i,
    {
        let c = chars[i];
        let ghost next = chars@.take(i + 1);
        assert(next.drop_last() =~= chars@.take(i as int));
        assert(next.last() == c);
        let plain = ('a' <= c && c <= 'z') || ('A' <= c && c <= 'Z') || ('0' <= c && c <= '9') || c
            == '/' || c == '_' || c == '-' || c == '.';
        if !plain {
            out.push('\\');
        }
        out.push(c);
        i = i + 1;
    }
    assert(chars@.take(i as int) =~= chars@);
    text::string_of(&out)
}

/// The text with each backslash taken away that stands before another character.
pub open spec fn unescaped(s: Seq<char>) -> Seq<char>
    decreases s.len(),
{
    if s.len() == 0 {
        s
    } else if s[0] == '\\' && s.len() > 1 {
        seq![s[1]] + unescaped(s.skip(2))
    } else {
        seq![s[0]] + unescaped(s.skip(1))
    }
}

/// Taking the backslashes away again gives back the text.
pub proof fn escaping_keeps_the_text(s: Seq<char>)
    ensures
        unescaped(escaped(s)) == s,
    decreases s.len(),
{
    if s.len() > 0 {
        let t = s.drop_last();
        escaping_keeps_the_text(t);
        assert(escaped(Seq::<char>::empty()) =~= Seq::empty());
        if is_plain(s.last()) {
            unescape_behind(t, seq![s.last()]);
            assert(escaped(t).push(s.last()) =~= escaped(t) + seq![s.last()]);
            let one = seq![s.last()];
            assert(one.skip(1) =~= Seq::empty());
            assert(unescaped(Seq::<char>::empty()) =~= Seq::empty());
            assert(unescaped(one) =~= one);
        } else {
            let two = seq!['\\', s.last()];
            unescape_behind(t, two);
            assert(escaped(t).push('\\').push(s.last()) =~= escaped(t) + two);
            assert(two.skip(2) =~= Seq::empty());
            assert(unescaped(Seq::<char>::empty()) =~= Seq::empty());
            assert(unescaped(two) =~= seq![s.last()]);
        }
        assert(t + seq![s.last()] =~= s);
    } else {
        assert(escaped(s) =~= s);
        assert(unescaped(s) =~= s);
    }
}

/// What stands behind an escaped text does not mix with it.
proof fn unescape_behind(s: Seq<char>, more: Seq<char>)
    ensures
        unescaped(escaped(s) + more) == s + unescaped(more),
    decreases s.len(),
{
    if s.len() == 0 {
        assert(escaped(s) + more =~= more);
        assert(s + unescaped(more) =~= unescaped(more));
    } else {
        let t = s.drop_last();
        let c = s.last();
        if is_plain(c) {
            let tail = seq![c] + more;
            unescape_behind(t, tail);
            assert(escaped(s) + more =~= escaped(t) + tail);
            assert(tail.skip(1) =~= more);
            assert(tail[0] == c);
            assert(unescaped(tail) == seq![c] + unescaped(more));
        } else {
            let tail = seq!['\\', c] + more;
            unescape_behind(t, tail);
            assert(escaped(s) + more =~= escaped(t) + tail);
            assert(tail.skip(2) =~= more);
            assert(tail[0] == '\\' && tail[1] == c);
            assert(unescaped(tail) == seq![c] + unescaped(more));
        }
        assert(t + (seq![c] + unescaped(more)) =~= s + unescaped(more));
    }
}

/// The path as it is put into the input line: relative to the current directory.
pub fn accepted_path(path: &str) -> (r: String)
    ensures
        r@ == "./"@ + path@,
{
    let mut out = text::chars_of("./");
    text::push_text(&mut out, path);
    text::string_of(&out)
}

/// The bytes, so many times.
pub open spec fn repeated(s: Seq<u8>, n: int) -> Seq<u8>
    decreases n,
{
    if n <= 0 {
        Seq::empty()
    } else {
        repeated(s, n - 1) + s
    }
}

/// The input line with the mention replaced by the path.
pub open spec fn line_with_path(
    line: Seq<char>,
    token_start: int,
    token_end: int,
    path: Seq<char>,
) -> Seq<char> {
    line.take(token_start) + escaped("./"@ + path) + line.skip(token_end)
}

/// The keys that replace the input line: to its start, delete to its end, the new line, and back to
/// behind the path. None where the mention does not lie in the line.
pub open spec fn replacing_keys(
    line: Seq<char>,
    token_start: int,
    token_end: int,
    path: Seq<char>,
) -> Option<Seq<u8>> {
    if token_start <= token_end <= line.len() {
        Some(
            seq![0x01u8, 0x0bu8] + utf8::encode_utf8(
                line_with_path(line, token_start, token_end, path),
            ) + repeated(seq![0x1bu8, 0x5bu8, 0x44u8], line.len() - token_end),
        )
    } else {
        None
    }
}

/// The keys that replace a mention in the input line by a path.
pub fn replace_keys(buffer: &str, token_start: usize, token_end: usize, path: &str) -> (r: Option<
    Vec<u8>,
>)
    ensures
        match r {
            Some(bytes) => replacing_keys(
                buffer@,
                token_start as int,
                token_end as int,
                path@,
            ) == Some(bytes@),
            None => replacing_keys(
                buffer@,
                token_start as int,
                token_end as int,
                path@,
            ) is None,
        },
{
    let chars = text::chars_of(buffer);
    if token_start > token_end || token_end > chars.len() {
        return None;
    }
    let accepted = accepted_path(path);
    let insert = shell_escape(accepted.as_str());
    let mut line = text::part(&chars, 0, token_start);
    let ghost head = line@;
    text::push_text(&mut line, insert.as_str());
    let mut tail = text::part(&chars, token_end, chars.len());
    let move_left: usize = tail.len();
    assert(head =~= buffer@.take(token_start as int));
    assert(tail@ =~= buffer@.skip(token_end as int));
    line.append(&mut tail);
    assert(line@ =~= line_with_path(buffer@, token_start as int, token_end as int, path@));
    let line = text::string_of(&line);
    let mut bytes: Vec<u8> = Vec::new();
    bytes.push(0x01);
    bytes.push(0x0b);
    let mut encoded = text::bytes_of(line.as_str());
    let ghost intro = bytes@;
    bytes.append(&mut encoded);
    let ghost typed = bytes@;
    assert(intro =~= seq![0x01u8, 0x0bu8]);
    let ghost left = seq![0x1bu8, 0x5bu8, 0x44u8];
    assert(typed + repeated(left, 0) =~= typed);
    let mut i: usize = 0;
    while i < move_left
        invariant
            i <= move_left,
            left == seq![0x1bu8, 0x5bu8, 0x44u8],
            bytes@ == typed + repeated(left, i as int),
        decreases move_left - i,
    {
        bytes.push(0x1b);
        bytes.push(0x5b);
        bytes.push(0x44);
        i = i + 1;
        assert(bytes@ =~= typed + repeated(left, i as int));
    }
    Some(bytes)
}

/// A mention is replaced in place: what stood before and behind it stays.
pub proof fn only_the_mention_is_replaced(
    line: Seq<char>,
    token_start: int,
    token_end: int,
    path: Seq<char>,
)
    requires
        0 <= token_start <= token_end <= line.len(),
    ensures
        ({
            let new = line_with_path(line, token_start, token_end, path);
            &&& new.take(token_start) == line.take(token_start)
            &&& new.skip(new.len() - (line.len() - token_end)) == line.skip(token_end)
        }),
{
    let new = line_with_path(line, token_start, token_end, path);
    assert(new.take(token_start) =~= line.take(token_start));
    assert(new.skip(new.len() - (line.len() - token_end)) =~= line.skip(token_end));
}

/// The mention is the whole word at the cursor: before it and behind it stands a separator, or
/// nothing. A word that begins with its only `@`, before the cursor, is one.
pub proof fn mentions_are_words(s: Seq<char>, cursor: int, start: int)
    requires
        0 <= cursor <= s.len(),
    ensures
        token_at(s, cursor) matches Some((from, to, _)) ==> (from == 0 || separates(s[from - 1]))
            && (to == s.len() || separates(s[to])),
        0 <= start < cursor && s[start] == '@' && (start == 0 || separates(s[start - 1])) && (forall|
            i: int,
        |
            start <= i < cursor ==> !separates(#[trigger] s[i])) && (forall|i: int|
            start < i < cursor ==> #[trigger] s[i] != '@') ==> token_at(s, cursor) is Some && (
        token_at(s, cursor)->0).0 == start && (token_at(s, cursor)->0).2 == s.subrange(
            start + 1,
            cursor,
        ),
{
    words_are_whole(s, cursor);
    if 0 <= start < cursor && (start == 0 || separates(s[start - 1])) && (forall|i: int|
        start <= i < cursor ==> !separates(#[trigger] s[i])) {
        word_begins(s, start, cursor);
    }
}

proof fn words_are_whole(s: Seq<char>, i: int)
    requires
        0 <= i <= s.len(),
    ensures
        word_start(s, i) == 0 || separates(s[word_start(s, i) - 1]),
        0 <= word_start(s, i),
        word_end(s, i) == s.len() || separates(s[word_end(s, i)]),
    decreases s.len(),
{
    start_is_whole(s, i);
    end_is_whole(s, i);
}

proof fn start_is_whole(s: Seq<char>, i: int)
    requires
        0 <= i <= s.len(),
    ensures
        0 <= word_start(s, i) <= i,
        word_start(s, i) == 0 || separates(s[word_start(s, i) - 1]),
    decreases i,
{
    if i > 0 && !separates(s[i - 1]) {
        start_is_whole(s, i - 1);
    }
}

proof fn end_is_whole(s: Seq<char>, i: int)
    requires
        0 <= i <= s.len(),
    ensures
        i <= word_end(s, i) <= s.len(),
        word_end(s, i) == s.len() || separates(s[word_end(s, i)]),
    decreases s.len() - i,
{
    if i < s.len() && !separates(s[i]) {
        end_is_whole(s, i + 1);
    }
}

proof fn word_begins(s: Seq<char>, start: int, i: int)
    requires
        0 <= start <= i <= s.len(),
        start == 0 || separates(s[start - 1]),
        forall|k: int| start <= k < i ==> !separates(#[trigger] s[k]),
    ensures
        word_start(s, i) == start,
    decreases i,
{
    if i > start {
        assert(!separates(s[i - 1]));
        word_begins(s, start, i - 1);
    }
}

/// What is offered without a query: paths that were found, in the order of their characters, and as
/// many of them as the limit allows.
pub proof fn offers_are_sorted(paths: Seq<Seq<char>>, limit: int, offer: Seq<Seq<char>>)
    requires
        sorted_offer(paths, limit, offer),
        paths.len() <= usize::MAX,
        limit >= 0,
    ensures
        offer.len() == (if paths.len() < limit {
            paths.len() as int
        } else {
            limit
        }),
        forall|i: int| 0 <= i < offer.len() ==> paths.contains(#[trigger] offer[i]),
        forall|i: int, j: int|
            0 <= i < j < offer.len() ==> (#[trigger] offer[i]) == (#[trigger] offer[j])
                || rank::text_before(offer[i], offer[j]),
        forall|k: int|
            0 <= k < paths.len() && !offer.contains(#[trigger] paths[k]) ==> offer.len() == limit
                && forall|i: int|
                0 <= i < offer.len() ==> rank::text_before(#[trigger] offer[i], paths[k]),
{
    let n = paths.len() as int;
    let before = path_order(paths);
    let order = choose|x: Seq<usize>| #[trigger]
        rank::arranged(n, before, x) && offer == in_order(paths, x, limit);
    assert forall|i: int| 0 <= i < offer.len() implies paths.contains(#[trigger] offer[i]) by {
        assert(0 <= order[i] < n);
        assert(offer[i] == paths[order[i] as int]);
    }
    assert forall|i: int, j: int| 0 <= i < j < offer.len() implies (#[trigger] offer[i]) == (
    #[trigger] offer[j]) || rank::text_before(offer[i], offer[j]) by {
        assert(before(order[i] as int, order[j] as int));
    }
    assert forall|k: int| 0 <= k < paths.len() && !offer.contains(#[trigger] paths[k]) implies
        offer.len() == limit && forall|i: int|
        0 <= i < offer.len() ==> rank::text_before(#[trigger] offer[i], paths[k]) by {
        assert(order.contains(k as usize));
        let q = choose|q: int| 0 <= q < order.len() && order[q] == k as usize;
        assert(order[q] as int == k);
        if q < offer.len() {
            assert(offer[q] == paths[k]);
        }
        assert forall|i: int| 0 <= i < offer.len() implies rank::text_before(
            #[trigger] offer[i],
            paths[k],
        ) by {
            assert(before(order[i] as int, order[q] as int));
            assert(offer[i] == paths[order[i] as int]);
            assert(offer.contains(offer[i]));
        }
    }
}

/// What is offered for a query: every path with a score is offered unless the limit is reached, no
/// path without one is, and a better score is never behind a worse one.
pub proof fn offers_follow_scores(
    paths: Seq<Seq<char>>,
    scores: Seq<Option<u32>>,
    limit: int,
    offer: Seq<Seq<char>>,
)
    requires
        scored_offer(paths, scores, limit, offer),
        scores.len() == paths.len(),
        paths.len() <= usize::MAX,
        limit >= 0,
    ensures
        offer.len() <= limit,
        exists|at: Seq<int>|
            {
                &&& offer == #[trigger] texts_at(paths, at)
                &&& forall|i: int|
                    0 <= i < at.len() ==> 0 <= (#[trigger] at[i]) < paths.len() && scores[at[i]]
                        is Some
                &&& forall|i: int, j: int|
                    0 <= i < j < at.len() ==> scores[#[trigger] at[i]]->0 >= scores[#[trigger] at[j]]->0
                &&& forall|k: int|
                    0 <= k < paths.len() && (#[trigger] scores[k]) is Some && !at.contains(k)
                        ==> at.len() == limit && forall|i: int|
                        0 <= i < at.len() ==> scores[#[trigger] at[i]]->0 >= scores[k]->0
            },
{
    let (places, values) = rank::hits_in(scores, scores.len() as int);
    let hits = texts_at(paths, places);
    let before = score_order(hits, values);
    let order = choose|x: Seq<usize>| #[trigger]
        rank::arranged(hits.len() as int, before, x) && offer == in_order(hits, x, limit);
    hits_are_scored(scores, scores.len() as int);
    let at = Seq::new(offer.len(), |i: int| places[order[i] as int]);
    assert forall|i: int| 0 <= i < at.len() implies 0 <= (#[trigger] at[i]) < paths.len()
        && scores[at[i]] is Some by {
        assert(0 <= order[i] < hits.len());
    }
    assert(offer =~= texts_at(paths, at)) by {
        assert forall|i: int| 0 <= i < offer.len() implies offer[i] == #[trigger] texts_at(
            paths,
            at,
        )[i] by {
            assert(0 <= order[i] < hits.len());
        }
    }
    assert forall|i: int, j: int| 0 <= i < j < at.len() implies scores[#[trigger] at[i]]->0
        >= scores[#[trigger] at[j]]->0 by {
        assert(before(order[i] as int, order[j] as int));
        assert(0 <= order[i] < hits.len() && 0 <= order[j] < hits.len());
        assert(scores[places[order[i] as int]] == Some(values[order[i] as int]));
        assert(scores[places[order[j] as int]] == Some(values[order[j] as int]));
    }
    assert forall|k: int|
        0 <= k < paths.len() && (#[trigger] scores[k]) is Some && !at.contains(k) implies at.len()
        == limit && forall|i: int|
        0 <= i < at.len() ==> scores[#[trigger] at[i]]->0 >= scores[k]->0 by {
        scored_are_hits(scores, scores.len() as int, k);
        let p = choose|p: int| 0 <= p < places.len() && places[p] == k;
        assert(order.contains(p as usize));
        let q = choose|q: int| 0 <= q < order.len() && order[q] == p as usize;
        assert(order[q] as int == p);
        if q < at.len() {
            assert(at[q] == k);
        }
        assert forall|i: int| 0 <= i < at.len() implies scores[#[trigger] at[i]]->0
            >= scores[k]->0 by {
            assert(before(order[i] as int, order[q] as int));
            assert(0 <= order[i] < hits.len());
            assert(scores[places[order[i] as int]] == Some(values[order[i] as int]));
            assert(scores[places[p]] == Some(values[p]));
        }
    }
}

proof fn hits_are_scored(scores: Seq<Option<u32>>, n: int)
    requires
        0 <= n <= scores.len(),
    ensures
        ({
            let (places, values) = rank::hits_in(scores, n);
            &&& places.len() == values.len()
            &&& places.len() <= n
            &&& forall|i: int|
                0 <= i < places.len() ==> 0 <= (#[trigger] places[i]) < n && scores[places[i]]
                    == Some(values[i])
        }),
    decreases n,
{
    if n > 0 {
        hits_are_scored(scores, n - 1);
    }
}

proof fn scored_are_hits(scores: Seq<Option<u32>>, n: int, k: int)
    requires
        0 <= k < n <= scores.len(),
        scores[k] is Some,
    ensures
        rank::hits_in(scores, n).0.contains(k),
    decreases n,
{
    let before = rank::hits_in(scores, n - 1).0;
    let places = rank::hits_in(scores, n).0;
    if k == n - 1 {
        assert(places.last() == k);
    } else {
        scored_are_hits(scores, n - 1, k);
        let i = choose|i: int| 0 <= i < before.len() && before[i] == k;
        assert(places[i] == k);
    }
}

/// Every entry that is not excluded is kept, and no other: a directory with a slash behind its name.
pub proof fn kept_are_the_others(entries: Seq<FoundEntry>, excluded: Seq<bool>, n: int, k: int)
    requires
        0 <= k < n <= entries.len(),
        excluded.len() == entries.len(),
    ensures
        !excluded[k] ==> kept_paths(entries, excluded, n).contains(
            if entries[k].is_dir {
                entries[k].path@.push('/')
            } else {
                entries[k].path@
            },
        ),
        kept_paths(entries, excluded, n).len() <= n,
    decreases n,
{
    let before = kept_paths(entries, excluded, n - 1);
    let all = kept_paths(entries, excluded, n);
    let x = offered_path(entries[k]);
    if n > 1 {
        kept_are_the_others(
            entries,
            excluded,
            n - 1,
            if k < n - 1 {
                k
            } else {
                0
            },
        );
    }
    if !excluded[k] {
        if k == n - 1 {
            assert(all.last() == x);
            assert(all[all.len() - 1] == x);
        } else {
            let i = choose|i: int| 0 <= i < before.len() && before[i] == x;
            assert(all[i] == x);
        }
    }
}

/// Only entries that are not excluded are kept.
pub proof fn excluded_are_left_out(entries: Seq<FoundEntry>, excluded: Seq<bool>, n: int, i: int)
    requires
        0 <= n <= entries.len(),
        excluded.len() == entries.len(),
        0 <= i < kept_paths(entries, excluded, n).len(),
    ensures
        exists|k: int|
            0 <= k < n && !excluded[k] && kept_paths(entries, excluded, n)[i] == (
            if (#[trigger] entries[k]).is_dir {
                entries[k].path@.push('/')
            } else {
                entries[k].path@
            }),
    decreases n,
{
    let all = kept_paths(entries, excluded, n);
    let before = kept_paths(entries, excluded, n - 1);
    let last = entries[n - 1];
    if i < before.len() {
        excluded_are_left_out(entries, excluded, n - 1, i);
        assert(all[i] == before[i]);
    } else {
        assert(all[i] == offered_path(last));
    }
}

/// Every character that a shell might not take as it is stands behind a backslash.
pub proof fn special_characters_are_escaped(s: Seq<char>, i: int)
    requires
        0 <= i < escaped(s).len(),
        !is_plain(escaped(s)[i]),
        escaped(s)[i] != '\\',
    ensures
        i > 0,
        escaped(s)[i - 1] == '\\',
    decreases s.len(),
{
    if s.len() > 0 {
        let before = escaped(s.drop_last());
        if i < before.len() {
            special_characters_are_escaped(s.drop_last(), i);
            assert(escaped(s)[i] == before[i]);
            assert(escaped(s)[i - 1] == before[i - 1]);
        }
    }
}

/// The characters that mean something to a shell are not taken as they are.
pub proof fn shell_characters_are_special(c: char)
    requires
        c == ' ' || c == '\t' || c == '\n' || c == '\'' || c == '"' || c == '`' || c == '$' || c
            == '\\' || c == ';' || c == '&' || c == '|' || c == '<' || c == '>' || c == '(' || c
            == ')' || c == '{' || c == '}' || c == '[' || c == ']' || c == '*' || c == '?' || c
            == '!' || c == '#',
    ensures
        !is_plain(c),
{
}

/// What a mention is replaced by is, to the shell, its path below the current directory.
pub proof fn mentions_become_their_paths(
    line: Seq<char>,
    token_start: int,
    token_end: int,
    path: Seq<char>,
)
    requires
        0 <= token_start <= token_end <= line.len(),
    ensures
        ({
            let new = line_with_path(line, token_start, token_end, path);
            let end = new.len() - (line.len() - token_end);
            token_start <= end && unescaped(new.subrange(token_start, end)) == seq!['.', '/'] + path
        }),
{
    reveal_strlit("./");
    let new = line_with_path(line, token_start, token_end, path);
    let end = new.len() - (line.len() - token_end);
    escaping_keeps_the_text("./"@ + path);
    assert(new.subrange(token_start, end) =~= escaped("./"@ + path));
    assert("./"@ + path =~= seq!['.', '/'] + path);
}

/// The keys that replace a mention type the new line, and move the cursor left over what stands
/// behind the mention, and no further.
pub proof fn replacing_types_the_new_line(
    line: Seq<char>,
    token_start: int,
    token_end: int,
    path: Seq<char>,
)
    requires
        0 <= token_start <= token_end <= line.len(),
    ensures
        replacing_keys(line, token_start, token_end, path) matches Some(bytes) && ({
            let moves = 3 * (line.len() - token_end);
            &&& bytes.len() >= 2 + moves
            &&& utf8::decode_utf8(bytes.subrange(2, bytes.len() - moves)) == line_with_path(
                line,
                token_start,
                token_end,
                path,
            )
        }),
{
    let new = line_with_path(line, token_start, token_end, path);
    let left = seq![0x1bu8, 0x5bu8, 0x44u8];
    let n = line.len() - token_end;
    repeating_adds_up(left, n);
    utf8::encode_utf8_decode_utf8(new);
    let bytes = replacing_keys(line, token_start, token_end, path)->0;
    assert(bytes.subrange(2, bytes.len() - 3 * n) =~= utf8::encode_utf8(new));
}

proof fn repeating_adds_up(s: Seq<u8>, n: int)
    requires
        n >= 0,
        s.len() == 3,
    ensures
        repeated(s, n).len() == 3 * n,
    decreases n,
{
    if n > 0 {
        repeating_adds_up(s, n - 1);
    }
}

/// An entry is excluded where there are rules and these exclude it, for a directory as one and for a
/// file as one; without rules none is.
pub proof fn rules_decide_what_is_excluded(
    entries: Seq<FoundEntry>,
    rules: Option<Seq<Seq<char>>>,
    i: int,
)
    requires
        0 <= i < entries.len(),
    ensures
        excluded_by(entries, rules).len() == entries.len(),
        rules is None ==> !excluded_by(entries, rules)[i],
        rules matches Some(r) ==> excluded_by(entries, rules)[i] == rules_exclude(
            r,
            entries[i].path@,
            entries[i].is_dir,
        ),
{
}

} // verus!
