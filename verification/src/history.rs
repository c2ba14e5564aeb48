//! The commands that were run: what is worth keeping, and which to offer.
//!
//! The rows come from the database, one for each command line, with a number that grows with how
//! often and how recently it was run.

use crate::rank;
use crate::text;
use vstd::prelude::*;

verus! {

/// A command in the history palette.
#[derive(Debug, PartialEq, Eq)]
pub struct HistoryEntry {
    pub cmdline: String,
    /// Whether it was run in the current directory.
    pub cwd_match: bool,
}

/// A command line of the history.
#[derive(Debug)]
pub struct HistoryRow {
    pub cmdline: String,
    pub cwd_match: bool,
    /// How often and how recently it was run: the larger, the better.
    pub frecency: u64,
}

/// What a row holds.
pub struct RowView {
    pub cmdline: Seq<char>,
    pub cwd_match: bool,
    pub frecency: u64,
}

impl View for HistoryRow {
    type V = RowView;

    open spec fn view(&self) -> RowView {
        RowView {
            cmdline: self.cmdline@,
            cwd_match: self.cwd_match,
            frecency: self.frecency,
        }
    }
}

/// The command line to record: without the white space around it, and nothing where it is blank.
pub fn recorded_command(cmdline: &str) -> (r: Option<String>)
    ensures
        match r {
            Some(s) => s@ == text::trimmed(cmdline@) && s@.len() > 0,
            None => text::blank(cmdline@),
        },
{
    let chars = text::chars_of(cmdline);
    let trimmed = text::trim(&chars);
    proof {
        text::blank_trims_to_nothing(cmdline@);
    }
    if trimmed.len() == 0 {
        None
    } else {
        Some(text::string_of(&trimmed))
    }
}

/// The order of rows with scores: the best score first, then the best frecency, then as they
/// stand.
pub open spec fn row_order(frecencies: Seq<u64>, scores: Seq<u32>) -> spec_fn(int, int) -> bool {
    |i: int, j: int|
        scores[i] > scores[j] || (scores[i] == scores[j] && (frecencies[i] > frecencies[j] || (
        frecencies[i] == frecencies[j] && i < j)))
}

/// The frecencies of the rows at the places.
pub open spec fn frecencies_at(rows: Seq<HistoryRow>, places: Seq<int>) -> Seq<u64> {
    Seq::new(places.len(), |i: int| rows[places[i]].frecency)
}

/// Whether `best` is the places of the rows with a score in their order, up to `limit` of them.
pub open spec fn best_places(
    rows: Seq<HistoryRow>,
    scores: Seq<Option<u32>>,
    limit: int,
    best: Seq<int>,
) -> bool {
    let (places, values) = rank::hits_in(scores, scores.len() as int);
    exists|order: Seq<usize>| #[trigger]
        rank::arranged(
            places.len() as int,
            row_order(frecencies_at(rows, places), values),
            order,
        ) && best == Seq::new(
            if order.len() < limit {
                order.len()
            } else {
                limit as nat
            },
            |i: int| places[order[i] as int],
        )
}

pub open spec fn places_view(list: Seq<usize>) -> Seq<int> {
    Seq::new(list.len(), |i: int| list[i] as int)
}

/// The places of the rows with a score in their order, up to `limit` of them.
pub fn best_rows(rows: &[HistoryRow], scores: &[Option<u32>], limit: usize) -> (r: Vec<usize>)
    requires
        scores@.len() == rows@.len(),
    ensures
        best_places(rows@, scores@, limit as int, places_view(r@)),
        forall|i: int| 0 <= i < r@.len() ==> (#[trigger] r@[i]) < rows@.len(),
{
    let mut places: Vec<usize> = Vec::new();
    let mut values: Vec<u32> = Vec::new();
    let mut keys: Vec<u64> = Vec::new();
    let mut i: usize = 0;
    assert(places_view(places@) =~= rank::hits_in(scores@, 0).0);
    assert(keys@ =~= frecencies_at(rows@, rank::hits_in(scores@, 0).0));
    while i < rows.len()
        invariant
            i <= rows@.len(),
            scores@.len() == rows@.len(),
            places_view(places@) == rank::hits_in(scores@, i as int).0,
            values@ == rank::hits_in(scores@, i as int).1,
            keys@ == frecencies_at(rows@, rank::hits_in(scores@, i as int).0),
            places@.len() == values@.len(),
            places@.len() == keys@.len(),
            forall|k: int| 0 <= k < places@.len() ==> (#[trigger] places@[k]) < rows@.len(),
        decreases rows@.len() - i,
    {
        if let Some(score) = scores[i] {
            let ghost before = places_view(places@);
            places.push(i);
            values.push(score);
            keys.push(rows[i].frecency);
            assert(places_view(places@) =~= before.push(i as int));
            assert(keys@ =~= frecencies_at(rows@, before.push(i as int)));
        }
        i = i + 1;
    }
    let n: usize = places.len();
    let ghost order_of = row_order(keys@, values@);
    let before = |i: usize, j: usize| -> (b: bool)
        requires
            i < keys@.len(),
            j < keys@.len(),
            keys@.len() == values@.len(),
        ensures
            b == row_order(keys@, values@)(i as int, j as int),
        {
            values[i] > values[j] || (values[i] == values[j] && (keys[i] > keys[j] || (keys[i]
                == keys[j] && i < j)))
        };
    assert(rank::is_order(n as int, order_of));
    let order = rank::arrange(n, before, Ghost(order_of));
    let mut out: Vec<usize> = Vec::new();
    let mut k: usize = 0;
    let ghost all = Seq::new(
        if order@.len() < limit {
            order@.len()
        } else {
            limit as nat
        },
        |i: int| places_view(places@)[order@[i] as int],
    );
    while k < order.len() && k < limit
        invariant
            k <= all.len(),
            n == places@.len(),
            order@.len() == n,
            all == Seq::new(
                if order@.len() < limit {
                    order@.len()
                } else {
                    limit as nat
                },
                |i: int| places_view(places@)[order@[i] as int],
            ),
            forall|i: int| 0 <= i < n ==> 0 <= (#[trigger] order@[i]) < n,
            forall|i: int| 0 <= i < places@.len() ==> (#[trigger] places@[i]) < rows@.len(),
            places_view(out@) == all.take(k as int),
            forall|i: int| 0 <= i < out@.len() ==> (#[trigger] out@[i]) < rows@.len(),
        decreases all.len() - k,
    {
        assert(order@[k as int] < n);
        let place: usize = places[order[k]];
        let ghost before = places_view(out@);
        out.push(place);
        assert(place as int == all[k as int]);
        assert(places_view(out@) =~= before.push(place as int));
        k = k + 1;
        assert(places_view(out@) =~= all.take(k as int));
    }
    assert(all.take(k as int) =~= all);
    out
}

/// Whether a command is offered for the text so far: it holds the text, in upper or lower case,
/// and is not the text itself.
pub open spec fn is_suggestion(cmdline: Seq<char>, query: Seq<char>) -> bool {
    cmdline != query && text::has_part(text::lowercase(cmdline), text::lowercase(query))
}

/// The scores by which suggestions are kept: all the same.
pub open spec fn suggestion_scores(rows: Seq<HistoryRow>, query: Seq<char>) -> Seq<Option<u32>> {
    Seq::new(
        rows.len(),
        |i: int|
            if is_suggestion(rows[i].cmdline@, query) {
                Some(0u32)
            } else {
                None
            },
    )
}

/// The command lines at the places.
pub open spec fn cmdlines_at(rows: Seq<HistoryRow>, places: Seq<int>) -> Seq<Seq<char>> {
    Seq::new(places.len(), |i: int| rows[places[i]].cmdline@)
}

pub open spec fn strings_view(list: Seq<String>) -> Seq<Seq<char>> {
    Seq::new(list.len(), |i: int| list[i]@)
}

/// Whether a text, in lower case, holds another, in lower case, and is not the same text.
pub fn suggests(cmdline: &str, query: &str, lower_cmdline: &str, lower_query: &str) -> (r: bool)
    ensures
        r == (cmdline@ != query@ && text::has_part(lower_cmdline@, lower_query@)),
{
    let a = text::chars_of(cmdline);
    let b = text::chars_of(query);
    let haystack = text::chars_of(lower_cmdline);
    let needle = text::chars_of(lower_query);
    !text::same(&a, &b) && text::contains(&haystack, &needle)
}

/// The commands to offer while a line is typed: those that hold what was typed, the best frecency
/// first, up to `limit` of them.
pub fn suggest(rows: &[HistoryRow], query: &str, limit: usize) -> (r: Vec<String>)
    ensures
        query@.len() == 0 ==> r@.len() == 0,
        query@.len() > 0 ==> exists|best: Seq<int>| #[trigger]
            best_places(rows@, suggestion_scores(rows@, query@), limit as int, best)
                && strings_view(r@) == cmdlines_at(rows@, best),
        query@.len() > 0 ==> exists|at: Seq<int>|
            {
                &&& strings_view(r@) == #[trigger] cmdlines_at(rows@, at)
                &&& at.len() <= limit
                &&& forall|i: int|
                    0 <= i < at.len() ==> 0 <= (#[trigger] at[i]) < rows@.len()
                        && rows@[at[i]].cmdline@ != query@ && text::has_part(
                        text::lowercase(rows@[at[i]].cmdline@),
                        text::lowercase(query@),
                    )
                &&& forall|i: int, j: int|
                    0 <= i < j < at.len() ==> #[trigger] at[i] != #[trigger] at[j]
                        && rows@[at[i]].frecency >= rows@[at[j]].frecency
                &&& forall|k: int|
                    0 <= k < rows@.len() && (#[trigger] rows@[k]).cmdline@ != query@
                        && text::has_part(
                        text::lowercase(rows@[k].cmdline@),
                        text::lowercase(query@),
                    ) && !at.contains(k) ==> at.len() == limit && forall|i: int|
                        0 <= i < at.len() ==> rows@[#[trigger] at[i]].frecency >= rows@[k].frecency
            },
{
    let mut out: Vec<String> = Vec::new();
    if query.is_empty() {
        return out;
    }
    let needle = text::to_lowercase(query);
    let mut scores: Vec<Option<u32>> = Vec::new();
    let mut i: usize = 0;
    while i < rows.len()
        invariant
            i <= rows@.len(),
            needle@ == text::lowercase(query@),
            scores@ == suggestion_scores(rows@, query@).take(i as int),
        decreases rows@.len() - i,
    {
        let cmdline = rows[i].cmdline.as_str();
        let lower = text::to_lowercase(cmdline);
        scores.push(
            if suggests(cmdline, query, lower.as_str(), needle.as_str()) {
                Some(0)
            } else {
                None
            },
        );
        i = i + 1;
        assert(scores@ =~= suggestion_scores(rows@, query@).take(i as int));
    }
    assert(scores@ =~= suggestion_scores(rows@, query@));
    let best = best_rows(rows, &scores, limit);
    let ghost places = places_view(best@);
    let mut k: usize = 0;
    while k < best.len()
        invariant
            k <= best@.len(),
            places == places_view(best@),
            forall|i: int| 0 <= i < best@.len() ==> (#[trigger] best@[i]) < rows@.len(),
            strings_view(out@) == cmdlines_at(rows@, places).take(k as int),
        decreases best@.len() - k,
    {
        let ghost before = strings_view(out@);
        assert(best@[k as int] < rows@.len());
        let s = rows[best[k]].cmdline.clone();
        out.push(s);
        assert(strings_view(out@) =~= before.push(s@));
        assert(s@ == cmdlines_at(rows@, places)[k as int]);
        k = k + 1;
        assert(strings_view(out@) =~= cmdlines_at(rows@, places).take(k as int));
    }
    assert(strings_view(out@) =~= cmdlines_at(rows@, places));
    proof {
        suggestions_follow_frecency(rows@, query@, limit as int, places);
    }
    out
}

/// The scores of a search: all the same for a blank query, else those of the fuzzy finder.
pub open spec fn search_scores(rows: Seq<HistoryRow>, query: Seq<char>) -> Seq<Option<u32>> {
    Seq::new(
        rows.len(),
        |i: int|
            if text::blank(query) {
                Some(0u32)
            } else {
                rank::fuzzy(query, rows[i].cmdline@)
            },
    )
}

/// Whether the entries are those of the rows at the places.
pub open spec fn entries_at(
    rows: Seq<HistoryRow>,
    places: Seq<int>,
    entries: Seq<HistoryEntry>,
) -> bool {
    &&& entries.len() == places.len()
    &&& forall|i: int|
        0 <= i < entries.len() ==> (#[trigger] entries[i]).cmdline@ == rows[places[i]].cmdline@
            && entries[i].cwd_match == rows[places[i]].cwd_match
}

/// The rows can be handed to the fuzzy finder.
pub open spec fn rows_wf(rows: Seq<HistoryRow>) -> bool {
    forall|i: int| 0 <= i < rows.len() ==> (#[trigger] rows[i]).cmdline@.len() <= u32::MAX
}

/// The entries of the rows with a score in their order, up to `limit` of them.
pub fn best_entries(rows: &[HistoryRow], scores: &[Option<u32>], limit: usize) -> (r: Vec<
    HistoryEntry,
>)
    requires
        scores@.len() == rows@.len(),
    ensures
        exists|best: Seq<int>| #[trigger]
            best_places(rows@, scores@, limit as int, best) && entries_at(rows@, best, r@),
{
    let best = best_rows(rows, scores, limit);
    let ghost places = places_view(best@);
    let mut out: Vec<HistoryEntry> = Vec::new();
    let mut k: usize = 0;
    while k < best.len()
        invariant
            k <= best@.len(),
            places == places_view(best@),
            forall|i: int| 0 <= i < best@.len() ==> (#[trigger] best@[i]) < rows@.len(),
            entries_at(rows@, places.take(k as int), out@),
        decreases best@.len() - k,
    {
        assert(best@[k as int] < rows@.len());
        let row = &rows[best[k]];
        out.push(HistoryEntry { cmdline: row.cmdline.clone(), cwd_match: row.cwd_match });
        k = k + 1;
    }
    assert(places.take(k as int) =~= places);
    out
}

/// The commands of the history palette: those that match the query, the best score first, then the
/// best frecency, up to `limit` of them.
pub fn search(rows: &[HistoryRow], query: &str, limit: usize) -> (r: Vec<HistoryEntry>)
    requires
        rows_wf(rows@),
        text::blank(query@) || query@.len() <= rank::MAX_QUERY,
    ensures
        exists|best: Seq<int>| #[trigger]
            best_places(rows@, search_scores(rows@, query@), limit as int, best) && entries_at(
                rows@,
                best,
                r@,
            ),
        exists|at: Seq<int>|
            {
                &&& #[trigger] entries_at(rows@, at, r@)
                &&& at.len() <= limit
                &&& forall|i: int|
                    0 <= i < at.len() ==> 0 <= (#[trigger] at[i]) < rows@.len() && (text::blank(
                        query@,
                    ) || rank::fuzzy(query@, rows@[at[i]].cmdline@) is Some)
                &&& forall|i: int, j: int|
                    0 <= i < j < at.len() ==> #[trigger] at[i] != #[trigger] at[j]
                &&& forall|k: int|
                    0 <= k < rows@.len() && (text::blank(query@) || rank::fuzzy(
                        query@,
                        (#[trigger] rows@[k]).cmdline@,
                    ) is Some) && !at.contains(k) ==> at.len() == limit
            },
        r@.len() <= limit,
        limit >= rows@.len() ==> forall|k: int|
            0 <= k < rows@.len() && (text::blank(query@) || rank::fuzzy(
                query@,
                (#[trigger] rows@[k]).cmdline@,
            ) is Some) ==> exists|i: int|
                0 <= i < r@.len() && (#[trigger] r@[i]).cmdline@ == rows@[k].cmdline@
                    && r@[i].cwd_match == rows@[k].cwd_match,
{
    let blank = text::is_blank(query);
    let mut scores: Vec<Option<u32>> = Vec::new();
    let mut i: usize = 0;
    while i < rows.len()
        invariant
            i <= rows@.len(),
            rows_wf(rows@),
            blank == text::blank(query@),
            blank || query@.len() <= rank::MAX_QUERY,
            scores@ == search_scores(rows@, query@).take(i as int),
        decreases rows@.len() - i,
    {
        scores.push(
            if blank {
                Some(0)
            } else {
                rank::fuzzy_score(query, rows[i].cmdline.as_str())
            },
        );
        i = i + 1;
        assert(scores@ =~= search_scores(rows@, query@).take(i as int));
    }
    assert(scores@ =~= search_scores(rows@, query@));
    let found = best_entries(rows, &scores, limit);
    proof {
        let best = choose|best: Seq<int>| #[trigger]
            best_places(rows@, search_scores(rows@, query@), limit as int, best) && entries_at(
                rows@,
                best,
                found@,
            );
        search_finds_all_matches(rows@, query@, limit as int, best);
        matches_are_entries(rows@, query@, limit as int, best, found@);
    }
    found
}

/// Which rows are offered for any scores: rows with a score, none twice, a better one never behind a
/// worse one, and rows that are equally good in the order in which they stand. A row with a score is
/// left out only where the limit is reached, and then it is no better than any that is offered.
pub proof fn the_best_are_offered(
    rows: Seq<HistoryRow>,
    scores: Seq<Option<u32>>,
    limit: int,
    best: Seq<int>,
)
    requires
        best_places(rows, scores, limit, best),
        scores.len() == rows.len(),
        rows.len() <= usize::MAX,
        limit >= 0,
    ensures
        best.len() <= limit,
        forall|i: int|
            0 <= i < best.len() ==> 0 <= (#[trigger] best[i]) < rows.len() && scores[best[i]]
                is Some,
        forall|i: int, j: int|
            0 <= i < j < best.len() ==> ({
                let (a, b) = (#[trigger] best[i], #[trigger] best[j]);
                ||| scores[a]->0 > scores[b]->0
                ||| scores[a]->0 == scores[b]->0 && rows[a].frecency > rows[b].frecency
                ||| scores[a]->0 == scores[b]->0 && rows[a].frecency == rows[b].frecency && a < b
            }),
        forall|k: int|
            0 <= k < rows.len() && (#[trigger] scores[k]) is Some && !best.contains(k)
                ==> best.len() == limit,
        forall|k: int, i: int|
            0 <= k < rows.len() && (#[trigger] scores[k]) is Some && !best.contains(k) && 0 <= i
                < best.len() ==> ({
                let a = #[trigger] best[i];
                ||| scores[a]->0 > scores[k]->0
                ||| scores[a]->0 == scores[k]->0 && rows[a].frecency >= rows[k].frecency
            }),
{
    let (places, values) = rank::hits_in(scores, scores.len() as int);
    hits_have_scores(scores, scores.len() as int);
    let keys = frecencies_at(rows, places);
    let before = row_order(keys, values);
    let order = choose|order: Seq<usize>| #[trigger]
        rank::arranged(places.len() as int, before, order) && best == Seq::new(
            if order.len() < limit {
                order.len()
            } else {
                limit as nat
            },
            |i: int| places[order[i] as int],
        );
    assert forall|i: int| 0 <= i < best.len() implies 0 <= (#[trigger] best[i]) < rows.len()
        && scores[best[i]] is Some by {
        assert(0 <= order[i] < places.len());
        assert(best[i] == places[order[i] as int]);
    }
    assert forall|i: int, j: int| 0 <= i < j < best.len() implies ({
        let (a, b) = (#[trigger] best[i], #[trigger] best[j]);
        ||| scores[a]->0 > scores[b]->0
        ||| scores[a]->0 == scores[b]->0 && rows[a].frecency > rows[b].frecency
        ||| scores[a]->0 == scores[b]->0 && rows[a].frecency == rows[b].frecency && a < b
    }) by {
        let a = order[i] as int;
        let b = order[j] as int;
        assert(before(order[i] as int, order[j] as int));
        assert(best[i] == places[a] && best[j] == places[b]);
        assert(0 <= a < places.len() && 0 <= b < places.len());
        assert(scores[places[a]] == Some(values[a]));
        assert(scores[places[b]] == Some(values[b]));
    }
    assert forall|k: int|
        0 <= k < rows.len() && (#[trigger] scores[k]) is Some && !best.contains(k) implies best.len()
        == limit && forall|i: int|
        0 <= i < best.len() ==> ({
            let a = #[trigger] best[i];
            ||| scores[a]->0 > scores[k]->0
            ||| scores[a]->0 == scores[k]->0 && rows[a].frecency >= rows[k].frecency
        }) by {
        hits_are_complete(scores, scores.len() as int, k);
        hits_are_few(scores, scores.len() as int);
        let p = choose|p: int| 0 <= p < places.len() && places[p] == k;
        assert(order.contains(p as usize));
        let q = choose|q: int| 0 <= q < order.len() && order[q] == p as usize;
        assert(order[q] as int == p);
        if q < best.len() {
            assert(best[q] == places[order[q] as int]);
            assert(best.contains(k));
        }
        assert forall|i: int| 0 <= i < best.len() implies ({
            let a = #[trigger] best[i];
            ||| scores[a]->0 > scores[k]->0
            ||| scores[a]->0 == scores[k]->0 && rows[a].frecency >= rows[k].frecency
        }) by {
            let a = order[i] as int;
            assert(before(order[i] as int, order[q] as int));
            assert(best[i] == places[a]);
            assert(0 <= a < places.len());
            assert(scores[places[a]] == Some(values[a]));
            assert(scores[places[p]] == Some(values[p]));
        }
    }
}

/// There are no more hits than items.
proof fn hits_are_few(scores: Seq<Option<u32>>, n: int)
    requires
        0 <= n,
    ensures
        rank::hits_in(scores, n).0.len() <= n,
    decreases n,
{
    if n > 0 {
        hits_are_few(scores, n - 1);
    }
}

/// Every item with a score is among the hits.
proof fn hits_are_complete(scores: Seq<Option<u32>>, n: int, k: int)
    requires
        0 <= k < n <= scores.len(),
        scores[k] is Some,
    ensures
        rank::hits_in(scores, n).0.contains(k),
    decreases n,
{
    let (before, _) = rank::hits_in(scores, n - 1);
    let (places, _) = rank::hits_in(scores, n);
    if k == n - 1 {
        assert(places.last() == k);
    } else {
        hits_are_complete(scores, n - 1, k);
        let i = choose|i: int| 0 <= i < before.len() && before[i] == k;
        assert(places[i] == k);
    }
}

/// What is offered while a line is typed: commands that hold what was typed and are not it, none
/// twice, the one with the larger frecency first. A command that holds it is left out only where the
/// limit is reached, and then its frecency is not larger than that of any that is offered.
pub proof fn suggestions_follow_frecency(
    rows: Seq<HistoryRow>,
    query: Seq<char>,
    limit: int,
    at: Seq<int>,
)
    requires
        best_places(rows, suggestion_scores(rows, query), limit, at),
        rows.len() <= usize::MAX,
        limit >= 0,
    ensures
        at.len() <= limit,
        forall|i: int|
            0 <= i < at.len() ==> 0 <= (#[trigger] at[i]) < rows.len() && rows[at[i]].cmdline@
                != query && text::has_part(
                text::lowercase(rows[at[i]].cmdline@),
                text::lowercase(query),
            ),
        forall|i: int, j: int|
            0 <= i < j < at.len() ==> #[trigger] at[i] != #[trigger] at[j] && rows[at[i]].frecency
                >= rows[at[j]].frecency && (rows[at[i]].frecency == rows[at[j]].frecency ==> at[i]
                < at[j]),
        forall|k: int|
            0 <= k < rows.len() && (#[trigger] rows[k]).cmdline@ != query && text::has_part(
                text::lowercase(rows[k].cmdline@),
                text::lowercase(query),
            ) && !at.contains(k) ==> at.len() == limit && forall|i: int|
                0 <= i < at.len() ==> rows[#[trigger] at[i]].frecency >= rows[k].frecency,
{
    let scores = suggestion_scores(rows, query);
    the_best_are_offered(rows, scores, limit, at);
    assert forall|i: int, j: int| 0 <= i < j < at.len() implies #[trigger] at[i] != #[trigger] at[j]
        && rows[at[i]].frecency >= rows[at[j]].frecency && (rows[at[i]].frecency
        == rows[at[j]].frecency ==> at[i] < at[j]) by {
        assert(scores[at[i]] is Some && scores[at[j]] is Some);
    }
    assert forall|k: int|
        0 <= k < rows.len() && (#[trigger] rows[k]).cmdline@ != query && text::has_part(
            text::lowercase(rows[k].cmdline@),
            text::lowercase(query),
        ) && !at.contains(k) implies at.len() == limit && forall|i: int|
        0 <= i < at.len() ==> rows[#[trigger] at[i]].frecency >= rows[k].frecency by {
        assert(scores[k] is Some);
        assert forall|i: int| 0 <= i < at.len() implies rows[#[trigger] at[i]].frecency
            >= rows[k].frecency by {
            assert(scores[at[i]] is Some);
        }
    }
}

/// What a search finds: for a query that is not blank, rows that the fuzzy finder matches, none
/// twice, the better score first, then the larger frecency; for a blank query all rows, the larger
/// frecency first. Whether a row is found does not depend on anything but its command line. A match
/// is left out only where the limit is reached, and then it is no better than any that is found.
pub proof fn search_finds_all_matches(
    rows: Seq<HistoryRow>,
    query: Seq<char>,
    limit: int,
    at: Seq<int>,
)
    requires
        best_places(rows, search_scores(rows, query), limit, at),
        rows.len() <= usize::MAX,
        limit >= 0,
    ensures
        at.len() <= limit,
        forall|i: int|
            0 <= i < at.len() ==> 0 <= (#[trigger] at[i]) < rows.len() && (text::blank(query)
                || rank::fuzzy(query, rows[at[i]].cmdline@) is Some),
        forall|i: int, j: int|
            0 <= i < j < at.len() ==> #[trigger] at[i] != #[trigger] at[j] && (if text::blank(query) {
                rows[at[i]].frecency >= rows[at[j]].frecency
            } else {
                let a = rank::fuzzy(query, rows[at[i]].cmdline@)->0;
                let b = rank::fuzzy(query, rows[at[j]].cmdline@)->0;
                a > b || a == b && rows[at[i]].frecency >= rows[at[j]].frecency
            }),
        forall|k: int|
            0 <= k < rows.len() && (text::blank(query) || rank::fuzzy(
                query,
                (#[trigger] rows[k]).cmdline@,
            ) is Some) && !at.contains(k) ==> at.len() == limit && forall|i: int|
                0 <= i < at.len() ==> (if text::blank(query) {
                    rows[#[trigger] at[i]].frecency >= rows[k].frecency
                } else {
                    let a = rank::fuzzy(query, rows[at[i]].cmdline@)->0;
                    let b = rank::fuzzy(query, rows[k].cmdline@)->0;
                    a > b || a == b && rows[at[i]].frecency >= rows[k].frecency
                }),
        limit >= rows.len() ==> forall|k: int|
            0 <= k < rows.len() && (text::blank(query) || rank::fuzzy(
                query,
                (#[trigger] rows[k]).cmdline@,
            ) is Some) ==> at.contains(k),
{
    let scores = search_scores(rows, query);
    the_best_are_offered(rows, scores, limit, at);
    assert forall|i: int, j: int| 0 <= i < j < at.len() implies #[trigger] at[i] != #[trigger] at[j]
        && (if text::blank(query) {
        rows[at[i]].frecency >= rows[at[j]].frecency
    } else {
        let a = rank::fuzzy(query, rows[at[i]].cmdline@)->0;
        let b = rank::fuzzy(query, rows[at[j]].cmdline@)->0;
        a > b || a == b && rows[at[i]].frecency >= rows[at[j]].frecency
    }) by {
        assert(scores[at[i]] is Some && scores[at[j]] is Some);
    }
    assert forall|k: int|
        0 <= k < rows.len() && (text::blank(query) || rank::fuzzy(
            query,
            (#[trigger] rows[k]).cmdline@,
        ) is Some) && !at.contains(k) implies at.len() == limit && forall|i: int|
        0 <= i < at.len() ==> (if text::blank(query) {
            rows[#[trigger] at[i]].frecency >= rows[k].frecency
        } else {
            let a = rank::fuzzy(query, rows[at[i]].cmdline@)->0;
            let b = rank::fuzzy(query, rows[k].cmdline@)->0;
            a > b || a == b && rows[at[i]].frecency >= rows[k].frecency
        }) by {
        assert(scores[k] is Some);
        assert forall|i: int| 0 <= i < at.len() implies (if text::blank(query) {
            rows[#[trigger] at[i]].frecency >= rows[k].frecency
        } else {
            let a = rank::fuzzy(query, rows[at[i]].cmdline@)->0;
            let b = rank::fuzzy(query, rows[k].cmdline@)->0;
            a > b || a == b && rows[at[i]].frecency >= rows[k].frecency
        }) by {
            assert(scores[at[i]] is Some);
        }
    }
    if limit >= rows.len() {
        assert forall|k: int|
            0 <= k < rows.len() && (text::blank(query) || rank::fuzzy(
                query,
                (#[trigger] rows[k]).cmdline@,
            ) is Some) implies at.contains(k) by {
            if !at.contains(k) {
                assert(scores[k] is Some);
                distinct_are_few(at, rows.len() as int, k);
            }
        }
    }
}

/// Where the limit leaves room for all, every row that matches is among the entries of a search.
pub proof fn matches_are_entries(
    rows: Seq<HistoryRow>,
    query: Seq<char>,
    limit: int,
    at: Seq<int>,
    entries: Seq<HistoryEntry>,
)
    requires
        best_places(rows, search_scores(rows, query), limit, at),
        entries_at(rows, at, entries),
        rows.len() <= usize::MAX,
        limit >= 0,
    ensures
        entries.len() <= limit,
        limit >= rows.len() ==> forall|k: int|
            0 <= k < rows.len() && (text::blank(query) || rank::fuzzy(
                query,
                (#[trigger] rows[k]).cmdline@,
            ) is Some) ==> exists|i: int|
                0 <= i < entries.len() && (#[trigger] entries[i]).cmdline@ == rows[k].cmdline@
                    && entries[i].cwd_match == rows[k].cwd_match,
{
    search_finds_all_matches(rows, query, limit, at);
    if limit >= rows.len() {
        assert forall|k: int|
            0 <= k < rows.len() && (text::blank(query) || rank::fuzzy(
                query,
                (#[trigger] rows[k]).cmdline@,
            ) is Some) implies exists|i: int|
            0 <= i < entries.len() && (#[trigger] entries[i]).cmdline@ == rows[k].cmdline@
                && entries[i].cwd_match == rows[k].cwd_match by {
            assert(at.contains(k));
            let i = choose|i: int| 0 <= i < at.len() && at[i] == k;
            assert(entries[i].cmdline@ == rows[k].cmdline@);
        }
    }
}

/// Distinct numbers below `n` that leave one out are fewer than `n`.
proof fn distinct_are_few(list: Seq<int>, n: int, missing: int)
    requires
        0 <= missing < n,
        forall|i: int| 0 <= i < list.len() ==> 0 <= (#[trigger] list[i]) < n,
        forall|i: int, j: int| 0 <= i < j < list.len() ==> #[trigger] list[i] != #[trigger] list[j],
        !list.contains(missing),
    ensures
        list.len() < n,
{
    let all = list.push(missing);
    assert(all.no_duplicates());
    all.unique_seq_to_set();
    let below = vstd::set_lib::set_int_range(0, n);
    vstd::set_lib::lemma_int_range(0, n);
    assert(all.to_set().subset_of(below)) by {
        assert forall|x: int| all.to_set().contains(x) implies below.contains(x) by {
            let i = choose|i: int| 0 <= i < all.len() && all[i] == x;
            if i < list.len() {
                assert(list[i] == x);
            }
        }
    }
    vstd::set_lib::lemma_len_subset(all.to_set(), below);
}

/// What is offered is determined by the rows and their scores: there is one such list of places.
pub proof fn offers_are_determined(
    rows: Seq<HistoryRow>,
    scores: Seq<Option<u32>>,
    limit: int,
    a: Seq<int>,
    b: Seq<int>,
)
    requires
        best_places(rows, scores, limit, a),
        best_places(rows, scores, limit, b),
    ensures
        a == b,
{
    let (places, values) = rank::hits_in(scores, scores.len() as int);
    let n = places.len() as int;
    let order = row_order(frecencies_at(rows, places), values);
    assert(rank::is_order(n, order));
    let first = choose|x: Seq<usize>| #[trigger]
        rank::arranged(n, order, x) && a == Seq::new(
            if x.len() < limit {
                x.len()
            } else {
                limit as nat
            },
            |i: int| places[x[i] as int],
        );
    let second = choose|x: Seq<usize>| #[trigger]
        rank::arranged(n, order, x) && b == Seq::new(
            if x.len() < limit {
                x.len()
            } else {
                limit as nat
            },
            |i: int| places[x[i] as int],
        );
    rank::arrangement_is_unique(n, order, first, second);
    assert(a =~= b);
}

/// No more than `limit` commands are offered, each once, and all of them have a score.
pub proof fn offers_are_limited(
    rows: Seq<HistoryRow>,
    scores: Seq<Option<u32>>,
    limit: int,
    best: Seq<int>,
)
    requires
        best_places(rows, scores, limit, best),
        scores.len() == rows.len(),
        limit >= 0,
    ensures
        best.len() <= limit,
        forall|i: int|
            0 <= i < best.len() ==> 0 <= (#[trigger] best[i]) < rows.len() && scores[best[i]]
                is Some,
        forall|i: int, j: int|
            0 <= i < j < best.len() ==> (#[trigger] best[i]) != (#[trigger] best[j]) && !better(
                rows,
                scores,
                best[j],
                best[i],
            ),
{
    let (places, values) = rank::hits_in(scores, scores.len() as int);
    hits_have_scores(scores, scores.len() as int);
    let keys = frecencies_at(rows, places);
    let before = row_order(keys, values);
    let order = choose|order: Seq<usize>| #[trigger]
        rank::arranged(places.len() as int, before, order) && best == Seq::new(
            if order.len() < limit {
                order.len()
            } else {
                limit as nat
            },
            |i: int| places[order[i] as int],
        );
    assert forall|i: int| 0 <= i < best.len() implies 0 <= (#[trigger] best[i]) < rows.len()
        && scores[best[i]] is Some by {
        assert(0 <= order[i] < places.len());
        assert(best[i] == places[order[i] as int]);
    }
    assert forall|i: int, j: int| 0 <= i < j < best.len() implies (#[trigger] best[i]) != (
    #[trigger] best[j]) && !better(rows, scores, best[j], best[i]) by {
        let a = order[i] as int;
        let b = order[j] as int;
        assert(before(order[i] as int, order[j] as int));
        assert(best[i] == places[a] && best[j] == places[b]);
        assert(0 <= a < places.len() && 0 <= b < places.len());
        assert(a != b);
        assert(scores[places[a]] == Some(values[a]));
        assert(scores[places[b]] == Some(values[b]));
    }
}

/// Whether a row with a score stands above another in the order.
pub open spec fn better(
    rows: Seq<HistoryRow>,
    scores: Seq<Option<u32>>,
    a: int,
    b: int,
) -> bool {
    scores[a]->0 > scores[b]->0 || (scores[a] == scores[b] && rows[a].frecency > rows[b].frecency)
}

proof fn hits_have_scores(scores: Seq<Option<u32>>, n: int)
    requires
        0 <= n <= scores.len(),
    ensures
        ({
            let (places, values) = rank::hits_in(scores, n);
            &&& places.len() == values.len()
            &&& forall|i: int|
                0 <= i < places.len() ==> 0 <= (#[trigger] places[i]) < n && scores[places[i]]
                    == Some(values[i])
            &&& forall|i: int, j: int|
                0 <= i < j < places.len() ==> (#[trigger] places[i]) < (#[trigger] places[j])
        }),
    decreases n,
{
    if n > 0 {
        hits_have_scores(scores, n - 1);
    }
}

/// What is handed out for a place is the command line of the row in that place, and for a search also
/// whether it was run in the current directory.
pub proof fn places_stand_for_their_rows(
    rows: Seq<HistoryRow>,
    places: Seq<int>,
    entries: Seq<HistoryEntry>,
    i: int,
)
    requires
        0 <= i < places.len(),
    ensures
        cmdlines_at(rows, places).len() == places.len(),
        cmdlines_at(rows, places)[i] == rows[places[i]].cmdline@,
        entries_at(rows, places, entries) ==> entries.len() == places.len() && entries[i].cmdline@
            == rows[places[i]].cmdline@ && entries[i].cwd_match == rows[places[i]].cwd_match,
{
}

} // verus!
