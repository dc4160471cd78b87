//! The process table: sorting and filtering the rows.

use vstd::prelude::*;

use super::engine::{one_span, Engine};
use super::{row_views, ProcRow, RowView, SortKey};
use crate::{sort, text};

verus! {

/// Whether `a` ranks below `b` in the column. Names compare case-insensitively.
pub open spec fn key_below(a: RowView, b: RowView, key: SortKey) -> bool {
    match key {
        SortKey::Rate => a.total_rate().below(b.total_rate()),
        SortKey::Total => a.total_bytes() < b.total_bytes(),
        SortKey::Name => text::precedes(text::lowered(a.name), text::lowered(b.name)),
        SortKey::Conns => a.conns < b.conns,
        SortKey::Pid => a.pid < b.pid,
    }
}

/// The order of the table: by the column, from the top down if `descending`,
/// and rows that tie by pid.
pub open spec fn row_before(a: RowView, b: RowView, key: SortKey, descending: bool) -> bool {
    let (x, y) = if descending {
        (b, a)
    } else {
        (a, b)
    };
    key_below(x, y, key) || (!key_below(y, x, key) && a.pid < b.pid)
}

/// [`row_before`] as a relation between rows.
pub open spec fn row_order(key: SortKey, descending: bool) -> spec_fn(ProcRow, ProcRow) -> bool {
    |a: ProcRow, b: ProcRow| row_before(a@, b@, key, descending)
}

proof fn lemma_key_ranks(a: RowView, b: RowView, c: RowView, key: SortKey)
    requires
        !key_below(a, b, key),
        !key_below(b, c, key),
    ensures
        !key_below(a, c, key),
{
    match key {
        SortKey::Rate => {
            crate::rate::lemma_below_ranks(a.total_rate(), b.total_rate(), c.total_rate());
        },
        SortKey::Name => {
            text::lemma_precedes_ranks(
                text::lowered(a.name),
                text::lowered(b.name),
                text::lowered(c.name),
            );
        },
        _ => {},
    }
}

proof fn lemma_row_before_asymmetric(a: RowView, b: RowView, key: SortKey, descending: bool)
    requires
        row_before(a, b, key, descending),
    ensures
        !row_before(b, a, key, descending),
{
    if key == SortKey::Name {
        let (x, y) = (text::lowered(a.name), text::lowered(b.name));
        if text::precedes(x, y) {
            text::lemma_precedes_asymmetric(x, y);
        }
        if text::precedes(y, x) {
            text::lemma_precedes_asymmetric(y, x);
        }
    }
}

/// The table's order ranks the rows, whatever the column and direction.
pub proof fn lemma_row_order_ranks(key: SortKey, descending: bool)
    ensures
        sort::ranks(row_order(key, descending)),
{
    let rel = row_order(key, descending);
    assert forall|a: ProcRow, b: ProcRow| #[trigger] rel(a, b) implies !rel(b, a) by {
        lemma_row_before_asymmetric(a@, b@, key, descending);
    }
    assert forall|a: ProcRow, b: ProcRow, c: ProcRow|
        #![trigger rel(a, b), rel(b, c)]
        !rel(a, b) && !rel(b, c) implies !rel(a, c) by {
        let (x, y, z) = if descending {
            (c@, b@, a@)
        } else {
            (a@, b@, c@)
        };
        lemma_key_ranks(x, y, z, key);
        if !key_below(z, x, key) {
            lemma_key_ranks(y, z, x, key);
            lemma_key_ranks(z, x, y, key);
        }
    }
}

fn key_is_below(a: &ProcRow, b: &ProcRow, key: SortKey) -> (r: bool)
    ensures
        r == key_below(a@, b@, key),
{
    match key {
        SortKey::Rate => a.total_rate().is_below(&b.total_rate()),
        SortKey::Total => a.total_bytes() < b.total_bytes(),
        SortKey::Name => {
            let x: String = text::lowercase(a.name.as_str());
            let y: String = text::lowercase(b.name.as_str());
            text::is_before(x.as_str(), y.as_str())
        },
        SortKey::Conns => a.conns < b.conns,
        SortKey::Pid => a.pid < b.pid,
    }
}

fn row_goes_before(a: &ProcRow, b: &ProcRow, key: SortKey, descending: bool) -> (r: bool)
    ensures
        r == row_before(a@, b@, key, descending),
{
    let (up, down): (bool, bool) = (key_is_below(a, b, key), key_is_below(b, a, key));
    if descending {
        down || (!up && a.pid < b.pid)
    } else {
        up || (!down && a.pid < b.pid)
    }
}

/// Sort rows in place by `key`. `descending` flips the order; `Name` sorts
/// case-insensitively. Ties always break by pid for a stable, jitter-free table.
pub fn sort_rows(rows: &mut [ProcRow], key: SortKey, descending: bool)
    ensures
        sort::stably_sorted(old(rows)@, final(rows)@, row_order(key, descending)),
{
    proof {
        lemma_row_order_ranks(key, descending);
    }
    let before = |a: &ProcRow, b: &ProcRow| -> (r: bool)
        ensures
            r == row_before(a@, b@, key, descending),
    {
        row_goes_before(a, b, key, descending)
    };
    sort::sort_by(rows, before, Ghost(row_order(key, descending)));
}

/// [`row_before`] as a relation between what rows say.
pub open spec fn table_order(key: SortKey, descending: bool) -> spec_fn(RowView, RowView) -> bool {
    |a: RowView, b: RowView| row_before(a, b, key, descending)
}

proof fn lemma_sorted_views(
    from: Seq<ProcRow>,
    to: Seq<ProcRow>,
    key: SortKey,
    descending: bool,
)
    requires
        sort::stably_sorted(from, to, row_order(key, descending)),
    ensures
        sort::stably_sorted(row_views(from), row_views(to), table_order(key, descending)),
{
    let rel = row_order(key, descending);
    let at = choose|at: Seq<int>| #[trigger]
        sort::rearranged(from, to, at) && sort::in_order(to, at, rel);
    let (f, t) = (row_views(from), row_views(to));
    assert(sort::rearranged(f, t, at));
    assert forall|i: int, j: int|
        #![trigger t[i], t[j]]
        0 <= i < j < t.len() implies !row_before(t[j], t[i], key, descending) && (!row_before(
        t[i],
        t[j],
        key,
        descending,
    ) ==> at[i] < at[j]) by {
        assert(!rel(to[j], to[i]) && (!rel(to[i], to[j]) ==> at[i] < at[j]));
    }
    assert(sort::in_order(t, at, table_order(key, descending)));
}

/// The filter as a predicate.
pub open spec fn matching(filter: Seq<char>) -> spec_fn(RowView) -> bool {
    |r: RowView| matches(r, filter)
}

/// Whether `out` is the table of `rows` under the filter: those that match it,
/// sorted by the column.
pub open spec fn is_table(
    out: Seq<RowView>,
    rows: Seq<RowView>,
    filter: Seq<char>,
    key: SortKey,
    descending: bool,
) -> bool {
    sort::stably_sorted(rows.filter(matching(filter)), out, table_order(key, descending))
}

/// The rows that match the filter, sorted by the column.
pub fn visible_rows(rows: &[ProcRow], filter: &str, key: SortKey, descending: bool) -> (out: Vec<
    ProcRow,
>)
    ensures
        is_table(row_views(out@), row_views(rows@), filter@, key, descending),
{
    let ghost views = row_views(rows@);
    let ghost want = matching(filter@);
    let mut out: Vec<ProcRow> = Vec::new();
    let mut i: usize = 0;
    proof {
        reveal(Seq::filter);
        assert(row_views(out@) =~= views.take(0).filter(want));
    }
    while i < rows.len()
        invariant
            views == row_views(rows@),
            want == matching(filter@),
            i <= rows@.len(),
            row_views(out@) == views.take(i as int).filter(want),
        decreases rows@.len() - i,
    {
        let ghost was = out@;
        if matches_filter(&rows[i], filter) {
            out.push(rows[i].clone());
        }
        proof {
            reveal(Seq::filter);
            let next = views.take(i + 1);
            assert(next.drop_last() =~= views.take(i as int));
            assert(next.last() == rows@[i as int]@);
            if out@.len() > was.len() {
                assert(row_views(out@) =~= row_views(was).push(rows@[i as int]@));
            }
        }
        i += 1;
    }
    assert(views.take(views.len() as int) =~= views);
    let ghost kept = out@;
    sort_rows(&mut out, key, descending);
    proof {
        lemma_sorted_views(kept, out@, key, descending);
    }
    out
}

/// All rows, busiest first — for the one-shot outputs.
pub fn sorted_rows(engine: &Engine) -> (out: Vec<ProcRow>)
    requires
        engine.wf(),
    ensures
        sort::stably_sorted(engine@.rows, row_views(out@), table_order(SortKey::Rate, true)),
        one_span(row_views(out@)),
{
    let rows: &[ProcRow] = engine.rows();
    let mut out: Vec<ProcRow> = Vec::new();
    let mut i: usize = 0;
    while i < rows.len()
        invariant
            i <= rows@.len(),
            row_views(out@) == row_views(rows@).take(i as int),
        decreases rows@.len() - i,
    {
        let ghost was = out@;
        out.push(rows[i].clone());
        assert(row_views(out@) =~= row_views(was).push(rows@[i as int]@));
        i += 1;
        assert(row_views(out@) =~= row_views(rows@).take(i as int));
    }
    let ghost all = out@;
    assert(row_views(all) =~= row_views(rows@));
    sort_rows(&mut out, SortKey::Rate, true);
    proof {
        lemma_sorted_views(all, out@, SortKey::Rate, true);
        let (f, t) = (row_views(all), row_views(out@));
        let at = choose|at: Seq<int>| #[trigger]
            sort::rearranged(f, t, at) && sort::in_order(
                t,
                at,
                table_order(SortKey::Rate, true),
            );
        assert forall|i: int, j: int|
            #![trigger t[i], t[j]]
            0 <= i < t.len() && 0 <= j < t.len() implies t[i].span == t[j].span by {
            assert(t[i] == f[at[i]] && t[j] == f[at[j]]);
        }
    }
    out
}

/// Whether a process matches a filter: its name holds the filter, ignoring case,
/// or its pid does. The empty filter matches everything.
pub open spec fn matches(row: RowView, filter: Seq<char>) -> bool {
    ||| filter.len() == 0
    ||| text::has_run(text::lowered(row.name), text::lowered(filter))
    ||| text::has_run(text::decimal(row.pid as nat), text::lowered(filter))
}

/// Case-insensitive match of a process row against a filter string (matches the
/// name or the pid). An empty filter matches everything.
pub fn matches_filter(row: &ProcRow, filter: &str) -> (r: bool)
    ensures
        r == matches(row@, filter@),
{
    if filter.is_empty() {
        return true;
    }
    let f: String = text::lowercase(filter);
    let name: String = text::lowercase(row.name.as_str());
    matches_lowered(name.as_str(), row.pid, f.as_str())
}

/// Match of a process against a filter that is not empty, the name and the
/// filter both in lowercase.
pub fn matches_lowered(name: &str, pid: u32, filter: &str) -> (r: bool)
    ensures
        r == (text::has_run(name@, filter@) || text::has_run(
            text::decimal(pid as nat),
            filter@,
        )),
{
    text::contains(name, filter) || text::contains(
        text::decimal_string(pid as u128).as_str(),
        filter,
    )
}

// ---- laws ------------------------------------------------------------------

/// Whether no process has two of the rows, as a tick makes them.
pub open spec fn one_row_each(rows: Seq<RowView>) -> bool {
    forall|a: int, b: int|
        #![trigger rows[a], rows[b]]
        0 <= a < b < rows.len() ==> rows[a].pid != rows[b].pid
}

/// With one row per pid, a later row of the table strictly follows an earlier
/// one.
pub proof fn law_table_order_is_strict(
    from: Seq<RowView>,
    to: Seq<RowView>,
    key: SortKey,
    descending: bool,
    i: int,
    j: int,
)
    requires
        sort::stably_sorted(from, to, table_order(key, descending)),
        one_row_each(from),
        0 <= i < j < to.len(),
    ensures
        row_before(to[i], to[j], key, descending),
        to[i].pid != to[j].pid,
{
    let rel = table_order(key, descending);
    let at = choose|at: Seq<int>| #[trigger]
        sort::rearranged(from, to, at) && sort::in_order(to, at, rel);
    assert(at[i] != at[j]);
    assert(to[i] == from[at[i]] && to[j] == from[at[j]]);
    assert(from[at[i]].pid != from[at[j]].pid);
    assert(!rel(to[j], to[i]));
}

/// The table does not jitter: with one row per pid, the order of the rows before
/// sorting leaves no trace in the table.
pub proof fn law_sorted_table_is_unique(
    from: Seq<RowView>,
    to: Seq<RowView>,
    other_from: Seq<RowView>,
    other_to: Seq<RowView>,
    key: SortKey,
    descending: bool,
)
    requires
        sort::stably_sorted(from, to, table_order(key, descending)),
        sort::stably_sorted(other_from, other_to, table_order(key, descending)),
        one_row_each(from),
        one_row_each(other_from),
        forall|r: RowView| #[trigger] from.contains(r) <==> other_from.contains(r),
    ensures
        to == other_to,
{
    let rel = table_order(key, descending);
    assert forall|a: RowView, b: RowView| #[trigger] rel(a, b) implies !rel(b, a) by {
        lemma_row_before_asymmetric(a, b, key, descending);
    }
    assert forall|i: int, j: int|
        #![trigger to[i], to[j]]
        0 <= i < j < to.len() implies rel(to[i], to[j]) by {
        law_table_order_is_strict(from, to, key, descending, i, j);
    }
    assert forall|i: int, j: int|
        #![trigger other_to[i], other_to[j]]
        0 <= i < j < other_to.len() implies rel(other_to[i], other_to[j]) by {
        law_table_order_is_strict(other_from, other_to, key, descending, i, j);
    }
    assert forall|r: RowView| #[trigger] to.contains(r) <==> other_to.contains(r) by {
        sort::lemma_sorted_holds_the_same(from, to, rel, r);
        sort::lemma_sorted_holds_the_same(other_from, other_to, rel, r);
        assert(from.contains(r) <==> other_from.contains(r));
    }
    sort::lemma_strict_order_is_unique(to, other_to, rel);
}

proof fn lemma_filtered(rows: Seq<RowView>, want: spec_fn(RowView) -> bool)
    ensures
        one_row_each(rows) ==> one_row_each(rows.filter(want)),
        forall|r: RowView| #[trigger]
            rows.filter(want).contains(r) <==> rows.contains(r) && want(r),
    decreases rows.len(),
{
    reveal(Seq::filter);
    let kept = rows.filter(want);
    if rows.len() > 0 {
        let front = rows.drop_last();
        lemma_filtered(front, want);
        let front_kept = front.filter(want);
        assert forall|r: RowView| #[trigger] kept.contains(r) <==> rows.contains(r) && want(
            r,
        ) by {
            if kept.contains(r) {
                let i = choose|i: int| 0 <= i < kept.len() && kept[i] == r;
                if i < front_kept.len() {
                    assert(front_kept[i] == r);
                    assert(front_kept.contains(r));
                    assert(front.contains(r));
                    let k = choose|k: int| 0 <= k < front.len() && front[k] == r;
                    assert(rows[k] == r);
                } else {
                    assert(rows[rows.len() - 1] == r);
                }
            }
            if rows.contains(r) && want(r) {
                let k = choose|k: int| 0 <= k < rows.len() && rows[k] == r;
                if k < front.len() {
                    assert(front[k] == r);
                    assert(front_kept.contains(r));
                    let i = choose|i: int| 0 <= i < front_kept.len() && front_kept[i] == r;
                    assert(kept[i] == r);
                } else {
                    assert(kept[kept.len() - 1] == r);
                }
            }
        }
        if one_row_each(rows) {
            assert(one_row_each(front)) by {
                assert forall|a: int, b: int|
                    #![trigger front[a], front[b]]
                    0 <= a < b < front.len() implies front[a].pid != front[b].pid by {
                    assert(rows[a].pid != rows[b].pid);
                }
            }
            assert forall|a: int, b: int|
                #![trigger kept[a], kept[b]]
                0 <= a < b < kept.len() implies kept[a].pid != kept[b].pid by {
                assert(kept[a] == front_kept[a]);
                if b < front_kept.len() {
                    assert(kept[b] == front_kept[b]);
                } else {
                    assert(front_kept.contains(kept[a]));
                    assert(front.contains(kept[a]));
                    let k = choose|k: int| 0 <= k < front.len() && front[k] == kept[a];
                    assert(rows[k].pid != rows[rows.len() - 1].pid);
                }
            }
        }
    }
}

/// The same holds of the table under a filter: the rows alone decide what is
/// shown and in which order.
pub proof fn law_table_is_unique(
    out: Seq<RowView>,
    rows: Seq<RowView>,
    other_out: Seq<RowView>,
    other_rows: Seq<RowView>,
    filter: Seq<char>,
    key: SortKey,
    descending: bool,
)
    requires
        is_table(out, rows, filter, key, descending),
        is_table(other_out, other_rows, filter, key, descending),
        one_row_each(rows),
        one_row_each(other_rows),
        forall|r: RowView| #[trigger] rows.contains(r) <==> other_rows.contains(r),
    ensures
        out == other_out,
{
    let want = matching(filter);
    lemma_filtered(rows, want);
    lemma_filtered(other_rows, want);
    let (from, other_from) = (rows.filter(want), other_rows.filter(want));
    assert forall|r: RowView| #[trigger] from.contains(r) <==> other_from.contains(r) by {
        assert(rows.contains(r) <==> other_rows.contains(r));
    }
    law_sorted_table_is_unique(from, out, other_from, other_out, key, descending);
}

/// The filter ignores case: two filters with the same lowercase form match the
/// same processes.
pub proof fn law_filter_ignores_case(row: RowView, f: Seq<char>, g: Seq<char>)
    requires
        f.len() > 0,
        g.len() > 0,
        text::lowered(f) == text::lowered(g),
    ensures
        matches(row, f) == matches(row, g),
{
}

/// Sorting moves rows about and neither loses, doubles nor changes one.
pub proof fn law_sorting_only_moves_rows(
    from: Seq<RowView>,
    to: Seq<RowView>,
    key: SortKey,
    descending: bool,
)
    requires
        sort::stably_sorted(from, to, table_order(key, descending)),
    ensures
        to.len() == from.len(),
        exists|at: Seq<int>| #[trigger]
            at.no_duplicates() && at.len() == from.len() && (forall|i: int|
                0 <= i < at.len() ==> 0 <= #[trigger] at[i] < from.len() && to[i] == from[at[i]]),
{
    let rel = table_order(key, descending);
    let at = choose|at: Seq<int>| #[trigger]
        sort::rearranged(from, to, at) && sort::in_order(to, at, rel);
    assert(at.no_duplicates());
}

/// By rate, of two rows of one tick, the one that moved more goes first: down and
/// up together, neither direction weighing more than the other.
pub proof fn law_busier_process_goes_first(
    from: Seq<RowView>,
    to: Seq<RowView>,
    i: int,
    j: int,
)
    requires
        sort::stably_sorted(from, to, table_order(SortKey::Rate, true)),
        0 <= i < j < to.len(),
        to[i].span == to[j].span,
        to[i].span > 0,
    ensures
        to[i].rx_delta + to[i].tx_delta >= to[j].rx_delta + to[j].tx_delta || to[i].rx_delta
            + to[i].tx_delta >= u128::MAX,
        to[i].rx_delta + to[i].tx_delta == to[j].rx_delta + to[j].tx_delta ==> to[i].pid
            <= to[j].pid,
{
    lemma_in_table_order(from, to, SortKey::Rate, true, i, j);
    law_rate_ranks_by_bytes_moved(to[i], to[j]);
    law_rate_ranks_by_bytes_moved(to[j], to[i]);
}

/// Of two rows of one tick the one that moved fewer bytes ranks below by rate, and
/// only that one: what counts is the sum of down and up.
pub proof fn law_rate_ranks_by_bytes_moved(a: RowView, b: RowView)
    requires
        a.span == b.span,
        a.span > 0,
    ensures
        b.rx_delta + b.tx_delta <= u128::MAX ==> (key_below(a, b, SortKey::Rate) <==> a.rx_delta
            + a.tx_delta < b.rx_delta + b.tx_delta),
        a.rx_delta + a.tx_delta >= b.rx_delta + b.tx_delta ==> !key_below(a, b, SortKey::Rate),
        a.rx_delta + a.tx_delta > u128::MAX ==> !key_below(a, b, SortKey::Rate),
        a.rx_delta + a.tx_delta < u128::MAX && a.rx_delta + a.tx_delta < b.rx_delta + b.tx_delta
            ==> key_below(a, b, SortKey::Rate),
{
    let (x, y, s) = (
        a.total_rate().bytes as int,
        b.total_rate().bytes as int,
        a.span as int,
    );
    assert(x < y <==> x * s < y * s) by (nonlinear_arith)
        requires
            s > 0,
    ;
}

proof fn lemma_in_table_order(
    from: Seq<RowView>,
    to: Seq<RowView>,
    key: SortKey,
    descending: bool,
    i: int,
    j: int,
)
    requires
        sort::stably_sorted(from, to, table_order(key, descending)),
        0 <= i < j < to.len(),
    ensures
        !row_before(to[j], to[i], key, descending),
{
    let rel = table_order(key, descending);
    let at = choose|at: Seq<int>| #[trigger]
        sort::rearranged(from, to, at) && sort::in_order(to, at, rel);
    assert(!rel(to[j], to[i]));
}

/// By rate upwards the quieter process goes first.
pub proof fn law_quieter_process_goes_first_upwards(
    from: Seq<RowView>,
    to: Seq<RowView>,
    i: int,
    j: int,
)
    requires
        sort::stably_sorted(from, to, table_order(SortKey::Rate, false)),
        0 <= i < j < to.len(),
        to[i].span == to[j].span,
        to[i].span > 0,
    ensures
        to[i].rx_delta + to[i].tx_delta <= to[j].rx_delta + to[j].tx_delta || to[j].rx_delta
            + to[j].tx_delta >= u128::MAX,
        to[i].rx_delta + to[i].tx_delta == to[j].rx_delta + to[j].tx_delta ==> to[i].pid
            <= to[j].pid,
{
    lemma_in_table_order(from, to, SortKey::Rate, false, i, j);
    law_rate_ranks_by_bytes_moved(to[j], to[i]);
    law_rate_ranks_by_bytes_moved(to[i], to[j]);
}

/// The columns of numbers sort as their numbers do, in either direction, and rows
/// that tie by pid upwards.
pub proof fn law_number_columns_sort_by_number(
    from: Seq<RowView>,
    to: Seq<RowView>,
    key: SortKey,
    descending: bool,
    i: int,
    j: int,
)
    requires
        sort::stably_sorted(from, to, table_order(key, descending)),
        key == SortKey::Total || key == SortKey::Conns || key == SortKey::Pid,
        0 <= i < j < to.len(),
    ensures
        ({
            let column = |r: RowView|
                if key == SortKey::Total {
                    if r.rx_total + r.tx_total <= u64::MAX {
                        r.rx_total + r.tx_total
                    } else {
                        u64::MAX as int
                    }
                } else if key == SortKey::Conns {
                    r.conns as int
                } else {
                    r.pid as int
                };
            &&& descending ==> column(to[i]) >= column(to[j])
            &&& !descending ==> column(to[i]) <= column(to[j])
            &&& column(to[i]) == column(to[j]) ==> to[i].pid <= to[j].pid
        }),
{
    lemma_in_table_order(from, to, key, descending, i, j);
}

/// By name the table is alphabetical, ignoring case, or the reverse of that, and
/// processes of one name stand by pid upwards.
pub proof fn law_names_sort_alphabetically(
    from: Seq<RowView>,
    to: Seq<RowView>,
    descending: bool,
    i: int,
    j: int,
)
    requires
        sort::stably_sorted(from, to, table_order(SortKey::Name, descending)),
        0 <= i < j < to.len(),
    ensures
        ({
            let (a, b) = (text::lowered(to[i].name), text::lowered(to[j].name));
            &&& !descending ==> !text::alphabetically_first(b, a)
            &&& descending ==> !text::alphabetically_first(a, b)
            &&& a == b ==> to[i].pid <= to[j].pid
        }),
{
    lemma_in_table_order(from, to, SortKey::Name, descending, i, j);
    let (a, b) = (text::lowered(to[i].name), text::lowered(to[j].name));
    text::law_alphabetical_order(a, b);
    text::law_alphabetical_order(b, a);
    if text::precedes(a, b) {
        text::lemma_precedes_asymmetric(a, b);
    }
    if text::precedes(b, a) {
        text::lemma_precedes_asymmetric(b, a);
    }
}

/// A filter matches the processes whose name or pid has it somewhere, case aside,
/// and no others.
pub proof fn law_filter_finds_the_text(row: RowView, filter: Seq<char>)
    requires
        filter.len() > 0,
    ensures
        matches(row, filter) <==> {
            let want = text::lowered(filter);
            ||| exists|i: int|
                0 <= i && i + want.len() <= text::lowered(row.name).len() && #[trigger] text::lowered(
                    row.name,
                ).subrange(i, i + want.len()) == want
            ||| exists|i: int|
                0 <= i && i + want.len() <= text::decimal(row.pid as nat).len()
                    && #[trigger] text::decimal(row.pid as nat).subrange(i, i + want.len()) == want
        },
{
    let want = text::lowered(filter);
    let (name, pid) = (text::lowered(row.name), text::decimal(row.pid as nat));
    if text::has_run(name, want) {
        let i = choose|i: int| text::run_at(name, want, i);
        assert(name.subrange(i, i + want.len()) == want);
    }
    if text::has_run(pid, want) {
        let i = choose|i: int| text::run_at(pid, want, i);
        assert(pid.subrange(i, i + want.len()) == want);
    }
    if exists|i: int|
        0 <= i && i + want.len() <= name.len() && #[trigger] name.subrange(i, i + want.len())
            == want {
        let i = choose|i: int|
            0 <= i && i + want.len() <= name.len() && #[trigger] name.subrange(i, i + want.len())
                == want;
        assert(text::run_at(name, want, i));
    }
    if exists|i: int|
        0 <= i && i + want.len() <= pid.len() && #[trigger] pid.subrange(i, i + want.len())
            == want {
        let i = choose|i: int|
            0 <= i && i + want.len() <= pid.len() && #[trigger] pid.subrange(i, i + want.len())
                == want;
        assert(text::run_at(pid, want, i));
    }
}

/// The table shows just the rows that match the filter, as they are; all of them
/// under the empty filter.
pub proof fn law_table_shows_the_matches(
    out: Seq<RowView>,
    rows: Seq<RowView>,
    filter: Seq<char>,
    key: SortKey,
    descending: bool,
    r: RowView,
)
    requires
        is_table(out, rows, filter, key, descending),
    ensures
        out.contains(r) <==> rows.contains(r) && (filter.len() == 0 || matches(r, filter)),
        filter.len() == 0 ==> out.len() == rows.len(),
{
    let want = matching(filter);
    lemma_filtered(rows, want);
    let kept = rows.filter(want);
    sort::lemma_sorted_holds_the_same(kept, out, table_order(key, descending), r);
    assert(kept.contains(r) <==> rows.contains(r) && want(r));
    if filter.len() == 0 {
        lemma_all_kept(rows, want);
    }
    law_sorting_only_moves_rows(kept, out, key, descending);
}

proof fn lemma_all_kept(rows: Seq<RowView>, want: spec_fn(RowView) -> bool)
    requires
        forall|r: RowView| #[trigger] want(r),
    ensures
        rows.filter(want).len() == rows.len(),
    decreases rows.len(),
{
    reveal(Seq::filter);
    if rows.len() > 0 {
        lemma_all_kept(rows.drop_last(), want);
    }
}

/// The empty filter matches every process.
pub proof fn law_empty_filter_matches_all(row: RowView)
    ensures
        matches(row, seq![]),
{
}

/// The table is the rows that match the filter, each as often as there is one,
/// sorted by the column and in the direction asked for.
pub proof fn law_table_is_sorted_as_asked(
    out: Seq<RowView>,
    rows: Seq<RowView>,
    filter: Seq<char>,
    key: SortKey,
    descending: bool,
)
    requires
        is_table(out, rows, filter, key, descending),
    ensures
        sort::stably_sorted(
            rows.filter(|r: RowView| filter.len() == 0 || matches(r, filter)),
            out,
            table_order(key, descending),
        ),
{
    let want = |r: RowView| filter.len() == 0 || matches(r, filter);
    assert(want =~= matching(filter));
}

/// Over no time every rate is nothing, and rows stand by pid.
pub proof fn law_no_time_no_rank(from: Seq<RowView>, to: Seq<RowView>, descending: bool, i: int, j: int)
    requires
        sort::stably_sorted(from, to, table_order(SortKey::Rate, descending)),
        0 <= i < j < to.len(),
        to[i].span == 0,
        to[j].span == 0,
    ensures
        to[i].pid <= to[j].pid,
{
    lemma_in_table_order(from, to, SortKey::Rate, descending, i, j);
}

} // verus!
