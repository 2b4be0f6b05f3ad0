//! The store's guarantees that span more than one operation, stated
//! and proved over the specification-level transitions that the
//! operations' contracts are written in.

use vstd::prelude::*;
use crate::codec::{wf_extra, lemma_codec_round_trip};
use crate::data::{DeleteEventsV, EventV, GetEventsV};
use crate::store::{
    RowV, del_match, event_of, get_match, has_id, lemma_filter_subset, lemma_sort_desc_props,
    lemma_spec_get_at, matched_sorted, page_of, row_of, spec_delete, spec_get, spec_get_events,
    spec_insert, sorted_desc,
};

verus! {

/// Round trip: storing an event under a fresh identifier and looking
/// that identifier up yields an event equal in every field, the open
/// payload included.
pub proof fn lemma_insert_get_round_trip(rows: Seq<RowV>, e: EventV)
    requires
        !has_id(rows, e.id),
        wf_extra(e.extra),
    ensures
        spec_insert(rows, e).1,
        spec_get(spec_insert(rows, e).0, e.id) == Some(row_of(e)),
        event_of(row_of(e)) == e,
{
    let rows2 = rows.push(row_of(e));
    lemma_codec_round_trip(e.extra);
    assert(rows2[rows.len() as int] == row_of(e));
    assert forall|j: int| 0 <= j < rows.len() implies rows2[j].id != e.id by {
        assert(rows2[j] == rows[j]);
    }
    lemma_spec_get_at(rows2, e.id, rows.len() as int);
}

/// Uniqueness: after an event is stored, storing any event under the
/// same identifier fails and changes nothing, the first row included.
pub proof fn lemma_duplicate_insert(rows: Seq<RowV>, e1: EventV, e2: EventV)
    requires
        !has_id(rows, e1.id),
        e2.id == e1.id,
    ensures
        spec_insert(rows, e1).1,
        !spec_insert(spec_insert(rows, e1).0, e2).1,
        spec_insert(spec_insert(rows, e1).0, e2).0 == spec_insert(rows, e1).0,
{
    let rows1 = spec_insert(rows, e1).0;
    assert(rows1[rows.len() as int] == row_of(e1));
    assert(has_id(rows1, e2.id));
}

/// Filter correctness: when no window truncates the result, the rows a
/// retrieval filter selects are exactly those whose indexed columns
/// satisfy every supplied constraint.
pub proof fn lemma_filter_correctness(rows: Seq<RowV>, g: GetEventsV)
    requires
        !g.spec_empty(),
        g.offset is None,
        g.limit matches Some(l) ==> rows.filter(|r: RowV| get_match(r, g)).len() <= l,
        g.limit is None ==> rows.filter(|r: RowV| get_match(r, g)).len() <= 10,
    ensures
        page_of(rows, g).to_multiset() =~= rows.filter(|r: RowV| get_match(r, g)).to_multiset(),
        forall|x: RowV|
            #[trigger] page_of(rows, g).contains(x) <==> (rows.contains(x) && get_match(x, g)),
{
    broadcast use vstd::seq_lib::group_to_multiset_ensures;

    let pred = |r: RowV| get_match(r, g);
    let f = rows.filter(pred);
    lemma_sort_desc_props(f);
    lemma_filter_subset(rows, pred);
    let sorted = matched_sorted(rows, g);
    assert(page_of(rows, g) == sorted.subrange(0, sorted.len() as int));
    assert(page_of(rows, g) =~= sorted);
    assert forall|x: RowV| #[trigger] page_of(rows, g).contains(x) implies (rows.contains(x)
        && get_match(x, g)) by {
        assert(sorted.to_multiset().count(x) > 0);
        assert(f.to_multiset().count(x) > 0);
        assert(f.contains(x));
        let i = choose|i: int| 0 <= i < f.len() && f[i] == x;
        Seq::lemma_filter_pred(rows, pred, i);
    }
    assert forall|x: RowV| rows.contains(x) && get_match(x, g) implies #[trigger] page_of(
        rows,
        g,
    ).contains(x) by {
        let i = choose|i: int| 0 <= i < rows.len() && rows[i] == x;
        Seq::lemma_filter_contains(rows, pred, i);
        assert(f.to_multiset().count(x) > 0);
        assert(sorted.to_multiset().count(x) > 0);
        assert(sorted.contains(x));
    }
}

/// Filter correctness for deletion: a row survives a constrained
/// deletion exactly when it fails one of the supplied constraints.
pub proof fn lemma_delete_filter_correctness(rows: Seq<RowV>, d: DeleteEventsV)
    requires
        !d.spec_empty(),
    ensures
        forall|x: RowV|
            #[trigger] spec_delete(rows, d).contains(x) <==> (rows.contains(x) && !del_match(
                x,
                d,
            )),
{
    let keep = |r: RowV| !del_match(r, d);
    let f = rows.filter(keep);
    lemma_filter_subset(rows, keep);
    assert forall|x: RowV| #[trigger] f.contains(x) implies (rows.contains(x) && !del_match(
        x,
        d,
    )) by {
        let i = choose|i: int| 0 <= i < f.len() && f[i] == x;
        Seq::lemma_filter_pred(rows, keep, i);
    }
    assert forall|x: RowV| rows.contains(x) && !del_match(x, d) implies #[trigger] f.contains(
        x,
    ) by {
        let i = choose|i: int| 0 <= i < rows.len() && rows[i] == x;
        Seq::lemma_filter_contains(rows, keep, i);
    }
}

/// Ordering: whatever the filter and the window, retrieval results
/// never increase in time from one element to the next.
pub proof fn lemma_get_events_ordered(rows: Seq<RowV>, g: GetEventsV)
    ensures
        forall|i: int, j: int|
            0 <= i <= j < spec_get_events(rows, g).len() ==> #[trigger] spec_get_events(
                rows,
                g,
            )[i].time >= #[trigger] spec_get_events(rows, g)[j].time,
{
    if !g.spec_empty() {
        let pred = |r: RowV| get_match(r, g);
        lemma_sort_desc_props(rows.filter(pred));
        let sorted = matched_sorted(rows, g);
        let page = page_of(rows, g);
        let es = spec_get_events(rows, g);
        assert(sorted_desc(sorted));
        assert forall|i: int, j: int| 0 <= i <= j < es.len() implies #[trigger] es[i].time
            >= #[trigger] es[j].time by {
            assert(es[i] == event_of(page[i]));
            assert(es[j] == event_of(page[j]));
        }
    }
}

/// Two filters that agree on every row filter alike.
proof fn lemma_filter_congruence(s: Seq<RowV>, p1: spec_fn(RowV) -> bool, p2: spec_fn(RowV) -> bool)
    requires
        forall|x: RowV| #[trigger] p1(x) == p2(x),
    ensures
        s.filter(p1) == s.filter(p2),
    decreases s.len(),
{
    reveal(Seq::filter);
    if s.len() > 0 {
        lemma_filter_congruence(s.drop_last(), p1, p2);
    }
}

/// A predicate and its negation split the rows without loss.
proof fn lemma_filter_partition(s: Seq<RowV>, p1: spec_fn(RowV) -> bool, p2: spec_fn(RowV) -> bool)
    requires
        forall|x: RowV| #[trigger] p2(x) == !p1(x),
    ensures
        s.filter(p1).len() + s.filter(p2).len() == s.len(),
    decreases s.len(),
{
    reveal(Seq::filter);
    if s.len() > 0 {
        lemma_filter_partition(s.drop_last(), p1, p2);
    }
}

/// Delete count accuracy: deleting with only a `before` bound removes
/// exactly the rows older than the bound; the rest stay, and the count
/// of removed rows is exact.
pub proof fn lemma_delete_before(rows: Seq<RowV>, d: DeleteEventsV, t: u64)
    requires
        d.id is None,
        d.ty is None,
        d.detail_type is None,
        d.sub_type is None,
        d.user_id is None,
        d.group_id is None,
        d.channel_id is None,
        d.guild_id is None,
        d.before == Some(t),
    ensures
        spec_delete(rows, d) == rows.filter(|r: RowV| r.time >= t),
        rows.filter(|r: RowV| r.time < t).len() + spec_delete(rows, d).len() == rows.len(),
{
    assert(!d.spec_empty());
    let keep = |r: RowV| !del_match(r, d);
    let stay = |r: RowV| r.time >= t;
    let go = |r: RowV| r.time < t;
    assert(forall|x: RowV| #[trigger] keep(x) == stay(x));
    lemma_filter_congruence(rows, keep, stay);
    assert(forall|x: RowV| #[trigger] stay(x) == !go(x));
    lemma_filter_partition(rows, go, stay);
}

} // verus!
