//! The event store: insert one event, fetch one by identifier, fetch
//! many by filter (ordered, paginated), delete many by filter.
//!
//! The store owns its rows exclusively; a row is immutable once
//! inserted and leaves only through a filtered deletion.

use vstd::prelude::*;
use vstd::seq_lib::lemma_multiset_commutative;
use vstd::multiset::Multiset;
use crate::data::{
    DeleteEvents, DeleteEventsV, Event, EventV, ExtraEntry, GetEvents, GetEventsV, extra_v,
    str_field, str_eq, bytes_dup, extra_get_str,
};
use crate::codec::{enc_extra, dec_extra, encode_extra, decode_extra, lemma_codec_round_trip};

verus! {

/// Why a store operation failed.
#[derive(Debug, PartialEq)]
pub enum StoreError {
    /// An event with this identifier is already stored.
    DuplicateId,
    /// A stored payload blob does not decode: a broken invariant.
    CorruptData,
}

/// One persisted row: the event fields, the four indexed projections of
/// the payload, and the payload serialized in full.
pub struct Row {
    pub id: String,
    pub time: u64,
    pub ty: String,
    pub detail_type: String,
    pub sub_type: String,
    pub user_id: String,
    pub group_id: String,
    pub channel_id: String,
    pub guild_id: String,
    pub data: Vec<u8>,
}

/// Mathematical view of a `Row`.
pub struct RowV {
    pub id: Seq<char>,
    pub time: u64,
    pub ty: Seq<char>,
    pub detail_type: Seq<char>,
    pub sub_type: Seq<char>,
    pub user_id: Seq<char>,
    pub group_id: Seq<char>,
    pub channel_id: Seq<char>,
    pub guild_id: Seq<char>,
    pub data: Seq<u8>,
}

impl View for Row {
    type V = RowV;

    open spec fn view(&self) -> RowV {
        RowV {
            id: self.id@,
            time: self.time,
            ty: self.ty@,
            detail_type: self.detail_type@,
            sub_type: self.sub_type@,
            user_id: self.user_id@,
            group_id: self.group_id@,
            channel_id: self.channel_id@,
            guild_id: self.guild_id@,
            data: self.data@,
        }
    }
}

/// The row an event is stored as: indexed columns are projections of
/// the payload (absent or non-string fields become the empty string),
/// and the blob is the whole payload, serialized.
pub open spec fn row_of(e: EventV) -> RowV {
    RowV {
        id: e.id,
        time: e.time,
        ty: e.ty,
        detail_type: e.detail_type,
        sub_type: e.sub_type,
        user_id: str_field(e.extra, "user_id"@),
        group_id: str_field(e.extra, "group_id"@),
        channel_id: str_field(e.extra, "channel_id"@),
        guild_id: str_field(e.extra, "guild_id"@),
        data: enc_extra(e.extra),
    }
}

/// The event a valid row reconstructs to.
pub open spec fn event_of(r: RowV) -> EventV {
    EventV {
        id: r.id,
        time: r.time,
        ty: r.ty,
        detail_type: r.detail_type,
        sub_type: r.sub_type,
        extra: match dec_extra(r.data) {
            Some(m) => m,
            None => Seq::empty(),
        },
    }
}

/// Some row carries this identifier.
pub open spec fn has_id(rows: Seq<RowV>, id: Seq<char>) -> bool {
    exists|i: int| 0 <= i < rows.len() && rows[i].id == id
}

/// First row carrying the identifier.
pub open spec fn spec_get(rows: Seq<RowV>, id: Seq<char>) -> Option<RowV>
    decreases rows.len(),
{
    if rows.len() == 0 {
        None
    } else if rows[0].id == id {
        Some(rows[0])
    } else {
        spec_get(rows.drop_first(), id)
    }
}

pub proof fn lemma_spec_get_at(rows: Seq<RowV>, id: Seq<char>, i: int)
    requires
        0 <= i < rows.len(),
        rows[i].id == id,
        forall|j: int| 0 <= j < i ==> rows[j].id != id,
    ensures
        spec_get(rows, id) == Some(rows[i]),
    decreases i,
{
    if i > 0 {
        lemma_spec_get_at(rows.drop_first(), id, i - 1);
    }
}

proof fn lemma_spec_get_none(rows: Seq<RowV>, id: Seq<char>)
    requires
        forall|j: int| 0 <= j < rows.len() ==> rows[j].id != id,
    ensures
        spec_get(rows, id) is None,
    decreases rows.len(),
{
    if rows.len() > 0 {
        lemma_spec_get_none(rows.drop_first(), id);
    }
}

/// The insert transition: a duplicate identifier leaves the rows
/// unchanged and fails; otherwise the new row is appended.
pub open spec fn spec_insert(rows: Seq<RowV>, e: EventV) -> (Seq<RowV>, bool) {
    if has_id(rows, e.id) {
        (rows, false)
    } else {
        (rows.push(row_of(e)), true)
    }
}

/// A row satisfies every constraint a retrieval filter supplies.
pub open spec fn get_match(r: RowV, g: GetEventsV) -> bool {
    &&& (g.ty matches Some(t) ==> r.ty == t)
    &&& (g.detail_type matches Some(t) ==> r.detail_type == t)
    &&& (g.sub_type matches Some(t) ==> r.sub_type == t)
    &&& (g.user_id matches Some(t) ==> r.user_id == t)
    &&& (g.group_id matches Some(t) ==> r.group_id == t)
    &&& (g.channel_id matches Some(t) ==> r.channel_id == t)
    &&& (g.guild_id matches Some(t) ==> r.guild_id == t)
}

/// A row satisfies every constraint a deletion filter supplies;
/// `before` is a strict upper bound on the timestamp.
pub open spec fn del_match(r: RowV, d: DeleteEventsV) -> bool {
    &&& (d.id matches Some(t) ==> r.id == t)
    &&& (d.ty matches Some(t) ==> r.ty == t)
    &&& (d.detail_type matches Some(t) ==> r.detail_type == t)
    &&& (d.sub_type matches Some(t) ==> r.sub_type == t)
    &&& (d.user_id matches Some(t) ==> r.user_id == t)
    &&& (d.group_id matches Some(t) ==> r.group_id == t)
    &&& (d.channel_id matches Some(t) ==> r.channel_id == t)
    &&& (d.guild_id matches Some(t) ==> r.guild_id == t)
    &&& (d.before matches Some(b) ==> r.time < b)
}

fn row_get_match(row: &Row, g: &GetEvents) -> (b: bool)
    ensures
        b == get_match(row@, g@),
{
    if let Some(t) = &g.ty {
        if !str_eq(row.ty.as_str(), t.as_str()) {
            return false;
        }
    }
    if let Some(t) = &g.detail_type {
        if !str_eq(row.detail_type.as_str(), t.as_str()) {
            return false;
        }
    }
    if let Some(t) = &g.sub_type {
        if !str_eq(row.sub_type.as_str(), t.as_str()) {
            return false;
        }
    }
    if let Some(t) = &g.user_id {
        if !str_eq(row.user_id.as_str(), t.as_str()) {
            return false;
        }
    }
    if let Some(t) = &g.group_id {
        if !str_eq(row.group_id.as_str(), t.as_str()) {
            return false;
        }
    }
    if let Some(t) = &g.channel_id {
        if !str_eq(row.channel_id.as_str(), t.as_str()) {
            return false;
        }
    }
    if let Some(t) = &g.guild_id {
        if !str_eq(row.guild_id.as_str(), t.as_str()) {
            return false;
        }
    }
    true
}

fn row_del_match(row: &Row, d: &DeleteEvents) -> (b: bool)
    ensures
        b == del_match(row@, d@),
{
    if let Some(t) = &d.id {
        if !str_eq(row.id.as_str(), t.as_str()) {
            return false;
        }
    }
    if let Some(t) = &d.ty {
        if !str_eq(row.ty.as_str(), t.as_str()) {
            return false;
        }
    }
    if let Some(t) = &d.detail_type {
        if !str_eq(row.detail_type.as_str(), t.as_str()) {
            return false;
        }
    }
    if let Some(t) = &d.sub_type {
        if !str_eq(row.sub_type.as_str(), t.as_str()) {
            return false;
        }
    }
    if let Some(t) = &d.user_id {
        if !str_eq(row.user_id.as_str(), t.as_str()) {
            return false;
        }
    }
    if let Some(t) = &d.group_id {
        if !str_eq(row.group_id.as_str(), t.as_str()) {
            return false;
        }
    }
    if let Some(t) = &d.channel_id {
        if !str_eq(row.channel_id.as_str(), t.as_str()) {
            return false;
        }
    }
    if let Some(t) = &d.guild_id {
        if !str_eq(row.guild_id.as_str(), t.as_str()) {
            return false;
        }
    }
    if let Some(b) = &d.before {
        if !(row.time < *b) {
            return false;
        }
    }
    true
}

/// Copies one row.
fn row_dup(row: &Row) -> (r: Row)
    ensures
        r@ == row@,
{
    Row {
        id: row.id.clone(),
        time: row.time,
        ty: row.ty.clone(),
        detail_type: row.detail_type.clone(),
        sub_type: row.sub_type.clone(),
        user_id: row.user_id.clone(),
        group_id: row.group_id.clone(),
        channel_id: row.channel_id.clone(),
        guild_id: row.guild_id.clone(),
        data: bytes_dup(&row.data),
    }
}

// ---------------------------------------------------------------------------
// Ordering by time, newest first.
// ---------------------------------------------------------------------------
/// Timestamps never increase along the sequence.
pub open spec fn sorted_desc(s: Seq<RowV>) -> bool {
    forall|i: int, j: int| 0 <= i <= j < s.len() ==> s[i].time >= s[j].time
}

/// Inserts a row behind every row at least as new.
pub open spec fn insert_desc(s: Seq<RowV>, r: RowV) -> Seq<RowV>
    decreases s.len(),
{
    if s.len() == 0 {
        seq![r]
    } else if s[0].time >= r.time {
        seq![s[0]] + insert_desc(s.drop_first(), r)
    } else {
        seq![r] + s
    }
}

/// Insertion sort by time, newest first, stable for equal times.
pub open spec fn sort_desc(s: Seq<RowV>) -> Seq<RowV>
    decreases s.len(),
{
    if s.len() == 0 {
        Seq::empty()
    } else {
        insert_desc(sort_desc(s.drop_last()), s.last())
    }
}

proof fn lemma_insert_desc_props(s: Seq<RowV>, r: RowV)
    ensures
        insert_desc(s, r).len() == s.len() + 1,
        insert_desc(s, r).to_multiset() =~= s.to_multiset().insert(r),
        sorted_desc(s) ==> sorted_desc(insert_desc(s, r)),
    decreases s.len(),
{
    broadcast use vstd::seq_lib::group_to_multiset_ensures;

    let out = insert_desc(s, r);
    if s.len() == 0 {
        assert(seq![r] =~= Seq::<RowV>::empty().push(r));
        assert(s.to_multiset() =~= Multiset::<RowV>::empty()) by {
            assert(s.to_multiset().len() == 0);
        }
    } else if s[0].time >= r.time {
        let rest = s.drop_first();
        lemma_insert_desc_props(rest, r);
        assert(out == seq![s[0]] + insert_desc(rest, r));
        lemma_multiset_commutative(seq![s[0]], insert_desc(rest, r));
        lemma_multiset_commutative(seq![s[0]], rest);
        assert(s =~= seq![s[0]] + rest);
        assert(seq![s[0]].to_multiset() =~= Multiset::<RowV>::empty().insert(s[0])) by {
            assert(seq![s[0]] =~= Seq::<RowV>::empty().push(s[0]));
        }
        assert(out.to_multiset() =~= s.to_multiset().insert(r));
        if sorted_desc(s) {
            assert(sorted_desc(rest));
            assert(sorted_desc(insert_desc(rest, r)));
            assert forall|i: int, j: int| 0 <= i <= j < out.len() implies out[i].time
                >= out[j].time by {
                if i == 0 && j > 0 {
                    let x = out[j];
                    let ins = insert_desc(rest, r);
                    assert(x == ins[j - 1]);
                    assert(ins.to_multiset().count(x) > 0);
                    assert(rest.to_multiset().insert(r).count(x) > 0);
                    if x == r {
                        assert(s[0].time >= x.time);
                    } else {
                        assert(rest.to_multiset().count(x) > 0);
                        assert(rest.contains(x));
                        let k = choose|k: int| 0 <= k < rest.len() && rest[k] == x;
                        assert(s[k + 1] == x);
                        assert(s[0].time >= x.time);
                    }
                }
            }
        }
    } else {
        assert(out == seq![r] + s);
        lemma_multiset_commutative(seq![r], s);
        assert(seq![r].to_multiset() =~= Multiset::<RowV>::empty().insert(r)) by {
            assert(seq![r] =~= Seq::<RowV>::empty().push(r));
        }
        assert(out.to_multiset() =~= s.to_multiset().insert(r));
        if sorted_desc(s) {
            assert forall|i: int, j: int| 0 <= i <= j < out.len() implies out[i].time
                >= out[j].time by {
                if i == 0 && j > 0 {
                    assert(out[j] == s[j - 1]);
                    assert(r.time > s[0].time);
                    assert(s[0].time >= s[j - 1].time);
                }
            }
        }
    }
}

pub proof fn lemma_sort_desc_props(s: Seq<RowV>)
    ensures
        sort_desc(s).len() == s.len(),
        sort_desc(s).to_multiset() =~= s.to_multiset(),
        sorted_desc(sort_desc(s)),
    decreases s.len(),
{
    broadcast use vstd::seq_lib::group_to_multiset_ensures;

    if s.len() == 0 {
        assert(s.to_multiset().len() == 0);
        assert(sort_desc(s).to_multiset().len() == 0);
        assert(sort_desc(s).to_multiset() =~= s.to_multiset());
    } else {
        let head = s.drop_last();
        lemma_sort_desc_props(head);
        lemma_insert_desc_props(sort_desc(head), s.last());
        assert(s =~= head.push(s.last()));
        assert(s.to_multiset() =~= head.to_multiset().insert(s.last()));
    }
}

/// Where the scan of a sorted sequence stops is where `insert_desc`
/// places the row.
proof fn lemma_insert_desc_at(s: Seq<RowV>, r: RowV, p: int)
    requires
        0 <= p <= s.len(),
        forall|i: int| 0 <= i < p ==> s[i].time >= r.time,
        p == s.len() || s[p].time < r.time,
    ensures
        insert_desc(s, r) == s.subrange(0, p) + seq![r] + s.subrange(p, s.len() as int),
    decreases s.len(),
{
    if s.len() == 0 {
        assert(insert_desc(s, r) == seq![r]);
        assert(s.subrange(0, 0) + seq![r] + s.subrange(0, 0) =~= seq![r]);
    } else if s[0].time >= r.time {
        assert(p >= 1);
        let rest = s.drop_first();
        assert(forall|i: int| 0 <= i < p - 1 ==> rest[i].time >= r.time);
        lemma_insert_desc_at(rest, r, p - 1);
        assert(seq![s[0]] + (rest.subrange(0, p - 1) + seq![r] + rest.subrange(
            p - 1,
            rest.len() as int,
        )) =~= s.subrange(0, p) + seq![r] + s.subrange(p, s.len() as int));
    } else {
        assert(p == 0);
        assert(seq![r] + s =~= s.subrange(0, 0) + seq![r] + s.subrange(0, s.len() as int));
    }
}

/// Every element of a filtered sequence stands in the sequence it
/// was filtered from.
pub proof fn lemma_filter_subset(s: Seq<RowV>, pred: spec_fn(RowV) -> bool)
    ensures
        forall|x: RowV| #[trigger] s.filter(pred).contains(x) ==> s.contains(x),
    decreases s.len(),
{
    reveal(Seq::filter);
    if s.len() > 0 {
        let head = s.drop_last();
        lemma_filter_subset(head, pred);
        assert forall|x: RowV| #[trigger] s.filter(pred).contains(x) implies s.contains(x) by {
            let f = s.filter(pred);
            let i = choose|i: int| 0 <= i < f.len() && f[i] == x;
            if pred(s.last()) && i == f.len() - 1 {
                assert(s[s.len() - 1] == x);
            } else {
                assert(head.filter(pred)[i] == x);
                assert(head.filter(pred).contains(x));
                let j = choose|j: int| 0 <= j < head.len() && head[j] == x;
                assert(s[j] == x);
            }
        }
    }
}

/// Filtering keeps identifiers pairwise distinct.
proof fn lemma_filter_unique_ids(s: Seq<RowV>, pred: spec_fn(RowV) -> bool)
    requires
        forall|i: int, j: int| 0 <= i < j < s.len() ==> s[i].id != s[j].id,
    ensures
        forall|i: int, j: int|
            0 <= i < j < s.filter(pred).len() ==> s.filter(pred)[i].id != s.filter(pred)[j].id,
    decreases s.len(),
{
    reveal(Seq::filter);
    if s.len() > 0 {
        let head = s.drop_last();
        lemma_filter_unique_ids(head, pred);
        lemma_filter_subset(head, pred);
        let f = s.filter(pred);
        let fh = head.filter(pred);
        assert forall|i: int, j: int| 0 <= i < j < f.len() implies f[i].id != f[j].id by {
            if pred(s.last()) && j == f.len() - 1 {
                assert(f[i] == fh[i]);
                assert(fh.contains(fh[i]));
                assert(head.contains(fh[i]));
                let k = choose|k: int| 0 <= k < head.len() && head[k] == fh[i];
                assert(s[k].id != s[s.len() - 1].id);
            } else {
                assert(f[i] == fh[i]);
                assert(f[j] == fh[j]);
            }
        }
    }
}

// ---------------------------------------------------------------------------
// The query results, at the specification level.
// ---------------------------------------------------------------------------
/// The rows a retrieval filter selects, newest first.
pub open spec fn matched_sorted(rows: Seq<RowV>, g: GetEventsV) -> Seq<RowV> {
    sort_desc(rows.filter(|r: RowV| get_match(r, g)))
}

/// The page a retrieval filter returns: its window of the sorted
/// matches, `limit` defaulting to ten and `offset` to zero.
pub open spec fn page_of(rows: Seq<RowV>, g: GetEventsV) -> Seq<RowV> {
    let sorted = matched_sorted(rows, g);
    let off: int = match g.offset {
        Some(o) => o as int,
        None => 0,
    };
    let lim: int = match g.limit {
        Some(l) => l as int,
        None => 10,
    };
    let lo: int = if off <= sorted.len() {
        off
    } else {
        sorted.len() as int
    };
    let hi: int = if off + lim <= sorted.len() {
        off + lim
    } else {
        sorted.len() as int
    };
    sorted.subrange(lo, hi)
}

/// What a retrieval returns: nothing for an unconstrained filter, else
/// the page, reconstructed into events.
pub open spec fn spec_get_events(rows: Seq<RowV>, g: GetEventsV) -> Seq<EventV> {
    if g.spec_empty() {
        Seq::empty()
    } else {
        page_of(rows, g).map_values(|r: RowV| event_of(r))
    }
}

/// The delete transition: an unconstrained filter deletes nothing;
/// otherwise exactly the matching rows leave.
pub open spec fn spec_delete(rows: Seq<RowV>, d: DeleteEventsV) -> Seq<RowV> {
    if d.spec_empty() {
        rows
    } else {
        rows.filter(|r: RowV| !del_match(r, d))
    }
}

// ---------------------------------------------------------------------------
// The store.
// ---------------------------------------------------------------------------
/// The event store; its view is the sequence of row views, in insertion
/// order.
pub struct EventStore {
    rows: Vec<Row>,
}

impl View for EventStore {
    type V = Seq<RowV>;

    closed spec fn view(&self) -> Seq<RowV> {
        self.rows@.map_values(|r: Row| r@)
    }
}

/// Row identifiers are pairwise distinct and every blob decodes.
pub open spec fn wf_rows(rows: Seq<RowV>) -> bool {
    &&& (forall|i: int, j: int| 0 <= i < j < rows.len() ==> rows[i].id != rows[j].id)
    &&& (forall|i: int| 0 <= i < rows.len() ==> #[trigger] dec_extra(rows[i].data) is Some)
}

impl EventStore {
    /// The store's invariant.
    pub open spec fn wf(self) -> bool {
        wf_rows(self@)
    }

    /// An empty store, as first use of the schema leaves it.
    pub fn new() -> (s: Self)
        ensures
            s@ =~= Seq::<RowV>::empty(),
            s.wf(),
    {
        EventStore { rows: Vec::new() }
    }

    /// How many rows are stored.
    pub fn len(&self) -> (n: usize)
        ensures
            n == self@.len(),
    {
        self.rows.len()
    }

    /// Stores one event: derives the four indexed columns from the
    /// payload, serializes the payload in full, appends the row.  A
    /// duplicate identifier fails and changes nothing.
    pub fn insert_event(&mut self, event: &Event) -> (r: Result<(), StoreError>)
        requires
            old(self).wf(),
        ensures
            final(self).wf(),
            final(self)@ == spec_insert(old(self)@, event@).0,
            (r is Ok) == spec_insert(old(self)@, event@).1,
            r matches Err(e2) ==> e2 == StoreError::DuplicateId,
    {
        let ghost rowsv = self@;
        let mut i: usize = 0;
        while i < self.rows.len()
            invariant
                self@ == rowsv,
                wf_rows(rowsv),
                rowsv == self.rows@.map_values(|r: Row| r@),
                0 <= i <= self.rows.len(),
                forall|j: int| 0 <= j < i ==> rowsv[j].id != event.id@,
            decreases self.rows.len() - i,
        {
            if str_eq(self.rows[i].id.as_str(), event.id.as_str()) {
                assert(rowsv[i as int].id == event@.id);
                assert(has_id(rowsv, event@.id));
                return Err(StoreError::DuplicateId);
            }
            i += 1;
        }
        assert(!has_id(rowsv, event@.id));
        let user_id = extra_get_str(&event.extra, "user_id");
        let group_id = extra_get_str(&event.extra, "group_id");
        let channel_id = extra_get_str(&event.extra, "channel_id");
        let guild_id = extra_get_str(&event.extra, "guild_id");
        let data = encode_extra(&event.extra);
        proof {
            lemma_codec_round_trip(extra_v(event.extra@));
        }
        let row = Row {
            id: event.id.clone(),
            time: event.time,
            ty: event.ty.clone(),
            detail_type: event.detail_type.clone(),
            sub_type: event.sub_type.clone(),
            user_id,
            group_id,
            channel_id,
            guild_id,
            data,
        };
        assert(row@ == row_of(event@));
        self.rows.push(row);
        assert(self@ =~= rowsv.push(row_of(event@)));
        Ok(())
    }

    /// Reconstructs the event a row stores; `None` on a blob that does
    /// not decode.
    fn event_from_row(row: &Row) -> (r: Option<Event>)
        ensures
            match r {
                Some(ev) => (dec_extra(row@.data) is Some) && ev@ == event_of(row@),
                None => dec_extra(row@.data) is None,
            },
    {
        let mut extra: Vec<ExtraEntry> = Vec::new();
        let ok = decode_extra(&row.data, &mut extra);
        if !ok {
            return None;
        }
        Some(
            Event {
                id: row.id.clone(),
                time: row.time,
                ty: row.ty.clone(),
                detail_type: row.detail_type.clone(),
                sub_type: row.sub_type.clone(),
                extra,
            },
        )
    }

    /// Looks one event up by identifier.  A missing identifier is the
    /// `Ok(None)` outcome, distinct from any storage failure; on a
    /// well-formed store the call always succeeds.
    pub fn get_event(&self, id: &str) -> (r: Result<Option<Event>, StoreError>)
        requires
            self.wf(),
        ensures
            r is Ok,
            spec_get(self@, id@) matches Some(row) ==> (r matches Ok(o) && o matches Some(ev)
                && ev@ == event_of(row)),
            (spec_get(self@, id@) is None) ==> (r matches Ok(o2) && o2 is None),
    {
        let ghost rowsv = self@;
        let mut i: usize = 0;
        while i < self.rows.len()
            invariant
                self@ == rowsv,
                self.wf(),
                rowsv == self.rows@.map_values(|r: Row| r@),
                0 <= i <= self.rows.len(),
                forall|j: int| 0 <= j < i ==> rowsv[j].id != id@,
            decreases self.rows.len() - i,
        {
            if str_eq(self.rows[i].id.as_str(), id) {
                proof {
                    lemma_spec_get_at(rowsv, id@, i as int);
                }
                match Self::event_from_row(&self.rows[i]) {
                    Some(ev) => {
                        return Ok(Some(ev));
                    },
                    None => {
                        assert(dec_extra(rowsv[i as int].data) is Some);
                        return Err(StoreError::CorruptData);
                    },
                }
            }
            i += 1;
        }
        proof {
            lemma_spec_get_none(rowsv, id@);
        }
        Ok(None)
    }

    /// Retrieves the events a filter selects, newest first, windowed by
    /// `offset` and `limit` (ten when unspecified).  A filter with no
    /// constraint field returns nothing without touching the rows.
    pub fn get_events(&self, g: &GetEvents) -> (r: Result<Vec<Event>, StoreError>)
        requires
            self.wf(),
        ensures
            r matches Ok(es) && es@.map_values(|e: Event| e@) == spec_get_events(self@, g@),
    {
        let ghost rowsv = self@;
        let ghost pred = |row: RowV| get_match(row, g@);
        if g.is_empty() {
            let es: Vec<Event> = Vec::new();
            assert(es@.map_values(|e: Event| e@) =~= spec_get_events(rowsv, g@));
            return Ok(es);
        }
        // Sort the matching rows, newest first.
        let mut sorted: Vec<Row> = Vec::new();
        let mut i: usize = 0;
        while i < self.rows.len()
            invariant
                self@ == rowsv,
                self.wf(),
                rowsv == self.rows@.map_values(|r: Row| r@),
                0 <= i <= self.rows.len(),
                pred == (|row: RowV| get_match(row, g@)),
                sorted@.map_values(|r: Row| r@) == sort_desc(rowsv.take(i as int).filter(pred)),
            decreases self.rows.len() - i,
        {
            let ghost taken = rowsv.take(i as int);
            let ghost sortedv = sorted@.map_values(|r: Row| r@);
            proof {
                reveal(Seq::filter);
                assert(rowsv.take(i + 1 as int) =~= taken.push(rowsv[i as int]));
                assert(taken.push(rowsv[i as int]).drop_last() =~= taken);
                Seq::lemma_filter_len(taken, pred);
                lemma_sort_desc_props(taken.filter(pred));
            }
            if row_get_match(&self.rows[i], g) {
                // Scan for the first strictly older row.
                let row = row_dup(&self.rows[i]);
                let mut p: usize = 0;
                while p < sorted.len() && sorted[p].time >= row.time
                    invariant
                        sortedv == sorted@.map_values(|r: Row| r@),
                        0 <= p <= sorted.len(),
                        row@ == rowsv[i as int],
                        i < rowsv.len(),
                        forall|q: int| 0 <= q < p ==> sortedv[q].time >= row@.time,
                    decreases sorted.len() - p,
                {
                    p += 1;
                }
                assert(p == sortedv.len() || sortedv[p as int].time < row@.time);
                proof {
                    lemma_insert_desc_at(sortedv, row@, p as int);
                }
                sorted.insert(p, row);
                proof {
                    assert(sorted@.map_values(|r: Row| r@) =~= insert_desc(
                        sortedv,
                        rowsv[i as int],
                    ));
                    assert(taken.filter(pred).push(rowsv[i as int]).drop_last() =~= taken.filter(
                        pred,
                    ));
                    assert(rowsv.take(i + 1 as int).filter(pred) =~= taken.filter(pred).push(
                        rowsv[i as int],
                    ));
                    assert(sort_desc(rowsv.take(i + 1 as int).filter(pred)) == insert_desc(
                        sort_desc(taken.filter(pred)),
                        rowsv[i as int],
                    ));
                }
            } else {
                proof {
                    assert(rowsv.take(i + 1 as int).filter(pred) =~= taken.filter(pred));
                }
            }
            i += 1;
        }
        proof {
            assert(rowsv.take(rowsv.len() as int) =~= rowsv);
        }
        let ghost sortedv = sorted@.map_values(|r: Row| r@);
        assert(sortedv == matched_sorted(rowsv, g@));
        // The page window.
        let off: usize = match g.offset {
            Some(o) => o as usize,
            None => 0,
        };
        let lim: usize = match g.limit {
            Some(l) => l as usize,
            None => 10,
        };
        let total = sorted.len();
        let lo = if off <= total {
            off
        } else {
            total
        };
        let room = total - lo;
        let take_n = if lim <= room {
            lim
        } else {
            room
        };
        let hi = lo + take_n;
        let ghost page = page_of(rowsv, g@);
        assert(page == sortedv.subrange(lo as int, hi as int));
        // Every row of the page decodes: it is one of the store's rows.
        proof {
            lemma_sort_desc_props(rowsv.filter(pred));
            lemma_filter_subset(rowsv, pred);
            broadcast use vstd::seq_lib::group_to_multiset_ensures;

            assert forall|q: int| lo as int <= q < hi as int implies #[trigger] dec_extra(
                sortedv[q].data,
            ) is Some by {
                let x = sortedv[q];
                assert(sortedv.contains(x));
                assert(sortedv.to_multiset().count(x) > 0);
                assert(rowsv.filter(pred).to_multiset().count(x) > 0);
                assert(rowsv.filter(pred).contains(x));
                assert(rowsv.contains(x));
                let w = choose|w: int| 0 <= w < rowsv.len() && rowsv[w] == x;
                assert(dec_extra(rowsv[w].data) is Some);
            }
        }
        let mut es: Vec<Event> = Vec::new();
        let mut j = lo;
        while j < hi
            invariant
                sortedv == sorted@.map_values(|r: Row| r@),
                lo <= j <= hi <= sorted.len(),
                page == sortedv.subrange(lo as int, hi as int),
                forall|q: int| lo as int <= q < hi as int ==> #[trigger] dec_extra(
                    sortedv[q].data,
                ) is Some,
                es@.map_values(|e: Event| e@) =~= page.subrange(0, j - lo).map_values(
                    |r: RowV| event_of(r),
                ),
            decreases hi - j,
        {
            proof {
                assert(sorted@[j as int]@ == sortedv[j as int]);
                assert(page[j - lo] == sortedv[j as int]);
                assert(page.subrange(0, j + 1 - lo) =~= page.subrange(0, j - lo).push(
                    sortedv[j as int],
                ));
            }
            match Self::event_from_row(&sorted[j]) {
                Some(ev) => {
                    let ghost es_old = es@;
                    es.push(ev);
                    proof {
                        assert(es@ =~= es_old.push(ev));
                        assert(es@.map_values(|e: Event| e@) =~= es_old.map_values(
                            |e: Event| e@,
                        ).push(ev@));
                        assert(page.subrange(0, j + 1 - lo).map_values(|r: RowV| event_of(r))
                            =~= page.subrange(0, j - lo).map_values(|r: RowV| event_of(r)).push(
                            event_of(sortedv[j as int]),
                        ));
                        assert(es@.map_values(|e: Event| e@) =~= page.subrange(
                            0,
                            j + 1 - lo,
                        ).map_values(|r: RowV| event_of(r)));
                    }
                },
                None => {
                    assert(dec_extra(sortedv[j as int].data) is Some);
                    return Err(StoreError::CorruptData);
                },
            }
            j += 1;
        }
        assert(page.subrange(0, hi - lo) =~= page);
        assert(es@.map_values(|e: Event| e@) =~= spec_get_events(rowsv, g@));
        Ok(es)
    }

    /// Deletes the rows a filter selects and reports how many left.  A
    /// filter with no constraint field deletes nothing: an empty filter
    /// never empties the table.
    pub fn delete_events(&mut self, d: &DeleteEvents) -> (r: Result<u64, StoreError>)
        requires
            old(self).wf(),
        ensures
            final(self).wf(),
            final(self)@ == spec_delete(old(self)@, d@),
            r matches Ok(n) && n as int == old(self)@.len() - final(self)@.len(),
            !d@.spec_empty() ==> final(self)@ == old(self)@.filter(
                |row: RowV| !del_match(row, d@),
            ),
            d@.spec_empty() ==> final(self)@ == old(self)@,
    {
        let ghost rowsv = self@;
        let ghost pred = |row: RowV| !del_match(row, d@);
        if d.is_empty() {
            return Ok(0);
        }
        let mut kept: Vec<Row> = Vec::new();
        let mut i: usize = 0;
        while i < self.rows.len()
            invariant
                self@ == rowsv,
                old(self).wf(),
                self == old(self),
                rowsv == self.rows@.map_values(|r: Row| r@),
                0 <= i <= self.rows.len(),
                pred == (|row: RowV| !del_match(row, d@)),
                kept@.map_values(|r: Row| r@) == rowsv.take(i as int).filter(pred),
            decreases self.rows.len() - i,
        {
            let ghost taken = rowsv.take(i as int);
            proof {
                reveal(Seq::filter);
                assert(rowsv.take(i + 1 as int) =~= taken.push(rowsv[i as int]));
                assert(taken.push(rowsv[i as int]).drop_last() =~= taken);
            }
            if !row_del_match(&self.rows[i], d) {
                kept.push(row_dup(&self.rows[i]));
                proof {
                    assert(rowsv.take(i + 1 as int).filter(pred) =~= taken.filter(pred).push(
                        rowsv[i as int],
                    ));
                    assert(kept@.map_values(|r: Row| r@) =~= taken.filter(pred).push(
                        rowsv[i as int],
                    ));
                }
            } else {
                proof {
                    assert(rowsv.take(i + 1 as int).filter(pred) =~= taken.filter(pred));
                }
            }
            i += 1;
        }
        proof {
            assert(rowsv.take(rowsv.len() as int) =~= rowsv);
            Seq::lemma_filter_len(rowsv, pred);
            lemma_filter_subset(rowsv, pred);
            lemma_filter_unique_ids(rowsv, pred);
            assert forall|q: int| 0 <= q < rowsv.filter(pred).len() implies #[trigger] dec_extra(
                rowsv.filter(pred)[q].data,
            ) is Some by {
                broadcast use vstd::seq_lib::group_to_multiset_ensures;

                assert(rowsv.filter(pred).contains(rowsv.filter(pred)[q]));
                assert(rowsv.contains(rowsv.filter(pred)[q]));
                let w = choose|w: int| 0 <= w < rowsv.len() && rowsv[w] == rowsv.filter(pred)[q];
                assert(dec_extra(rowsv[w].data) is Some);
            }
        }
        let removed = self.rows.len() - kept.len();
        self.rows = kept;
        Ok(removed as u64)
    }
}

} // verus!
