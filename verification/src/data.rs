//! Core data model: events, their open payload mapping, and the two
//! sparse filter records used by the retrieval and deletion queries.

use vstd::prelude::*;

verus! {

/// One typed value of an event's open payload mapping.  Values nest:
/// a value can be a list of values or a dictionary of its own.  A
/// floating-point value is carried by its bit pattern, as the event
/// timestamp is.
#[derive(Debug, PartialEq)]
pub enum Value {
    Str(String),
    Int(i64),
    F64Bits(u64),
    Bool(bool),
    Bytes(Vec<u8>),
    List(Vec<Value>),
    Dict(Vec<ExtraEntry>),
    Null,
}

/// Mathematical view of a `Value`.
pub enum ValueV {
    Str(Seq<char>),
    Int(i64),
    F64Bits(u64),
    Bool(bool),
    Bytes(Seq<u8>),
    List(Seq<ValueV>),
    Dict(Seq<(Seq<char>, ValueV)>),
    Null,
}

/// One key/value pair of an event's payload mapping.
#[derive(Debug, PartialEq)]
pub struct ExtraEntry {
    pub key: String,
    pub value: Value,
}

pub open spec fn value_v(v: Value) -> ValueV
    decreases v, 0int,
    via value_v_dec
{
    match v {
        Value::Str(s) => ValueV::Str(s@),
        Value::Int(i) => ValueV::Int(i),
        Value::F64Bits(b) => ValueV::F64Bits(b),
        Value::Bool(b) => ValueV::Bool(b),
        Value::Bytes(bs) => ValueV::Bytes(bs@),
        Value::List(l) => ValueV::List(values_v(l@)),
        Value::Dict(m) => ValueV::Dict(entries_v(m@)),
        Value::Null => ValueV::Null,
    }
}

pub open spec fn values_v(l: Seq<Value>) -> Seq<ValueV>
    decreases l, 1int,
    via values_v_dec
{
    if l.len() == 0 {
        Seq::empty()
    } else {
        seq![value_v(l[0])] + values_v(l.drop_first())
    }
}

pub open spec fn entries_v(m: Seq<ExtraEntry>) -> Seq<(Seq<char>, ValueV)>
    decreases m, 1int,
    via entries_v_dec
{
    if m.len() == 0 {
        Seq::empty()
    } else {
        seq![(m[0].key@, value_v(m[0].value))] + entries_v(m.drop_first())
    }
}

#[via_fn]
proof fn value_v_dec(v: Value) {
    match v {
        Value::List(l) => {
            assert(decreases_to!(v => l));
            assert(decreases_to!(l => l@));
        },
        Value::Dict(m) => {
            assert(decreases_to!(v => m));
            assert(decreases_to!(m => m@));
        },
        _ => {},
    }
}

#[via_fn]
proof fn values_v_dec(l: Seq<Value>) {
    broadcast use vstd::seq::axiom_seq_index_decreases;
    broadcast use vstd::seq::axiom_seq_subrange_decreases;

    if l.len() > 0 {
        assert(decreases_to!(l => l[0]));
        assert(l.drop_first() == l.subrange(1, l.len() as int));
        assert(decreases_to!(l => l.subrange(1, l.len() as int)));
    }
}

#[via_fn]
proof fn entries_v_dec(m: Seq<ExtraEntry>) {
    broadcast use vstd::seq::axiom_seq_index_decreases;
    broadcast use vstd::seq::axiom_seq_subrange_decreases;

    if m.len() > 0 {
        assert(decreases_to!(m => m[0]));
        assert(decreases_to!(m[0] => m[0].value));
        assert(m.drop_first() == m.subrange(1, m.len() as int));
        assert(decreases_to!(m => m.subrange(1, m.len() as int)));
    }
}

impl View for Value {
    type V = ValueV;

    open spec fn view(&self) -> ValueV {
        value_v(*self)
    }
}

impl View for ExtraEntry {
    type V = (Seq<char>, ValueV);

    open spec fn view(&self) -> (Seq<char>, ValueV) {
        (self.key@, self.value@)
    }
}

/// Mathematical view of a payload mapping: the entry sequence, viewed.
pub open spec fn extra_v(entries: Seq<ExtraEntry>) -> Seq<(Seq<char>, ValueV)> {
    entries.map_values(|e: ExtraEntry| e@)
}

/// The recursive entry view agrees with the mapped one.
pub proof fn lemma_entries_v_bridge(m: Seq<ExtraEntry>)
    ensures
        entries_v(m) == extra_v(m),
    decreases m.len(),
{
    if m.len() == 0 {
        assert(entries_v(m) =~= extra_v(m));
    } else {
        lemma_entries_v_bridge(m.drop_first());
        assert(entries_v(m) =~= extra_v(m));
    }
}

/// Appending one entry appends its view.
pub proof fn lemma_entries_v_snoc(m: Seq<ExtraEntry>, e: ExtraEntry)
    ensures
        entries_v(m.push(e)) == entries_v(m).push((e.key@, value_v(e.value))),
    decreases m.len(),
{
    if m.len() == 0 {
        assert(m.push(e)[0] == e);
        assert(m.push(e).drop_first() =~= Seq::<ExtraEntry>::empty());
        assert(entries_v(Seq::<ExtraEntry>::empty()) == Seq::<(Seq<char>, ValueV)>::empty());
        assert(entries_v(m.push(e)) == seq![(e.key@, value_v(e.value))] + Seq::<
            (Seq<char>, ValueV),
        >::empty());
        assert(entries_v(m) == Seq::<(Seq<char>, ValueV)>::empty());
        assert(seq![(e.key@, value_v(e.value))] + Seq::<(Seq<char>, ValueV)>::empty()
            =~= entries_v(m).push((e.key@, value_v(e.value))));
    } else {
        assert(m.push(e)[0] == m[0]);
        assert(m.push(e).drop_first() =~= m.drop_first().push(e));
        lemma_entries_v_snoc(m.drop_first(), e);
        assert(entries_v(m.push(e)) == seq![(m[0].key@, value_v(m[0].value))] + (entries_v(
            m.drop_first(),
        ).push((e.key@, value_v(e.value)))));
        assert(seq![(m[0].key@, value_v(m[0].value))] + (entries_v(m.drop_first()).push(
            (e.key@, value_v(e.value)),
        )) =~= entries_v(m).push((e.key@, value_v(e.value))));
    }
}

/// Appending one value appends its view.
pub proof fn lemma_values_v_snoc(l: Seq<Value>, x: Value)
    ensures
        values_v(l.push(x)) == values_v(l).push(value_v(x)),
    decreases l.len(),
{
    if l.len() == 0 {
        assert(l.push(x)[0] == x);
        assert(l.push(x).drop_first() =~= Seq::<Value>::empty());
        assert(values_v(Seq::<Value>::empty()) == Seq::<ValueV>::empty());
        assert(values_v(l.push(x)) == seq![value_v(x)] + Seq::<ValueV>::empty());
        assert(values_v(l) == Seq::<ValueV>::empty());
        assert(seq![value_v(x)] + Seq::<ValueV>::empty() =~= values_v(l).push(value_v(x)));
    } else {
        assert(l.push(x)[0] == l[0]);
        assert(l.push(x).drop_first() =~= l.drop_first().push(x));
        lemma_values_v_snoc(l.drop_first(), x);
        assert(values_v(l.push(x)) == seq![value_v(l[0])] + (values_v(l.drop_first()).push(
            value_v(x),
        )));
        assert(seq![value_v(l[0])] + (values_v(l.drop_first()).push(value_v(x)))
            =~= values_v(l).push(value_v(x)));
    }
}

/// The recursive list view agrees with the mapped one.
pub proof fn lemma_values_v_bridge(l: Seq<Value>)
    ensures
        values_v(l) == l.map_values(|x: Value| value_v(x)),
    decreases l.len(),
{
    if l.len() == 0 {
        assert(values_v(l) =~= l.map_values(|x: Value| value_v(x)));
    } else {
        lemma_values_v_bridge(l.drop_first());
        assert(values_v(l) =~= l.map_values(|x: Value| value_v(x)));
    }
}

/// An event: identifier, timestamp, classification and open payload.
#[derive(Debug, PartialEq)]
pub struct Event {
    pub id: String,
    pub time: u64,
    pub ty: String,
    pub detail_type: String,
    pub sub_type: String,
    pub extra: Vec<ExtraEntry>,
}

/// Mathematical view of an `Event`.
pub struct EventV {
    pub id: Seq<char>,
    pub time: u64,
    pub ty: Seq<char>,
    pub detail_type: Seq<char>,
    pub sub_type: Seq<char>,
    pub extra: Seq<(Seq<char>, ValueV)>,
}

impl View for Event {
    type V = EventV;

    open spec fn view(&self) -> EventV {
        EventV {
            id: self.id@,
            time: self.time,
            ty: self.ty@,
            detail_type: self.detail_type@,
            sub_type: self.sub_type@,
            extra: extra_v(self.extra@),
        }
    }
}

/// First-match lookup of a key in a payload mapping.
pub open spec fn lookup(m: Seq<(Seq<char>, ValueV)>, k: Seq<char>) -> Option<ValueV>
    decreases m.len(),
{
    if m.len() == 0 {
        None
    } else if m[0].0 == k {
        Some(m[0].1)
    } else {
        lookup(m.drop_first(), k)
    }
}

/// The string stored under `k`, or the empty string when the key is
/// absent or its value is not string-typed.
pub open spec fn str_field(m: Seq<(Seq<char>, ValueV)>, k: Seq<char>) -> Seq<char> {
    match lookup(m, k) {
        Some(ValueV::Str(s)) => s,
        _ => Seq::<char>::empty(),
    }
}

/// A first match at index `i` (no earlier key equals `k`) settles `lookup`.
pub proof fn lemma_lookup_at(m: Seq<(Seq<char>, ValueV)>, k: Seq<char>, i: int)
    requires
        0 <= i < m.len(),
        m[i].0 == k,
        forall|j: int| 0 <= j < i ==> m[j].0 != k,
    ensures
        lookup(m, k) == Some(m[i].1),
    decreases i,
{
    if i > 0 {
        lemma_lookup_at(m.drop_first(), k, i - 1);
    }
}

/// When no key of `m` equals `k`, `lookup` finds nothing.
pub proof fn lemma_lookup_none(m: Seq<(Seq<char>, ValueV)>, k: Seq<char>)
    requires
        forall|j: int| 0 <= j < m.len() ==> m[j].0 != k,
    ensures
        lookup(m, k) is None,
    decreases m.len(),
{
    if m.len() > 0 {
        lemma_lookup_none(m.drop_first(), k);
    }
}

/// The sparse filter of a bulk retrieval request.
#[derive(Debug, PartialEq, Default)]
pub struct GetEvents {
    pub ty: Option<String>,
    pub detail_type: Option<String>,
    pub sub_type: Option<String>,
    pub user_id: Option<String>,
    pub group_id: Option<String>,
    pub channel_id: Option<String>,
    pub guild_id: Option<String>,
    pub limit: Option<u32>,
    pub offset: Option<u32>,
}

/// Mathematical view of a `GetEvents` filter.
pub struct GetEventsV {
    pub ty: Option<Seq<char>>,
    pub detail_type: Option<Seq<char>>,
    pub sub_type: Option<Seq<char>>,
    pub user_id: Option<Seq<char>>,
    pub group_id: Option<Seq<char>>,
    pub guild_id: Option<Seq<char>>,
    pub channel_id: Option<Seq<char>>,
    pub limit: Option<u32>,
    pub offset: Option<u32>,
}

pub open spec fn view_opt_string(o: Option<String>) -> Option<Seq<char>> {
    match o {
        Some(s) => Some(s@),
        None => None,
    }
}

impl View for GetEvents {
    type V = GetEventsV;

    open spec fn view(&self) -> GetEventsV {
        GetEventsV {
            ty: view_opt_string(self.ty),
            detail_type: view_opt_string(self.detail_type),
            sub_type: view_opt_string(self.sub_type),
            user_id: view_opt_string(self.user_id),
            group_id: view_opt_string(self.group_id),
            channel_id: view_opt_string(self.channel_id),
            guild_id: view_opt_string(self.guild_id),
            limit: self.limit,
            offset: self.offset,
        }
    }
}

impl GetEventsV {
    /// A retrieval filter with no constraint field at all.
    pub open spec fn spec_empty(self) -> bool {
        self.ty is None && self.detail_type is None && self.sub_type is None
            && self.user_id is None && self.group_id is None && self.channel_id is None
            && self.guild_id is None
    }
}

impl GetEvents {
    /// True when the filter constrains nothing; pagination fields do not count.
    pub fn is_empty(&self) -> (r: bool)
        ensures
            r == self@.spec_empty(),
    {
        self.ty.is_none() && self.detail_type.is_none() && self.sub_type.is_none()
            && self.user_id.is_none() && self.group_id.is_none() && self.channel_id.is_none()
            && self.guild_id.is_none()
    }
}

/// The sparse filter of a bulk deletion request.
#[derive(Debug, PartialEq, Default)]
pub struct DeleteEvents {
    pub id: Option<String>,
    pub ty: Option<String>,
    pub detail_type: Option<String>,
    pub sub_type: Option<String>,
    pub user_id: Option<String>,
    pub group_id: Option<String>,
    pub channel_id: Option<String>,
    pub guild_id: Option<String>,
    pub before: Option<u64>,
}

/// Mathematical view of a `DeleteEvents` filter.
pub struct DeleteEventsV {
    pub id: Option<Seq<char>>,
    pub ty: Option<Seq<char>>,
    pub detail_type: Option<Seq<char>>,
    pub sub_type: Option<Seq<char>>,
    pub user_id: Option<Seq<char>>,
    pub group_id: Option<Seq<char>>,
    pub channel_id: Option<Seq<char>>,
    pub guild_id: Option<Seq<char>>,
    pub before: Option<u64>,
}

impl View for DeleteEvents {
    type V = DeleteEventsV;

    open spec fn view(&self) -> DeleteEventsV {
        DeleteEventsV {
            id: view_opt_string(self.id),
            ty: view_opt_string(self.ty),
            detail_type: view_opt_string(self.detail_type),
            sub_type: view_opt_string(self.sub_type),
            user_id: view_opt_string(self.user_id),
            group_id: view_opt_string(self.group_id),
            channel_id: view_opt_string(self.channel_id),
            guild_id: view_opt_string(self.guild_id),
            before: self.before,
        }
    }
}

impl DeleteEventsV {
    /// A deletion filter with no constraint field at all.
    pub open spec fn spec_empty(self) -> bool {
        self.id is None && self.ty is None && self.detail_type is None && self.sub_type is None
            && self.user_id is None && self.group_id is None && self.channel_id is None
            && self.guild_id is None && self.before is None
    }
}

impl DeleteEvents {
    /// True when the filter constrains nothing: such a request deletes nothing.
    pub fn is_empty(&self) -> (r: bool)
        ensures
            r == self@.spec_empty(),
    {
        self.id.is_none() && self.ty.is_none() && self.detail_type.is_none()
            && self.sub_type.is_none() && self.user_id.is_none() && self.group_id.is_none()
            && self.channel_id.is_none() && self.guild_id.is_none() && self.before.is_none()
    }
}

/// Character-for-character string comparison, so that contracts can
/// speak of `&str` equality over views.
pub fn str_eq(a: &str, b: &str) -> (r: bool)
    ensures
        r == (a@ == b@),
{
    let la = a.unicode_len();
    let lb = b.unicode_len();
    if la != lb {
        assert(a@ != b@) by {
            assert(a@.len() != b@.len());
        }
        return false;
    }
    let mut i: usize = 0;
    while i < la
        invariant
            la == a@.len(),
            lb == b@.len(),
            la == lb,
            0 <= i <= la,
            forall|j: int| 0 <= j < i ==> a@[j] == b@[j],
        decreases la - i,
    {
        if a.get_char(i) != b.get_char(i) {
            assert(a@ != b@);
            return false;
        }
        i += 1;
    }
    assert(a@ =~= b@);
    true
}

/// Copies one payload value, nested values included.
pub fn value_dup(v: &Value) -> (r: Value)
    ensures
        r@ == v@,
    decreases *v, 0int,
{
    match v {
        Value::Str(s) => Value::Str(s.clone()),
        Value::Int(i) => Value::Int(*i),
        Value::F64Bits(b) => Value::F64Bits(*b),
        Value::Bool(b) => Value::Bool(*b),
        Value::Bytes(bs) => Value::Bytes(bytes_dup(bs)),
        Value::Null => Value::Null,
        Value::List(l) => {
            let mut out: Vec<Value> = Vec::new();
            let mut i: usize = 0;
            while i < l.len()
                invariant
                    *v == Value::List(*l),
                    0 <= i <= l.len(),
                    values_v(out@) == values_v(l@.take(i as int)),
                decreases l.len() - i,
            {
                proof {
                    broadcast use vstd::seq::axiom_seq_index_decreases;

                    assert(decreases_to!(*v => v->List_0));
                    assert(v->List_0 == *l);
                    assert(decreases_to!(*l => l@));
                    assert(decreases_to!(l@ => l@[i as int]));
                }
                let d = value_dup(&l[i]);
                proof {
                    lemma_values_v_snoc(out@, d);
                    lemma_values_v_snoc(l@.take(i as int), l@[i as int]);
                    assert(l@.take(i as int).push(l@[i as int]) =~= l@.take(i + 1 as int));
                }
                out.push(d);
                i += 1;
            }
            assert(l@.take(l@.len() as int) =~= l@);
            Value::List(out)
        },
        Value::Dict(m) => {
            let mut out: Vec<ExtraEntry> = Vec::new();
            let mut i: usize = 0;
            while i < m.len()
                invariant
                    *v == Value::Dict(*m),
                    0 <= i <= m.len(),
                    entries_v(out@) == entries_v(m@.take(i as int)),
                decreases m.len() - i,
            {
                proof {
                    broadcast use vstd::seq::axiom_seq_index_decreases;

                    assert(decreases_to!(*v => v->Dict_0));
                    assert(v->Dict_0 == *m);
                    assert(decreases_to!(*m => m@));
                    assert(decreases_to!(m@ => m@[i as int]));
                    assert(decreases_to!(m@[i as int] => m@[i as int].value));
                }
                let d = ExtraEntry { key: m[i].key.clone(), value: value_dup(&m[i].value) };
                proof {
                    lemma_entries_v_snoc(out@, d);
                    lemma_entries_v_snoc(m@.take(i as int), m@[i as int]);
                    assert(m@.take(i as int).push(m@[i as int]) =~= m@.take(i + 1 as int));
                }
                out.push(d);
                i += 1;
            }
            assert(m@.take(m@.len() as int) =~= m@);
            Value::Dict(out)
        },
    }
}

/// Copies a byte vector.
pub fn bytes_dup(v: &Vec<u8>) -> (r: Vec<u8>)
    ensures
        r@ == v@,
{
    let mut out: Vec<u8> = Vec::new();
    let mut i: usize = 0;
    while i < v.len()
        invariant
            0 <= i <= v.len(),
            out@ =~= v@.take(i as int),
        decreases v.len() - i,
    {
        out.push(v[i]);
        assert(out@ =~= v@.take(i + 1 as int));
        i += 1;
    }
    assert(out@ =~= v@);
    out
}

/// First-match search for `k` in a payload mapping, handing back a copy.
pub fn extra_get(extra: &Vec<ExtraEntry>, k: &str) -> (r: Option<Value>)
    ensures
        match r {
            Some(v) => lookup(extra_v(extra@), k@) == Some(v@),
            None => lookup(extra_v(extra@), k@) is None,
        },
{
    let mut i: usize = 0;
    while i < extra.len()
        invariant
            0 <= i <= extra.len(),
            forall|j: int| 0 <= j < i ==> extra_v(extra@)[j].0 != k@,
        decreases extra.len() - i,
    {
        if str_eq(extra[i].key.as_str(), k) {
            proof {
                lemma_lookup_at(extra_v(extra@), k@, i as int);
            }
            return Some(value_dup(&extra[i].value));
        }
        i += 1;
    }
    proof {
        lemma_lookup_none(extra_v(extra@), k@);
    }
    None
}

/// The string under `k`, or the empty string when `k` is absent or its
/// value is not string-typed: the projection used for the indexed columns.
pub fn extra_get_str(extra: &Vec<ExtraEntry>, k: &str) -> (r: String)
    ensures
        r@ == str_field(extra_v(extra@), k@),
{
    match extra_get(extra, k) {
        Some(Value::Str(s)) => s,
        _ => String::new(),
    }
}

} // verus!
