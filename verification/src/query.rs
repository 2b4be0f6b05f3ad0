//! The query builder: from a sparse filter to parameterized SQL text
//! and the positional bind values, walking the filterable fields in one
//! canonical order.  The count and order of placeholders always equals
//! the count and order of bound values.

use vstd::prelude::*;
use crate::data::{DeleteEvents, DeleteEventsV, GetEvents, GetEventsV};
use crate::text::push_char;

verus! {

/// One positional bind value: filter text, or the `before` timestamp.
#[derive(Debug, PartialEq)]
pub enum Bind {
    Text(String),
    Time(u64),
}

/// Mathematical view of a `Bind`.
pub enum BindV {
    Text(Seq<char>),
    Time(u64),
}

impl View for Bind {
    type V = BindV;

    open spec fn view(&self) -> BindV {
        match self {
            Bind::Text(s) => BindV::Text(s@),
            Bind::Time(t) => BindV::Time(*t),
        }
    }
}

// ---------------------------------------------------------------------------
// Decimal rendering of pagination numbers.
// ---------------------------------------------------------------------------
/// The digit character of one decimal digit.
pub open spec fn digit(d: int) -> char
    recommends
        0 <= d < 10,
{
    (48 + d) as char
}

/// The decimal form of a number.
pub open spec fn spec_dec(n: nat) -> Seq<char>
    decreases n,
{
    if n < 10 {
        seq![digit(n as int)]
    } else {
        spec_dec(n / 10).push(digit((n % 10) as int))
    }
}

/// Renders a number in decimal.
pub fn u32_dec(n: u32) -> (s: String)
    ensures
        s@ == spec_dec(n as nat),
    decreases n,
{
    if n < 10 {
        let mut s = String::new();
        let c = (48 + n as u8) as char;
        proof {
            assert(c == digit(n as int));
        }
        push_char(&mut s, c);
        assert(s@ =~= seq![digit(n as int)]);
        s
    } else {
        let mut s = u32_dec(n / 10);
        let c = (48 + (n % 10) as u8) as char;
        proof {
            assert(c == digit((n % 10) as int));
        }
        push_char(&mut s, c);
        s
    }
}

// ---------------------------------------------------------------------------
// The predicate/value pairs, in their canonical order.
// ---------------------------------------------------------------------------
/// The pair a supplied field contributes: its placeholder fragment and
/// its bound value; an absent field contributes nothing.
pub open spec fn opt_pair(frag: Seq<char>, o: Option<Seq<char>>) -> Seq<(Seq<char>, BindV)> {
    match o {
        Some(v) => seq![(frag, BindV::Text(v))],
        None => Seq::empty(),
    }
}

/// The pairs of a retrieval filter, in the fixed field order.
pub open spec fn get_pairs(g: GetEventsV) -> Seq<(Seq<char>, BindV)> {
    opt_pair("type=?"@, g.ty) + opt_pair("detail_type=?"@, g.detail_type) + opt_pair(
        "sub_type=?"@,
        g.sub_type,
    ) + opt_pair("user_id=?"@, g.user_id) + opt_pair("group_id=?"@, g.group_id) + opt_pair(
        "channel_id=?"@,
        g.channel_id,
    ) + opt_pair("guild_id=?"@, g.guild_id)
}

/// The pairs of a deletion filter; the `before` bound comes last.
pub open spec fn del_pairs(d: DeleteEventsV) -> Seq<(Seq<char>, BindV)> {
    opt_pair("type=?"@, d.ty) + opt_pair("id=?"@, d.id) + opt_pair(
        "detail_type=?"@,
        d.detail_type,
    ) + opt_pair("sub_type=?"@, d.sub_type) + opt_pair("user_id=?"@, d.user_id) + opt_pair(
        "group_id=?"@,
        d.group_id,
    ) + opt_pair("channel_id=?"@, d.channel_id) + opt_pair("guild_id=?"@, d.guild_id) + (
    match d.before {
        Some(b) => seq![("time<?"@, BindV::Time(b))],
        None => Seq::empty(),
    })
}

/// The placeholder fragments alone.
pub open spec fn clauses_of(pairs: Seq<(Seq<char>, BindV)>) -> Seq<Seq<char>> {
    pairs.map_values(|p: (Seq<char>, BindV)| p.0)
}

/// The bound values alone.
pub open spec fn binds_of(pairs: Seq<(Seq<char>, BindV)>) -> Seq<BindV> {
    pairs.map_values(|p: (Seq<char>, BindV)| p.1)
}

/// Placeholder/value parity for retrieval: the fragments and the bound
/// values come from one pair list, so their number and order agree.
pub proof fn lemma_get_placeholder_parity(g: GetEventsV)
    ensures
        clauses_of(get_pairs(g)).len() == binds_of(get_pairs(g)).len(),
        forall|i: int|
            0 <= i < get_pairs(g).len() ==> #[trigger] clauses_of(get_pairs(g))[i] == get_pairs(
                g,
            )[i].0 && binds_of(get_pairs(g))[i] == get_pairs(g)[i].1,
{
}

/// Placeholder/value parity for deletion, the `before` bound included.
pub proof fn lemma_del_placeholder_parity(d: DeleteEventsV)
    ensures
        clauses_of(del_pairs(d)).len() == binds_of(del_pairs(d)).len(),
        forall|i: int|
            0 <= i < del_pairs(d).len() ==> #[trigger] clauses_of(del_pairs(d))[i] == del_pairs(
                d,
            )[i].0 && binds_of(del_pairs(d))[i] == del_pairs(d)[i].1,
{
}

// ---------------------------------------------------------------------------
// Joining and the full statements.
// ---------------------------------------------------------------------------
/// The fragments joined with ` AND `.
pub open spec fn join_and(cs: Seq<Seq<char>>) -> Seq<char>
    decreases cs.len(),
{
    if cs.len() == 0 {
        Seq::empty()
    } else if cs.len() == 1 {
        cs[0]
    } else {
        cs[0] + " AND "@ + join_and(cs.drop_first())
    }
}

proof fn lemma_join_and_snoc(cs: Seq<Seq<char>>, c: Seq<char>)
    ensures
        cs.len() == 0 ==> join_and(cs.push(c)) == c,
        cs.len() > 0 ==> join_and(cs.push(c)) == join_and(cs) + " AND "@ + c,
    decreases cs.len(),
{
    if cs.len() == 0 {
        assert(cs.push(c)[0] == c);
        assert(join_and(cs.push(c)) == c);
    } else if cs.len() == 1 {
        assert(cs.push(c)[0] == cs[0]);
        assert(cs.push(c).drop_first() =~= cs.drop_first().push(c));
        assert(cs.drop_first().len() == 0);
        lemma_join_and_snoc(cs.drop_first(), c);
        assert(join_and(cs.push(c)) == cs[0] + " AND "@ + c);
    } else {
        assert(cs.push(c)[0] == cs[0]);
        assert(cs.push(c).drop_first() =~= cs.drop_first().push(c));
        lemma_join_and_snoc(cs.drop_first(), c);
        assert((cs[0] + " AND "@ + (join_and(cs.drop_first()) + " AND "@ + c)) =~= (cs[0]
            + " AND "@ + join_and(cs.drop_first()) + " AND "@ + c));
    }
}

/// The full retrieval statement: projection, `AND`ed predicates,
/// newest-first ordering, `LIMIT` (ten when unspecified) and, when
/// supplied, `OFFSET`.
pub open spec fn get_events_sql(g: GetEventsV) -> Seq<char> {
    let head = "SELECT id, time, type, detail_type, sub_type, data FROM events WHERE "@
        + join_and(clauses_of(get_pairs(g))) + " ORDER BY time DESC LIMIT "@ + spec_dec(
        (match g.limit {
            Some(l) => l,
            None => 10u32,
        }) as nat,
    );
    match g.offset {
        Some(o) => head + " OFFSET "@ + spec_dec(o as nat) + ";"@,
        None => head + ";"@,
    }
}

/// The full deletion statement: `AND`ed predicates, nothing more.
pub open spec fn delete_events_sql(d: DeleteEventsV) -> Seq<char> {
    "DELETE FROM events WHERE "@ + join_and(clauses_of(del_pairs(d))) + ";"@
}

fn join_clauses(wheres: &Vec<String>) -> (s: String)
    ensures
        s@ == join_and(wheres@.map_values(|x: String| x@)),
{
    let ghost cs = wheres@.map_values(|x: String| x@);
    let mut s = String::new();
    let mut i: usize = 0;
    while i < wheres.len()
        invariant
            cs == wheres@.map_values(|x: String| x@),
            0 <= i <= wheres.len(),
            s@ == join_and(cs.take(i as int)),
        decreases wheres.len() - i,
    {
        if i > 0 {
            s.append(" AND ");
        }
        s.append(wheres[i].as_str());
        proof {
            lemma_join_and_snoc(cs.take(i as int), cs[i as int]);
            assert(cs.take(i as int).push(cs[i as int]) =~= cs.take(i + 1 as int));
        }
        i += 1;
    }
    assert(cs.take(wheres@.len() as int) =~= cs);
    s
}

/// Projections distribute over appending pair lists.
proof fn lemma_project_add(a: Seq<(Seq<char>, BindV)>, b: Seq<(Seq<char>, BindV)>)
    ensures
        clauses_of(a + b) == clauses_of(a) + clauses_of(b),
        binds_of(a + b) == binds_of(a) + binds_of(b),
{
    assert(clauses_of(a + b) =~= clauses_of(a) + clauses_of(b));
    assert(binds_of(a + b) =~= binds_of(a) + binds_of(b));
}

/// Appends the fragment and bind of one optional text field.
fn push_text_field(wheres: &mut Vec<String>, binds: &mut Vec<Bind>, frag: &str, o: &Option<String>)
    ensures
        final(wheres)@.map_values(|x: String| x@) == old(wheres)@.map_values(|x: String| x@)
            + clauses_of(opt_pair(frag@, crate::data::view_opt_string(*o))),
        final(binds)@.map_values(|b: Bind| b@) == old(binds)@.map_values(|b: Bind| b@)
            + binds_of(opt_pair(frag@, crate::data::view_opt_string(*o))),
{
    let ghost pair = opt_pair(frag@, crate::data::view_opt_string(*o));
    if let Some(t) = o {
        wheres.push(String::from_str(frag));
        binds.push(Bind::Text(t.clone()));
        assert(wheres@.map_values(|x: String| x@) =~= old(wheres)@.map_values(|x: String| x@)
            + clauses_of(pair));
        assert(binds@.map_values(|b: Bind| b@) =~= old(binds)@.map_values(|b: Bind| b@)
            + binds_of(pair));
    } else {
        assert(wheres@.map_values(|x: String| x@) =~= old(wheres)@.map_values(|x: String| x@)
            + clauses_of(pair));
        assert(binds@.map_values(|b: Bind| b@) =~= old(binds)@.map_values(|b: Bind| b@)
            + binds_of(pair));
    }
}

/// Builds the retrieval statement and its bind values.
pub fn build_get_query(g: &GetEvents) -> (r: (String, Vec<Bind>))
    requires
        !g@.spec_empty(),
    ensures
        r.0@ == get_events_sql(g@),
        r.1@.map_values(|b: Bind| b@) == binds_of(get_pairs(g@)),
{
    let mut wheres: Vec<String> = Vec::new();
    let mut binds: Vec<Bind> = Vec::new();
    let ghost a1 = opt_pair("type=?"@, g@.ty);
    let ghost a2 = a1 + opt_pair("detail_type=?"@, g@.detail_type);
    let ghost a3 = a2 + opt_pair("sub_type=?"@, g@.sub_type);
    let ghost a4 = a3 + opt_pair("user_id=?"@, g@.user_id);
    let ghost a5 = a4 + opt_pair("group_id=?"@, g@.group_id);
    let ghost a6 = a5 + opt_pair("channel_id=?"@, g@.channel_id);
    let ghost a7 = a6 + opt_pair("guild_id=?"@, g@.guild_id);
    push_text_field(&mut wheres, &mut binds, "type=?", &g.ty);
    assert(Seq::<Seq<char>>::empty() + clauses_of(a1) =~= clauses_of(a1));
    assert(Seq::<BindV>::empty() + binds_of(a1) =~= binds_of(a1));
    push_text_field(&mut wheres, &mut binds, "detail_type=?", &g.detail_type);
    proof {
        lemma_project_add(a1, opt_pair("detail_type=?"@, g@.detail_type));
    }
    push_text_field(&mut wheres, &mut binds, "sub_type=?", &g.sub_type);
    proof {
        lemma_project_add(a2, opt_pair("sub_type=?"@, g@.sub_type));
    }
    push_text_field(&mut wheres, &mut binds, "user_id=?", &g.user_id);
    proof {
        lemma_project_add(a3, opt_pair("user_id=?"@, g@.user_id));
    }
    push_text_field(&mut wheres, &mut binds, "group_id=?", &g.group_id);
    proof {
        lemma_project_add(a4, opt_pair("group_id=?"@, g@.group_id));
    }
    push_text_field(&mut wheres, &mut binds, "channel_id=?", &g.channel_id);
    proof {
        lemma_project_add(a5, opt_pair("channel_id=?"@, g@.channel_id));
    }
    push_text_field(&mut wheres, &mut binds, "guild_id=?", &g.guild_id);
    proof {
        lemma_project_add(a6, opt_pair("guild_id=?"@, g@.guild_id));
    }
    assert(a7 == get_pairs(g@));
    assert(wheres@.map_values(|x: String| x@) == clauses_of(get_pairs(g@)));
    assert(binds@.map_values(|b: Bind| b@) == binds_of(get_pairs(g@)));
    let joined = join_clauses(&wheres);
    let mut s = String::from_str(
        "SELECT id, time, type, detail_type, sub_type, data FROM events WHERE ",
    );
    s.append(joined.as_str());
    s.append(" ORDER BY time DESC LIMIT ");
    let lim: u32 = match g.limit {
        Some(l) => l,
        None => 10,
    };
    let limtext = u32_dec(lim);
    s.append(limtext.as_str());
    if let Some(o) = g.offset {
        s.append(" OFFSET ");
        let offtext = u32_dec(o);
        s.append(offtext.as_str());
    }
    s.append(";");
    (s, binds)
}

/// Builds the deletion statement and its bind values.
pub fn build_delete_query(d: &DeleteEvents) -> (r: (String, Vec<Bind>))
    requires
        !d@.spec_empty(),
    ensures
        r.0@ == delete_events_sql(d@),
        r.1@.map_values(|b: Bind| b@) == binds_of(del_pairs(d@)),
{
    let mut wheres: Vec<String> = Vec::new();
    let mut binds: Vec<Bind> = Vec::new();
    let ghost a1 = opt_pair("type=?"@, d@.ty);
    let ghost a2 = a1 + opt_pair("id=?"@, d@.id);
    let ghost a3 = a2 + opt_pair("detail_type=?"@, d@.detail_type);
    let ghost a4 = a3 + opt_pair("sub_type=?"@, d@.sub_type);
    let ghost a5 = a4 + opt_pair("user_id=?"@, d@.user_id);
    let ghost a6 = a5 + opt_pair("group_id=?"@, d@.group_id);
    let ghost a7 = a6 + opt_pair("channel_id=?"@, d@.channel_id);
    let ghost a8 = a7 + opt_pair("guild_id=?"@, d@.guild_id);
    let ghost bpair = (match d@.before {
        Some(b) => seq![("time<?"@, BindV::Time(b))],
        None => Seq::<(Seq<char>, BindV)>::empty(),
    });
    let ghost a9 = a8 + bpair;
    push_text_field(&mut wheres, &mut binds, "type=?", &d.ty);
    assert(Seq::<Seq<char>>::empty() + clauses_of(a1) =~= clauses_of(a1));
    assert(Seq::<BindV>::empty() + binds_of(a1) =~= binds_of(a1));
    push_text_field(&mut wheres, &mut binds, "id=?", &d.id);
    proof {
        lemma_project_add(a1, opt_pair("id=?"@, d@.id));
    }
    push_text_field(&mut wheres, &mut binds, "detail_type=?", &d.detail_type);
    proof {
        lemma_project_add(a2, opt_pair("detail_type=?"@, d@.detail_type));
    }
    push_text_field(&mut wheres, &mut binds, "sub_type=?", &d.sub_type);
    proof {
        lemma_project_add(a3, opt_pair("sub_type=?"@, d@.sub_type));
    }
    push_text_field(&mut wheres, &mut binds, "user_id=?", &d.user_id);
    proof {
        lemma_project_add(a4, opt_pair("user_id=?"@, d@.user_id));
    }
    push_text_field(&mut wheres, &mut binds, "group_id=?", &d.group_id);
    proof {
        lemma_project_add(a5, opt_pair("group_id=?"@, d@.group_id));
    }
    push_text_field(&mut wheres, &mut binds, "channel_id=?", &d.channel_id);
    proof {
        lemma_project_add(a6, opt_pair("channel_id=?"@, d@.channel_id));
    }
    push_text_field(&mut wheres, &mut binds, "guild_id=?", &d.guild_id);
    proof {
        lemma_project_add(a7, opt_pair("guild_id=?"@, d@.guild_id));
    }
    if let Some(b) = d.before {
        wheres.push(String::from_str("time<?"));
        binds.push(Bind::Time(b));
    }
    proof {
        lemma_project_add(a8, bpair);
        assert(wheres@.map_values(|x: String| x@) =~= clauses_of(a8) + clauses_of(bpair));
        assert(binds@.map_values(|b2: Bind| b2@) =~= binds_of(a8) + binds_of(bpair));
    }
    assert(a9 == del_pairs(d@));
    assert(wheres@.map_values(|x: String| x@) == clauses_of(del_pairs(d@)));
    assert(binds@.map_values(|b2: Bind| b2@) == binds_of(del_pairs(d@)));
    let joined = join_clauses(&wheres);
    let mut s = String::from_str("DELETE FROM events WHERE ");
    s.append(joined.as_str());
    s.append(";");
    (s, binds)
}

/// The catalog probe of the schema manager: is the events table there?
pub fn events_table_check_sql() -> (s: String)
    ensures
        s@ == "SELECT COUNT(*) FROM sqlite_master WHERE TYPE='table' AND name='events';"@,
{
    String::from_str("SELECT COUNT(*) FROM sqlite_master WHERE TYPE='table' AND name='events';")
}

/// The idempotent table creation of the schema manager.
pub fn create_events_table_sql() -> (s: String)
    ensures
        s@ == "CREATE TABLE events (id text primary key not null, time real not null, type text not null, detail_type text not null, sub_type text not null, user_id text not null, group_id text not null, channel_id text not null, guild_id text not null, data blob not null);"@,
{
    String::from_str(
        "CREATE TABLE events (id text primary key not null, time real not null, type text not null, detail_type text not null, sub_type text not null, user_id text not null, group_id text not null, channel_id text not null, guild_id text not null, data blob not null);",
    )
}

/// The single-row insert: all nine typed columns and the blob.
pub fn insert_event_sql() -> (s: String)
    ensures
        s@ == "INSERT INTO events VALUES (?,?,?,?,?,?,?,?,?,?);"@,
{
    String::from_str("INSERT INTO events VALUES (?,?,?,?,?,?,?,?,?,?);")
}

/// The single-row lookup; the indexed columns are not selected, they
/// are not needed to reconstruct the event.
pub fn get_event_sql() -> (s: String)
    ensures
        s@ == "SELECT id, time, type, detail_type, sub_type, data FROM events WHERE id=?;"@,
{
    String::from_str("SELECT id, time, type, detail_type, sub_type, data FROM events WHERE id=?;")
}

} // verus!
