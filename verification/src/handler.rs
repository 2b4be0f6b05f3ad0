//! The action interceptor: a decorator in front of an arbitrary inner
//! handler.  A small set of reserved action names is served from the
//! event store; anything else is handed back unchanged to be forwarded.
//! On the event-delivery hook, the event is persisted best-effort and
//! passed on untouched.

use vstd::prelude::*;
use crate::data::{
    DeleteEvents, Event, EventV, ExtraEntry, GetEvents, Value, ValueV, extra_v, lookup, str_eq,
    extra_get,
};
use crate::store::{EventStore, StoreError, event_of, spec_delete, spec_get, spec_get_events,
    spec_insert};

verus! {

/// Reserved actions answer with a structured failure, never a fault;
/// these are the stable failure codes.
pub const RETCODE_BAD_PARAM: u32 = 10003;

pub const RETCODE_SQLX_ERROR: u32 = 31001;

pub const RETCODE_EVENT_NOT_FOUND: u32 = 31002;

/// An action as the pipeline hands it over: a name and a parameter
/// mapping.
#[derive(Debug, PartialEq)]
pub struct ActionCall {
    pub action: String,
    pub params: Vec<ExtraEntry>,
}

/// Mathematical view of an `ActionCall`.
pub struct ActionCallV {
    pub action: Seq<char>,
    pub params: Seq<(Seq<char>, ValueV)>,
}

impl View for ActionCall {
    type V = ActionCallV;

    open spec fn view(&self) -> ActionCallV {
        ActionCallV { action: self.action@, params: extra_v(self.params@) }
    }
}

/// The reserved actions, parsed.
#[derive(Debug, PartialEq)]
pub enum SqlAction {
    GetEvent { id: String },
    GetEvents(GetEvents),
    DeleteEvents(DeleteEvents),
}

/// Mathematical view of a `SqlAction`.
pub enum SqlActionV {
    GetEvent { id: Seq<char> },
    GetEvents(crate::data::GetEventsV),
    DeleteEvents(crate::data::DeleteEventsV),
}

impl View for SqlAction {
    type V = SqlActionV;

    open spec fn view(&self) -> SqlActionV {
        match self {
            SqlAction::GetEvent { id } => SqlActionV::GetEvent { id: id@ },
            SqlAction::GetEvents(g) => SqlActionV::GetEvents(g@),
            SqlAction::DeleteEvents(d) => SqlActionV::DeleteEvents(d@),
        }
    }
}

/// The reserved action names.
pub open spec fn is_reserved(s: Seq<char>) -> bool {
    s == "get_event"@ || s == "get_events"@ || s == "delete_events"@
}

/// Whether this action name is served from the store rather than
/// forwarded.
pub fn is_sql_action(action: &str) -> (b: bool)
    ensures
        b == is_reserved(action@),
{
    str_eq(action, "get_event") || str_eq(action, "get_events") || str_eq(
        action,
        "delete_events",
    )
}

// ---------------------------------------------------------------------------
// Parameter parsing: absent optional fields stay absent; a present
// field of the wrong shape makes the whole action malformed.
// ---------------------------------------------------------------------------
/// An optional string field: `None` of the outer option means malformed.
pub open spec fn parse_opt_str(m: Seq<(Seq<char>, ValueV)>, k: Seq<char>) -> Option<
    Option<Seq<char>>,
> {
    match lookup(m, k) {
        None => Some(None),
        Some(ValueV::Str(s)) => Some(Some(s)),
        Some(_) => None,
    }
}

/// An optional page-size field: an integer that fits `u32`.
pub open spec fn parse_opt_u32(m: Seq<(Seq<char>, ValueV)>, k: Seq<char>) -> Option<Option<u32>> {
    match lookup(m, k) {
        None => Some(None),
        Some(ValueV::Int(i)) => if 0 <= i && i <= u32::MAX {
            Some(Some(i as u32))
        } else {
            None
        },
        Some(_) => None,
    }
}

/// An optional timestamp field: a non-negative integer, or a
/// floating-point value carried by its bit pattern.  A negative float
/// (sign bit set) orders below every stored timestamp and becomes
/// zero, which bounds nothing away.
pub open spec fn parse_opt_u64(m: Seq<(Seq<char>, ValueV)>, k: Seq<char>) -> Option<Option<u64>> {
    match lookup(m, k) {
        None => Some(None),
        Some(ValueV::Int(i)) => if 0 <= i {
            Some(Some(i as u64))
        } else {
            None
        },
        Some(ValueV::F64Bits(b)) => if b < 0x8000000000000000 {
            Some(Some(b))
        } else {
            Some(Some(0))
        },
        Some(_) => None,
    }
}

/// Collapses a parse outcome to the field itself.
pub open spec fn flat<T>(x: Option<Option<T>>) -> Option<T> {
    match x {
        Some(y) => y,
        None => None,
    }
}

/// The required identifier of a single-event lookup.
pub open spec fn id_of(m: Seq<(Seq<char>, ValueV)>) -> Option<Seq<char>> {
    match lookup(m, "id"@) {
        Some(ValueV::Str(s)) => Some(s),
        _ => None,
    }
}

/// Every field of a retrieval filter parses.
pub open spec fn get_filter_ok(m: Seq<(Seq<char>, ValueV)>) -> bool {
    &&& parse_opt_str(m, "ty"@) is Some
    &&& parse_opt_str(m, "detail_type"@) is Some
    &&& parse_opt_str(m, "sub_type"@) is Some
    &&& parse_opt_str(m, "user_id"@) is Some
    &&& parse_opt_str(m, "group_id"@) is Some
    &&& parse_opt_str(m, "channel_id"@) is Some
    &&& parse_opt_str(m, "guild_id"@) is Some
    &&& parse_opt_u32(m, "limit"@) is Some
    &&& parse_opt_u32(m, "offset"@) is Some
}

/// The retrieval filter a parameter mapping describes.
pub open spec fn get_filter_of(m: Seq<(Seq<char>, ValueV)>) -> crate::data::GetEventsV {
    crate::data::GetEventsV {
        ty: flat(parse_opt_str(m, "ty"@)),
        detail_type: flat(parse_opt_str(m, "detail_type"@)),
        sub_type: flat(parse_opt_str(m, "sub_type"@)),
        user_id: flat(parse_opt_str(m, "user_id"@)),
        group_id: flat(parse_opt_str(m, "group_id"@)),
        channel_id: flat(parse_opt_str(m, "channel_id"@)),
        guild_id: flat(parse_opt_str(m, "guild_id"@)),
        limit: flat(parse_opt_u32(m, "limit"@)),
        offset: flat(parse_opt_u32(m, "offset"@)),
    }
}

/// Every field of a deletion filter parses.
pub open spec fn del_filter_ok(m: Seq<(Seq<char>, ValueV)>) -> bool {
    &&& parse_opt_str(m, "id"@) is Some
    &&& parse_opt_str(m, "ty"@) is Some
    &&& parse_opt_str(m, "detail_type"@) is Some
    &&& parse_opt_str(m, "sub_type"@) is Some
    &&& parse_opt_str(m, "user_id"@) is Some
    &&& parse_opt_str(m, "group_id"@) is Some
    &&& parse_opt_str(m, "channel_id"@) is Some
    &&& parse_opt_str(m, "guild_id"@) is Some
    &&& parse_opt_u64(m, "before"@) is Some
}

/// The deletion filter a parameter mapping describes.
pub open spec fn del_filter_of(m: Seq<(Seq<char>, ValueV)>) -> crate::data::DeleteEventsV {
    crate::data::DeleteEventsV {
        id: flat(parse_opt_str(m, "id"@)),
        ty: flat(parse_opt_str(m, "ty"@)),
        detail_type: flat(parse_opt_str(m, "detail_type"@)),
        sub_type: flat(parse_opt_str(m, "sub_type"@)),
        user_id: flat(parse_opt_str(m, "user_id"@)),
        group_id: flat(parse_opt_str(m, "group_id"@)),
        channel_id: flat(parse_opt_str(m, "channel_id"@)),
        guild_id: flat(parse_opt_str(m, "guild_id"@)),
        before: flat(parse_opt_u64(m, "before"@)),
    }
}

/// What a reserved call parses to; `None` means malformed parameters.
pub open spec fn spec_parse(c: ActionCallV) -> Option<SqlActionV> {
    if c.action == "get_event"@ {
        match id_of(c.params) {
            Some(id) => Some(SqlActionV::GetEvent { id }),
            None => None,
        }
    } else if c.action == "get_events"@ {
        if get_filter_ok(c.params) {
            Some(SqlActionV::GetEvents(get_filter_of(c.params)))
        } else {
            None
        }
    } else if c.action == "delete_events"@ {
        if del_filter_ok(c.params) {
            Some(SqlActionV::DeleteEvents(del_filter_of(c.params)))
        } else {
            None
        }
    } else {
        None
    }
}

/// The first field of a malformed retrieval filter that fails to
/// parse, in the canonical field order.
pub open spec fn bad_get_field(m: Seq<(Seq<char>, ValueV)>) -> Seq<char> {
    if parse_opt_str(m, "ty"@) is None {
        "ty"@
    } else if parse_opt_str(m, "detail_type"@) is None {
        "detail_type"@
    } else if parse_opt_str(m, "sub_type"@) is None {
        "sub_type"@
    } else if parse_opt_str(m, "user_id"@) is None {
        "user_id"@
    } else if parse_opt_str(m, "group_id"@) is None {
        "group_id"@
    } else if parse_opt_str(m, "channel_id"@) is None {
        "channel_id"@
    } else if parse_opt_str(m, "guild_id"@) is None {
        "guild_id"@
    } else if parse_opt_u32(m, "limit"@) is None {
        "limit"@
    } else {
        "offset"@
    }
}

/// The first field of a malformed deletion filter that fails to parse.
pub open spec fn bad_del_field(m: Seq<(Seq<char>, ValueV)>) -> Seq<char> {
    if parse_opt_str(m, "id"@) is None {
        "id"@
    } else if parse_opt_str(m, "ty"@) is None {
        "ty"@
    } else if parse_opt_str(m, "detail_type"@) is None {
        "detail_type"@
    } else if parse_opt_str(m, "sub_type"@) is None {
        "sub_type"@
    } else if parse_opt_str(m, "user_id"@) is None {
        "user_id"@
    } else if parse_opt_str(m, "group_id"@) is None {
        "group_id"@
    } else if parse_opt_str(m, "channel_id"@) is None {
        "channel_id"@
    } else if parse_opt_str(m, "guild_id"@) is None {
        "guild_id"@
    } else {
        "before"@
    }
}

/// The parameter a bad-parameters failure names: the offending field
/// of the reserved action.
pub open spec fn bad_param_field(c: ActionCallV) -> Seq<char> {
    if c.action == "get_event"@ {
        "id"@
    } else if c.action == "get_events"@ {
        bad_get_field(c.params)
    } else if c.action == "delete_events"@ {
        bad_del_field(c.params)
    } else {
        Seq::empty()
    }
}

fn ex_parse_opt_str(params: &Vec<ExtraEntry>, k: &str) -> (r: Option<Option<String>>)
    ensures
        match r {
            Some(o) => parse_opt_str(extra_v(params@), k@) == Some(
                crate::data::view_opt_string(o),
            ),
            None => parse_opt_str(extra_v(params@), k@) is None,
        },
{
    match extra_get(params, k) {
        None => Some(None),
        Some(Value::Str(s)) => Some(Some(s)),
        Some(_) => None,
    }
}

fn ex_parse_opt_u32(params: &Vec<ExtraEntry>, k: &str) -> (r: Option<Option<u32>>)
    ensures
        match r {
            Some(o) => parse_opt_u32(extra_v(params@), k@) == Some(o),
            None => parse_opt_u32(extra_v(params@), k@) is None,
        },
{
    match extra_get(params, k) {
        None => Some(None),
        Some(Value::Int(i)) => if 0 <= i && i <= u32::MAX as i64 {
            Some(Some(i as u32))
        } else {
            None
        },
        Some(_) => None,
    }
}

fn ex_parse_opt_u64(params: &Vec<ExtraEntry>, k: &str) -> (r: Option<Option<u64>>)
    ensures
        match r {
            Some(o) => parse_opt_u64(extra_v(params@), k@) == Some(o),
            None => parse_opt_u64(extra_v(params@), k@) is None,
        },
{
    match extra_get(params, k) {
        None => Some(None),
        Some(Value::Int(i)) => if 0 <= i {
            Some(Some(i as u64))
        } else {
            None
        },
        Some(Value::F64Bits(b)) => if b < 0x8000000000000000 {
            Some(Some(b))
        } else {
            Some(Some(0))
        },
        Some(_) => None,
    }
}

/// Parses a reserved call into its action; a malformed call fails
/// with the name of the first offending parameter.
pub fn parse_sql_action(call: &ActionCall) -> (r: Result<SqlAction, String>)
    ensures
        match r {
            Ok(a) => spec_parse(call@) == Some(a@),
            Err(msg) => (spec_parse(call@) is None) && msg@ == bad_param_field(call@),
        },
{
    if str_eq(call.action.as_str(), "get_event") {
        match extra_get(&call.params, "id") {
            Some(Value::Str(id)) => Ok(SqlAction::GetEvent { id }),
            _ => Err(String::from_str("id")),
        }
    } else if str_eq(call.action.as_str(), "get_events") {
        let ty = match ex_parse_opt_str(&call.params, "ty") {
            Some(o) => o,
            None => {
                return Err(String::from_str("ty"));
            },
        };
        let detail_type = match ex_parse_opt_str(&call.params, "detail_type") {
            Some(o) => o,
            None => {
                return Err(String::from_str("detail_type"));
            },
        };
        let sub_type = match ex_parse_opt_str(&call.params, "sub_type") {
            Some(o) => o,
            None => {
                return Err(String::from_str("sub_type"));
            },
        };
        let user_id = match ex_parse_opt_str(&call.params, "user_id") {
            Some(o) => o,
            None => {
                return Err(String::from_str("user_id"));
            },
        };
        let group_id = match ex_parse_opt_str(&call.params, "group_id") {
            Some(o) => o,
            None => {
                return Err(String::from_str("group_id"));
            },
        };
        let channel_id = match ex_parse_opt_str(&call.params, "channel_id") {
            Some(o) => o,
            None => {
                return Err(String::from_str("channel_id"));
            },
        };
        let guild_id = match ex_parse_opt_str(&call.params, "guild_id") {
            Some(o) => o,
            None => {
                return Err(String::from_str("guild_id"));
            },
        };
        let limit = match ex_parse_opt_u32(&call.params, "limit") {
            Some(o) => o,
            None => {
                return Err(String::from_str("limit"));
            },
        };
        let offset = match ex_parse_opt_u32(&call.params, "offset") {
            Some(o) => o,
            None => {
                return Err(String::from_str("offset"));
            },
        };
        Ok(
            SqlAction::GetEvents(
                GetEvents {
                    ty,
                    detail_type,
                    sub_type,
                    user_id,
                    group_id,
                    channel_id,
                    guild_id,
                    limit,
                    offset,
                },
            ),
        )
    } else if str_eq(call.action.as_str(), "delete_events") {
        let id = match ex_parse_opt_str(&call.params, "id") {
            Some(o) => o,
            None => {
                return Err(String::from_str("id"));
            },
        };
        let ty = match ex_parse_opt_str(&call.params, "ty") {
            Some(o) => o,
            None => {
                return Err(String::from_str("ty"));
            },
        };
        let detail_type = match ex_parse_opt_str(&call.params, "detail_type") {
            Some(o) => o,
            None => {
                return Err(String::from_str("detail_type"));
            },
        };
        let sub_type = match ex_parse_opt_str(&call.params, "sub_type") {
            Some(o) => o,
            None => {
                return Err(String::from_str("sub_type"));
            },
        };
        let user_id = match ex_parse_opt_str(&call.params, "user_id") {
            Some(o) => o,
            None => {
                return Err(String::from_str("user_id"));
            },
        };
        let group_id = match ex_parse_opt_str(&call.params, "group_id") {
            Some(o) => o,
            None => {
                return Err(String::from_str("group_id"));
            },
        };
        let channel_id = match ex_parse_opt_str(&call.params, "channel_id") {
            Some(o) => o,
            None => {
                return Err(String::from_str("channel_id"));
            },
        };
        let guild_id = match ex_parse_opt_str(&call.params, "guild_id") {
            Some(o) => o,
            None => {
                return Err(String::from_str("guild_id"));
            },
        };
        let before = match ex_parse_opt_u64(&call.params, "before") {
            Some(o) => o,
            None => {
                return Err(String::from_str("before"));
            },
        };
        Ok(
            SqlAction::DeleteEvents(
                DeleteEvents {
                    id,
                    ty,
                    detail_type,
                    sub_type,
                    user_id,
                    group_id,
                    channel_id,
                    guild_id,
                    before,
                },
            ),
        )
    } else {
        Err(String::new())
    }
}

// ---------------------------------------------------------------------------
// Responses and the decorator itself.
// ---------------------------------------------------------------------------
/// What a reserved action answers with.
#[derive(Debug, PartialEq)]
pub enum Resp {
    Event(Event),
    Events(Vec<Event>),
    Count(u64),
    Error { retcode: u32, message: String },
}

/// Mathematical view of a `Resp`.
pub enum RespV {
    Event(EventV),
    Events(Seq<EventV>),
    Count(u64),
    Error { retcode: u32, message: Seq<char> },
}

impl View for Resp {
    type V = RespV;

    open spec fn view(&self) -> RespV {
        match self {
            Resp::Event(e) => RespV::Event(e@),
            Resp::Events(es) => RespV::Events(es@.map_values(|e: Event| e@)),
            Resp::Count(n) => RespV::Count(*n),
            Resp::Error { retcode, message } => RespV::Error {
                retcode: *retcode,
                message: message@,
            },
        }
    }
}

/// What the decorator does with one call: answer it, or hand it back,
/// untouched, for the inner handler.
#[derive(Debug, PartialEq)]
pub enum CallOutcome {
    Handled(Resp),
    Forward(ActionCall),
}

fn bad_param_resp(field: String) -> (r: Resp)
    ensures
        (r@ matches RespV::Error { retcode, message } && retcode == RETCODE_BAD_PARAM && message
            == field@),
{
    Resp::Error { retcode: RETCODE_BAD_PARAM, message: field }
}

fn not_found_resp() -> (r: Resp)
    ensures
        (r@ matches RespV::Error { retcode, message } && retcode == RETCODE_EVENT_NOT_FOUND),
{
    Resp::Error { retcode: RETCODE_EVENT_NOT_FOUND, message: String::new() }
}

fn storage_error_resp() -> (r: Resp)
    ensures
        (r@ matches RespV::Error { retcode, message } && retcode == RETCODE_SQLX_ERROR),
{
    Resp::Error { retcode: RETCODE_SQLX_ERROR, message: String::new() }
}

/// The interceptor: serves the reserved actions from the store and
/// hands every other action back unchanged.
pub fn handle_call(store: &mut EventStore, call: ActionCall) -> (out: CallOutcome)
    requires
        old(store).wf(),
    ensures
        final(store).wf(),
        !is_reserved(call@.action) ==> (out matches CallOutcome::Forward(a) && a@.action
            == call@.action && a@.params == call@.params && final(store)@ == old(store)@),
        is_reserved(call@.action) && (spec_parse(call@) is None) ==> (out matches
            CallOutcome::Handled(resp) && (resp@ matches RespV::Error { retcode, message }
            && retcode == RETCODE_BAD_PARAM && message == bad_param_field(call@))
            && final(store)@ == old(store)@),
        spec_parse(call@) matches Some(SqlActionV::GetEvent { id }) ==> final(store)@ == old(
            store,
        )@ && (match spec_get(old(store)@, id) {
            Some(row) => out matches CallOutcome::Handled(resp) && resp@ == RespV::Event(
                event_of(row),
            ),
            None => out matches CallOutcome::Handled(resp) && (resp@ matches RespV::Error {
                retcode,
                message,
            } && retcode == RETCODE_EVENT_NOT_FOUND),
        }),
        spec_parse(call@) matches Some(SqlActionV::GetEvents(g)) ==> final(store)@ == old(
            store,
        )@ && (out matches CallOutcome::Handled(resp) && (resp@ matches RespV::Events(es) && es
            == spec_get_events(old(store)@, g))),
        spec_parse(call@) matches Some(SqlActionV::DeleteEvents(d)) ==> final(store)@
            == spec_delete(old(store)@, d) && (out matches CallOutcome::Handled(resp) && (resp@
            matches RespV::Count(n) && n as int == old(store)@.len() - final(store)@.len())),
{
    if !is_sql_action(call.action.as_str()) {
        return CallOutcome::Forward(call);
    }
    match parse_sql_action(&call) {
        Err(msg) => CallOutcome::Handled(bad_param_resp(msg)),
        Ok(SqlAction::GetEvent { id }) => match store.get_event(id.as_str()) {
            Ok(Some(e)) => CallOutcome::Handled(Resp::Event(e)),
            Ok(None) => CallOutcome::Handled(not_found_resp()),
            Err(_) => CallOutcome::Handled(storage_error_resp()),
        },
        Ok(SqlAction::GetEvents(g)) => match store.get_events(&g) {
            Ok(es) => CallOutcome::Handled(Resp::Events(es)),
            Err(_) => CallOutcome::Handled(storage_error_resp()),
        },
        Ok(SqlAction::DeleteEvents(d)) => match store.delete_events(&d) {
            Ok(n) => CallOutcome::Handled(Resp::Count(n)),
            Err(_) => CallOutcome::Handled(storage_error_resp()),
        },
    }
}

/// The event tap: persists the event best-effort, then hands it on,
/// untouched, whatever the insert said.
pub fn before_event(store: &mut EventStore, event: Event) -> (out: Event)
    requires
        old(store).wf(),
    ensures
        final(store).wf(),
        out@ == event@,
        final(store)@ == spec_insert(old(store)@, event@).0,
{
    let _r = store.insert_event(&event);
    event
}

} // verus!
