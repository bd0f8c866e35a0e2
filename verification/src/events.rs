//! Queries on the persisted event history: the SQL text and the values
//! bound to its placeholders, for a set of filters.

use vstd::prelude::*;
use crate::text::{concat2, concat3, spec_uuid_text, uuid_text};

verus! {

/// Filters of an event query.
#[derive(Debug)]
pub struct EventQuery {
    pub program_id: Option<u128>,
    /// Inclusive lower bound on the event time (Unix seconds).
    pub from: Option<u64>,
    /// Inclusive upper bound on the event time (Unix seconds).
    pub to: Option<u64>,
    pub event_type: Option<String>,
    pub exit_code: Option<i32>,
    /// Text searched for in the messages.
    pub q: Option<String>,
    pub limit: Option<u32>,
    pub offset: Option<u32>,
}

/// A value bound to a placeholder.
#[derive(Debug, PartialEq, Eq)]
pub enum SqlValue {
    Text(String),
    Int(i64),
}

/// Start of the query text.
pub open spec fn spec_select() -> Seq<char> {
    "SELECT program_id, program_name, ts, ts_ms, event, exit_code, signal, retry_count, duration_secs, msg FROM events WHERE 1=1"@
}

/// `clause` when the filter is present.
pub open spec fn spec_when(present: bool, clause: Seq<char>) -> Seq<char> {
    if present {
        clause
    } else {
        Seq::empty()
    }
}

/// Query text for the filters: one condition per filter given, in a fixed
/// order, oldest events first, then the limit and offset when given.
pub open spec fn spec_event_sql(q: EventQuery) -> Seq<char> {
    spec_select() + spec_when(q.program_id is Some, " AND program_id = ?"@) + spec_when(
        q.from is Some,
        " AND ts >= ?"@,
    ) + spec_when(q.to is Some, " AND ts <= ?"@) + spec_when(q.event_type is Some, " AND event = ?"@)
        + spec_when(q.exit_code is Some, " AND exit_code = ?"@) + spec_when(q.q is Some, " AND msg LIKE ?"@)
        + " ORDER BY ts_ms ASC, id ASC"@ + spec_when(q.limit is Some, " LIMIT ?"@) + spec_when(
        q.offset is Some,
        " OFFSET ?"@,
    )
}

/// Content of a bound value: `(true, text, 0)` for a text, `(false, empty,
/// n)` for an integer `n`.
pub open spec fn spec_value(v: SqlValue) -> (bool, Seq<char>, int) {
    match v {
        SqlValue::Text(t) => (true, t@, 0),
        SqlValue::Int(n) => (false, Seq::empty(), n as int),
    }
}

/// Contents of bound values.
pub open spec fn spec_values_of(v: Seq<SqlValue>) -> Seq<(bool, Seq<char>, int)> {
    v.map_values(|x: SqlValue| spec_value(x))
}

/// A text value, as a one-element list when present.
pub open spec fn spec_text_param(t: Option<Seq<char>>) -> Seq<(bool, Seq<char>, int)> {
    match t {
        Some(x) => seq![(true, x, 0int)],
        None => Seq::empty(),
    }
}

/// An integer value, as a one-element list when present.
pub open spec fn spec_int_param(n: Option<int>) -> Seq<(bool, Seq<char>, int)> {
    match n {
        Some(x) => seq![(false, Seq::<char>::empty(), x)],
        None => Seq::empty(),
    }
}

/// Values bound to the placeholders, in the order of the conditions: the
/// program's id as text, the bounds, the event type, the exit code, the
/// searched text between `%` wildcards, the limit and the offset (the
/// unsigned ones as `i64`, wrapping like `as`).
pub open spec fn spec_event_params(q: EventQuery) -> Seq<(bool, Seq<char>, int)> {
    spec_text_param(
        match q.program_id {
            Some(id) => Some(spec_uuid_text(id)),
            None => None,
        },
    ) + spec_int_param(
        match q.from {
            Some(t) => Some((t as i64) as int),
            None => None,
        },
    ) + spec_int_param(
        match q.to {
            Some(t) => Some((t as i64) as int),
            None => None,
        },
    ) + spec_text_param(
        match q.event_type {
            Some(e) => Some(e@),
            None => None,
        },
    ) + spec_int_param(
        match q.exit_code {
            Some(c) => Some(c as int),
            None => None,
        },
    ) + spec_text_param(
        match q.q {
            Some(t) => Some("%"@ + t@ + "%"@),
            None => None,
        },
    ) + spec_int_param(
        match q.limit {
            Some(l) => Some(l as int),
            None => None,
        },
    ) + spec_int_param(
        match q.offset {
            Some(o) => Some(o as int),
            None => None,
        },
    )
}

fn push_clause(sql: String, present: bool, clause: &str) -> (r: String)
    ensures
        r@ == sql@ + spec_when(present, clause@),
{
    if present {
        concat2(sql.as_str(), clause)
    } else {
        sql
    }
}

fn push_text(params: &mut Vec<SqlValue>, t: Option<String>)
    ensures
        spec_values_of(final(params)@) == spec_values_of(old(params)@) + spec_text_param(
            match t {
                Some(x) => Some(x@),
                None => None,
            },
        ),
{
    let ghost p0 = params@;
    match t {
        Some(x) => {
            params.push(SqlValue::Text(x));
            assert(spec_values_of(params@) =~= spec_values_of(p0).push(spec_value(params@[params@.len() - 1])));
        },
        None => {
            assert(spec_values_of(params@) =~= spec_values_of(p0));
        },
    }
}

fn push_int(params: &mut Vec<SqlValue>, n: Option<i64>)
    ensures
        spec_values_of(final(params)@) == spec_values_of(old(params)@) + spec_int_param(
            match n {
                Some(x) => Some(x as int),
                None => None,
            },
        ),
{
    let ghost p0 = params@;
    match n {
        Some(x) => {
            params.push(SqlValue::Int(x));
            assert(spec_values_of(params@) =~= spec_values_of(p0).push(spec_value(params@[params@.len() - 1])));
        },
        None => {
            assert(spec_values_of(params@) =~= spec_values_of(p0));
        },
    }
}

/// The SQL text and the bound values of an event query (see
/// [`spec_event_sql`] and [`spec_event_params`]).
pub fn event_query_sql(q: &EventQuery) -> (r: (String, Vec<SqlValue>))
    ensures
        r.0@ == spec_event_sql(*q),
        spec_values_of(r.1@) == spec_event_params(*q),
{
    let mut sql = String::from_str(
        "SELECT program_id, program_name, ts, ts_ms, event, exit_code, signal, retry_count, duration_secs, msg FROM events WHERE 1=1",
    );
    sql = push_clause(sql, q.program_id.is_some(), " AND program_id = ?");
    sql = push_clause(sql, q.from.is_some(), " AND ts >= ?");
    sql = push_clause(sql, q.to.is_some(), " AND ts <= ?");
    sql = push_clause(sql, q.event_type.is_some(), " AND event = ?");
    sql = push_clause(sql, q.exit_code.is_some(), " AND exit_code = ?");
    sql = push_clause(sql, q.q.is_some(), " AND msg LIKE ?");
    sql = concat2(sql.as_str(), " ORDER BY ts_ms ASC, id ASC");
    sql = push_clause(sql, q.limit.is_some(), " LIMIT ?");
    sql = push_clause(sql, q.offset.is_some(), " OFFSET ?");
    let mut params: Vec<SqlValue> = Vec::new();
    assert(spec_values_of(params@) =~= Seq::<(bool, Seq<char>, int)>::empty());
    push_text(
        &mut params,
        match q.program_id {
            Some(id) => Some(uuid_text(id)),
            None => None,
        },
    );
    push_int(
        &mut params,
        match q.from {
            Some(t) => Some(t as i64),
            None => None,
        },
    );
    push_int(
        &mut params,
        match q.to {
            Some(t) => Some(t as i64),
            None => None,
        },
    );
    push_text(
        &mut params,
        match &q.event_type {
            Some(e) => Some(e.clone()),
            None => None,
        },
    );
    push_int(
        &mut params,
        match q.exit_code {
            Some(c) => Some(c as i64),
            None => None,
        },
    );
    push_text(
        &mut params,
        match &q.q {
            Some(t) => Some(concat3("%", t.as_str(), "%")),
            None => None,
        },
    );
    push_int(
        &mut params,
        match q.limit {
            Some(l) => Some(l as i64),
            None => None,
        },
    );
    push_int(
        &mut params,
        match q.offset {
            Some(o) => Some(o as i64),
            None => None,
        },
    );
    (sql, params)
}

} // verus!
