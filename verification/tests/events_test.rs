use super_core::events::{event_query_sql, EventQuery, SqlValue};

fn empty() -> EventQuery {
    EventQuery {
        program_id: None,
        from: None,
        to: None,
        event_type: None,
        exit_code: None,
        q: None,
        limit: None,
        offset: None,
    }
}

const BASE: &str = "SELECT program_id, program_name, ts, ts_ms, event, exit_code, signal, retry_count, duration_secs, msg FROM events WHERE 1=1";

#[test]
fn unfiltered_query_orders_oldest_first() {
    let (sql, params) = event_query_sql(&empty());
    assert_eq!(sql, format!("{BASE} ORDER BY ts_ms ASC, id ASC"));
    assert!(params.is_empty());
}

#[test]
fn every_filter_adds_a_condition_and_a_value() {
    let q = EventQuery {
        program_id: Some(1),
        from: Some(10),
        to: Some(20),
        event_type: Some("exited".to_string()),
        exit_code: Some(-1),
        q: Some("boom".to_string()),
        limit: Some(5),
        offset: Some(2),
    };
    let (sql, params) = event_query_sql(&q);
    assert_eq!(
        sql,
        format!(
            "{BASE} AND program_id = ? AND ts >= ? AND ts <= ? AND event = ? AND exit_code = ? AND msg LIKE ? ORDER BY ts_ms ASC, id ASC LIMIT ? OFFSET ?"
        )
    );
    assert_eq!(
        params,
        vec![
            SqlValue::Text("00000000-0000-0000-0000-000000000001".to_string()),
            SqlValue::Int(10),
            SqlValue::Int(20),
            SqlValue::Text("exited".to_string()),
            SqlValue::Int(-1),
            SqlValue::Text("%boom%".to_string()),
            SqlValue::Int(5),
            SqlValue::Int(2),
        ]
    );
}

#[test]
fn only_given_filters_appear() {
    let mut q = empty();
    q.exit_code = Some(3);
    q.offset = Some(7);
    let (sql, params) = event_query_sql(&q);
    assert_eq!(sql, format!("{BASE} AND exit_code = ? ORDER BY ts_ms ASC, id ASC OFFSET ?"));
    assert_eq!(params, vec![SqlValue::Int(3), SqlValue::Int(7)]);
}
