use web3_proxy::stats::{
    query_user_stats, user_stats, AggregatedRpcAccounting, StatType, StatsError, StatsParams,
};

fn params(user_id: u64, chain_id: u64, stat_type: StatType) -> StatsParams {
    StatsParams {
        user_id,
        chain_id,
        query_start: -60,
        query_stop: 1675296000,
        query_window_seconds: 86400,
        stat_type,
    }
}

fn row(field: &str, value: f64, seconds: i64) -> AggregatedRpcAccounting {
    AggregatedRpcAccounting { field: field.to_string(), value: value.to_bits(), time: (seconds, 0) }
}

#[test]
fn query_of_all_users_on_all_chains() {
    let query =
        query_user_stats(&params(0, 0, StatType::Aggregated), &Some("dev".to_string())).unwrap();
    let expected = r#"
        from(bucket: "dev")
            |> range(start: -60, stop: 1675296000)
            |> filter(fn: (r) => r["_measurement"] == "global_proxy")
            |> filter(fn: (r) => r["_field"] == "frontend_requests" or r["_field"] == "backend_requests" or r["_field"] == "cache_hits" or r["_field"] == "cache_misses" or r["_field"] == "no_servers" or r["_field"] == "sum_request_bytes" or r["_field"] == "sum_response_bytes" or r["_field"] == "sum_response_millis")
            
            |> group(columns: ["_measurement","_field","chain_id"])
            |> aggregateWindow(every: 86400s, fn: sum, createEmpty: false)
            |> yield(name: "sum")
    "#;
    assert_eq!(query, expected);
}

#[test]
fn query_of_one_user_on_one_chain() {
    let query =
        query_user_stats(&params(5, 137, StatType::Aggregated), &Some("dev".to_string())).unwrap();
    assert!(query.contains(r#"r["_measurement"] == "opt_in_proxy""#));
    assert!(query.contains(r#"|> filter(fn: (r) => r["chain_id"] == "137")"#));
    assert!(query.contains(r#"|> group(columns: ["_measurement","_field"])"#));
}

#[test]
fn detailed_query_neither_groups_nor_picks_fields() {
    let query =
        query_user_stats(&params(5, 1, StatType::Detailed), &Some("b".to_string())).unwrap();
    let expected = r#"
        from(bucket: "b")
            |> range(start: -60, stop: 1675296000)
            |> filter(fn: (r) => r["_measurement"] == "opt_in_proxy")
            
            |> filter(fn: (r) => r["chain_id"] == "1")
            
            |> aggregateWindow(every: 86400s, fn: sum, createEmpty: false)
            |> yield(name: "sum")
    "#;
    assert_eq!(query, expected);
}

#[test]
fn an_empty_range_is_refused() {
    let mut p = params(0, 0, StatType::Detailed);
    p.query_stop = p.query_start;
    assert_eq!(query_user_stats(&p, &Some("b".to_string())), Err(StatsError::EqualDates));
    assert_eq!(query_user_stats(&p, &None), Err(StatsError::EqualDates));
    assert_eq!(
        StatsError::EqualDates.message(),
        "Start and Stop date cannot be equal. Please specify a (different) start date."
    );
}

#[test]
fn a_bucket_is_needed() {
    let p = params(0, 0, StatType::Detailed);
    assert_eq!(query_user_stats(&p, &None), Err(StatsError::NoBucket));
    assert_eq!(StatsError::NoBucket.message(), "No influxdb bucket was provided");
}

#[test]
fn sums_of_one_time_make_one_datapoint() {
    let rows = vec![
        row("cache_hits", 3.0, 100),
        row("frontend_requests", 7.5, 100),
        row("cache_hits", 4.0, 200),
    ];
    let stats = user_stats(&params(0, 10, StatType::Aggregated), rows);
    assert_eq!(stats.num_items, 2);
    assert_eq!(stats.result.len(), 2);
    assert_eq!(stats.query_window_seconds, 86400);
    assert_eq!(stats.query_start, -60);
    assert_eq!(stats.chain_id, 10);
    assert_eq!(stats.result[0].query_window_timestamp, 100);
    let hits = "total_cache_hits".to_string();
    let requests = "total_frontend_requests".to_string();
    assert_eq!(stats.result[0].total(&hits), Some(3.0f64.to_bits()));
    assert_eq!(stats.result[0].total(&requests), Some(7.5f64.to_bits()));
    assert_eq!(stats.result[0].total(&"cache_hits".to_string()), None);
    assert_eq!(stats.result[0].total(&"query_window_timestamp".to_string()), None);
    assert_eq!(stats.result[1].query_window_timestamp, 200);
    assert_eq!(stats.result[1].total(&hits), Some(4.0f64.to_bits()));
    assert_eq!(stats.result[1].total(&requests), None);
    let mut all = stats.result[0].all_totals();
    all.sort();
    assert_eq!(all, vec![(hits, 3.0f64.to_bits()), (requests, 7.5f64.to_bits())]);
}

#[test]
fn only_neighbouring_sums_are_put_together() {
    let rows = vec![row("a", 1.0, 100), row("a", 2.0, 200), row("b", 3.0, 100)];
    let stats = user_stats(&params(0, 0, StatType::Aggregated), rows);
    assert_eq!(stats.num_items, 3);
    assert_eq!(stats.result[2].query_window_timestamp, 100);
}

#[test]
fn of_two_sums_of_a_field_the_later_counts() {
    let rows = vec![row("a", 1.0, 100), row("a", 2.0, 100)];
    let stats = user_stats(&params(0, 0, StatType::Aggregated), rows);
    assert_eq!(stats.num_items, 1);
    assert_eq!(stats.result[0].total(&"total_a".to_string()), Some(2.0f64.to_bits()));
}

#[test]
fn times_that_differ_in_nanoseconds_are_different() {
    let mut late = row("a", 2.0, 100);
    late.time = (100, 1);
    let stats = user_stats(&params(0, 0, StatType::Aggregated), vec![row("a", 1.0, 100), late]);
    assert_eq!(stats.num_items, 2);
}

#[test]
fn no_sums_make_no_datapoints() {
    let stats = user_stats(&params(0, 0, StatType::Aggregated), vec![]);
    assert_eq!(stats.num_items, 0);
    assert_eq!(stats.result.len(), 0);
}
