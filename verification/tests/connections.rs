use web3_proxy::connections::{SpawnOutcome, Web3Connection, Web3Connections};
use web3_proxy::funnel::{
    transaction_request, FunnelEvent, FunnelStep, SpawnPlan, SubscriptionTask, Transaction,
    TxState,
};
use web3_proxy::json::check_plain;
use web3_proxy::jsonrpc::ProviderError;
use web3_proxy::upstream::HandleReply;

fn server(url: &str, weight: u32, soft_limit: u32) -> SpawnOutcome {
    SpawnOutcome::Connected(Web3Connection { url: url.to_string(), weight, soft_limit })
}

fn url_at(group: &Web3Connections, place: usize) -> String {
    group.get(place).unwrap().url
}

#[test]
fn spawn_keeps_the_order_of_servers() {
    let group = Web3Connections::spawn(vec![
        server("http://b", 1, 10),
        SpawnOutcome::Refused,
        server("http://a", 2, 20),
    ])
    .unwrap();
    assert_eq!(group.len(), 2);
    assert_eq!(url_at(&group, 0), "http://b");
    assert_eq!(
        group.get(1),
        Some(Web3Connection { url: "http://a".to_string(), weight: 2, soft_limit: 20 })
    );
    assert_eq!(group.get(2), None);
}

#[test]
fn spawn_lets_the_last_connection_to_a_url_stay() {
    let group = Web3Connections::spawn(vec![
        server("http://a", 1, 10),
        server("http://b", 1, 10),
        server("http://a", 7, 70),
    ])
    .unwrap();
    assert_eq!(group.len(), 2);
    assert_eq!(
        group.get(0),
        Some(Web3Connection { url: "http://a".to_string(), weight: 7, soft_limit: 70 })
    );
    assert_eq!(url_at(&group, 1), "http://b");
}

#[test]
fn spawn_fails_with_the_first_lost_task() {
    let r = Web3Connections::spawn(vec![
        server("http://a", 1, 10),
        SpawnOutcome::Lost,
        SpawnOutcome::Refused,
        SpawnOutcome::Lost,
    ]);
    assert!(matches!(r, Err(1)));
}

#[test]
fn spawn_without_servers_is_an_empty_group() {
    assert_eq!(Web3Connections::spawn(vec![]).unwrap().len(), 0);
    assert_eq!(Web3Connections::spawn(vec![SpawnOutcome::Refused]).unwrap().len(), 0);
}

#[test]
fn spawn_plan_polls_with_a_client() {
    let plan = SpawnPlan::new(true, false);
    assert_eq!(plan.http_interval_seconds, Some(13));
    assert!(!plan.forwards_blocks);
    let plan = SpawnPlan::new(false, true);
    assert_eq!(plan.http_interval_seconds, None);
    assert!(plan.forwards_blocks);
}

#[test]
fn subscribe_has_a_task_for_each_listener() {
    let group = Web3Connections::spawn(vec![]).unwrap();
    assert_eq!(
        group.subscribe(true, true),
        vec![SubscriptionTask::Transactions, SubscriptionTask::Blocks]
    );
    assert_eq!(group.subscribe(true, false), vec![SubscriptionTask::Transactions]);
    assert_eq!(group.subscribe(false, true), vec![SubscriptionTask::Blocks]);
    assert_eq!(group.subscribe(false, false), vec![SubscriptionTask::Idle]);
}

#[test]
fn funnel_skips_what_nobody_needs() {
    let group = Web3Connections::spawn(vec![]).unwrap();
    let announced = |receivers, already_processed| {
        group.funnel_transaction(FunnelEvent::Announced { receivers, already_processed })
    };
    assert_eq!(announced(0, false), FunnelStep::Stop);
    assert_eq!(announced(3, true), FunnelStep::Stop);
    assert_eq!(announced(3, false), FunnelStep::Ask);
}

#[test]
fn funnel_fetches_only_from_a_server_that_takes_the_request() {
    let group = Web3Connections::spawn(vec![]).unwrap();
    let asked = |reply| group.funnel_transaction(FunnelEvent::Asked(reply));
    assert_eq!(asked(HandleReply::ActiveRequest), FunnelStep::Fetch);
    assert_eq!(asked(HandleReply::RetryAt(5)), FunnelStep::Stop);
    assert_eq!(asked(HandleReply::Unavailable), FunnelStep::Stop);
    assert_eq!(asked(HandleReply::Failed), FunnelStep::Stop);
}

#[test]
fn funnel_tells_pending_from_confirmed() {
    let group = Web3Connections::spawn(vec![]).unwrap();
    let pending = Transaction { block_hash: None, json: "{}".to_string() };
    let confirmed = Transaction { block_hash: Some("0x01".to_string()), json: "{}".to_string() };
    assert_eq!(
        group.funnel_transaction(FunnelEvent::Fetched(Ok(pending.clone()))),
        FunnelStep::Send(TxState::Pending(pending))
    );
    assert_eq!(
        group.funnel_transaction(FunnelEvent::Fetched(Ok(confirmed.clone()))),
        FunnelStep::Send(TxState::Confirmed(confirmed))
    );
    let error = ProviderError { debug: "gone".to_string() };
    assert_eq!(group.funnel_transaction(FunnelEvent::Fetched(Err(error))), FunnelStep::Stop);
}

#[test]
fn a_transaction_is_asked_for_by_its_hash() {
    let (method, params) = transaction_request(&"0xab12".to_string());
    assert_eq!(method, "eth_getTransactionByHash");
    assert_eq!(params, "[\"0xab12\"]");
}

#[test]
fn plain_text_needs_no_escapes() {
    assert!(check_plain(""));
    assert!(check_plain("0xab12 \u{e9}\u{7f}"));
    assert!(!check_plain("a\"b"));
    assert!(!check_plain("a\\b"));
    assert!(!check_plain("a\nb"));
}
