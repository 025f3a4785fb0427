use web3_proxy::connections::{SpawnOutcome, Web3Connection, Web3Connections};
use web3_proxy::error::ProxyError;
use web3_proxy::jsonrpc::{JsonRpcErrorData, JsonRpcForwardedResponse, ProviderError};
use web3_proxy::requests::{is_retryable, AllEvent, AllStep, BestEvent, BestStep};
use web3_proxy::upstream::OpenRequestResult;

fn group(n: usize) -> Web3Connections {
    let mut outcomes = vec![];
    for i in 0..n {
        let url = format!("http://{}", i);
        outcomes.push(SpawnOutcome::Connected(Web3Connection { url, weight: 1, soft_limit: 10 }));
    }
    Web3Connections::spawn(outcomes).unwrap()
}

fn failure(code: i64, message: &str) -> JsonRpcForwardedResponse {
    JsonRpcForwardedResponse {
        jsonrpc: "2.0".to_string(),
        id: "1".to_string(),
        result: None,
        error: Some(JsonRpcErrorData { code, message: message.to_string(), data: None }),
    }
}

fn success(id: &str, result: &str) -> JsonRpcForwardedResponse {
    JsonRpcForwardedResponse::success(id.to_string(), result.to_string())
}

fn found(server: usize) -> BestEvent {
    BestEvent::Searched(Ok(OpenRequestResult::ActiveRequest(server)))
}

#[test]
fn some_errors_are_retried_on_other_servers() {
    assert!(is_retryable(&failure(-32000, "header not found")));
    assert!(is_retryable(&failure(-32000, "header for hash not found")));
    assert!(is_retryable(&failure(-32000, "missing trie node 0xabc (path )")));
    assert!(is_retryable(&failure(-32000, "node not started")));
    assert!(is_retryable(&failure(-32000, "RPC timeout after 5s")));
    assert!(!is_retryable(&failure(-32000, "execution reverted")));
    assert!(!is_retryable(&failure(-32000, "a header not found")));
    assert!(!is_retryable(&failure(-32000, "header")));
    assert!(!is_retryable(&failure(-32601, "header not found")));
    assert!(!is_retryable(&success("1", "null")));
}

#[test]
fn a_reply_of_the_best_server_is_the_answer() {
    let g = group(2);
    let mut best = g.try_send_best_upstream_server();
    assert_eq!(best.step(BestEvent::Started), BestStep::Search);
    assert_eq!(best.step(found(1)), BestStep::Send(1));
    assert_eq!(best.skipped(), &vec![1]);
    let reply = success("7", "\"0x10\"");
    assert_eq!(
        best.step(BestEvent::Answered(Some(reply.clone()))),
        BestStep::Reply(reply)
    );
    let error = failure(-32000, "execution reverted");
    assert_eq!(
        best.step(BestEvent::Answered(Some(error.clone()))),
        BestStep::Reply(error)
    );
}

#[test]
fn every_server_is_tried_once() {
    let g = group(2);
    let mut best = g.try_send_best_upstream_server();
    assert_eq!(best.step(BestEvent::Started), BestStep::Search);
    assert_eq!(best.step(found(0)), BestStep::Send(0));
    let error = failure(-32000, "missing trie node");
    assert_eq!(best.step(BestEvent::Answered(Some(error.clone()))), BestStep::Search);
    assert_eq!(best.step(found(1)), BestStep::Send(1));
    assert_eq!(best.skipped(), &vec![0, 1]);
    assert_eq!(
        best.step(BestEvent::Answered(Some(error))),
        BestStep::Fail(ProxyError::RetriesExhausted)
    );
    assert_eq!(ProxyError::RetriesExhausted.message(), "all retries exhausted");
}

#[test]
fn a_server_that_fails_is_followed_by_a_pause() {
    let g = group(2);
    let mut best = g.try_send_best_upstream_server();
    assert_eq!(best.step(found(0)), BestStep::Send(0));
    assert_eq!(best.step(BestEvent::Answered(None)), BestStep::SleepMillis(100));
    assert_eq!(best.step(BestEvent::Slept), BestStep::Search);
    assert_eq!(
        best.step(BestEvent::Searched(Ok(OpenRequestResult::RetryAt(77)))),
        BestStep::SleepUntil(77)
    );
    assert_eq!(
        best.step(BestEvent::Searched(Ok(OpenRequestResult::Unavailable))),
        BestStep::SleepMillis(200)
    );
    assert_eq!(
        best.step(BestEvent::Searched(Err(ProxyError::NotSynced))),
        BestStep::Fail(ProxyError::NotSynced)
    );
    assert_eq!(best.skipped(), &vec![0]);
}

#[test]
fn without_servers_nothing_is_tried() {
    let g = group(0);
    let mut best = g.try_send_best_upstream_server();
    assert_eq!(best.step(BestEvent::Started), BestStep::Fail(ProxyError::RetriesExhausted));
}

#[test]
fn all_servers_are_asked_again_after_a_pause() {
    let g = group(2);
    let id = "5".to_string();
    assert_eq!(g.try_send_all_upstream_servers(&id, AllEvent::Started), AllStep::Ask);
    assert_eq!(
        g.try_send_all_upstream_servers(&id, AllEvent::Asked(Err(None))),
        AllStep::SleepMillis(200)
    );
    assert_eq!(
        g.try_send_all_upstream_servers(&id, AllEvent::Asked(Err(Some(8)))),
        AllStep::SleepUntil(8)
    );
    assert_eq!(g.try_send_all_upstream_servers(&id, AllEvent::Slept), AllStep::Ask);
    assert_eq!(
        g.try_send_all_upstream_servers(&id, AllEvent::Asked(Ok(vec![1]))),
        AllStep::Send(vec![1])
    );
}

#[test]
fn the_quorum_of_all_servers_is_the_answer() {
    let g = group(3);
    let id = "5".to_string();
    let e = ProviderError { debug: "E".to_string() };
    let answers = vec![Ok("\"a\"".to_string()), Err(e.clone()), Ok("\"a\"".to_string())];
    assert_eq!(
        g.try_send_all_upstream_servers(&id, AllEvent::Answered(answers)),
        AllStep::Reply(success("5", "\"a\""))
    );
    assert_eq!(
        g.try_send_all_upstream_servers(&id, AllEvent::Answered(vec![Err(e.clone())])),
        AllStep::Fail(e)
    );
}
