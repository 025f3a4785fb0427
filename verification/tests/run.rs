use std::sync::Arc;
use web3_proxy::connections::Web3Connections;
use web3_proxy::error::ProxyError;
use web3_proxy::jsonrpc::{JsonRpcErrorData, JsonRpcForwardedResponse, JsonRpcRequest};
use web3_proxy::proxy::Web3ProxyApp;
use web3_proxy::run::{ProxyEvent, ProxyRun, ProxyStep, Reaction};

const HEAD: [u8; 32] = [7; 32];

fn app() -> Web3ProxyApp {
    Web3ProxyApp::try_new(Arc::new(Web3Connections::spawn(vec![]).unwrap()), None)
}

fn request(id: &str, method: &str, params: Option<&str>) -> JsonRpcRequest {
    JsonRpcRequest {
        id: id.to_string(),
        method: method.to_string(),
        params: params.map(|p| p.to_string()),
    }
}

fn start(app: &mut Web3ProxyApp, id: &str, ticket: u64) -> (ProxyRun, ProxyStep) {
    app.proxy_web3_rpc_request(request(id, "eth_call", Some("[1]")), HEAD, ticket).unwrap()
}

fn answer(app: &mut Web3ProxyApp, run: &mut ProxyRun, result: &str) -> Reaction {
    app.continue_request(run, ProxyEvent::Answered(Ok(result.to_string())))
}

fn delayed(app: &mut Web3ProxyApp, run: &mut ProxyRun, head: u8, ticket: u64) -> Reaction {
    app.continue_request(run, ProxyEvent::Delayed { head_block_hash: [head; 32], ticket })
}

fn finish(wake: bool, reply: JsonRpcForwardedResponse) -> Reaction {
    Reaction { wake, step: ProxyStep::Finish(Ok(reply)) }
}

fn success(id: &str, result: &str) -> JsonRpcForwardedResponse {
    JsonRpcForwardedResponse {
        jsonrpc: "2.0".to_string(),
        id: id.to_string(),
        result: Some(result.to_string()),
        error: None,
    }
}

#[test]
fn signed_transactions_go_to_private_servers() {
    let mut app = app();
    let signed = request("1", "eth_sendRawTransaction", Some("[\"0x00\"]"));
    let (run, step) = app.proxy_web3_rpc_request(signed, HEAD, 1).unwrap();
    assert_eq!(step, ProxyStep::SendPrivate);
    assert!(run.is_private);
    assert_eq!(app.get_active_requests().len(), 0);
    let other = request("1", "eth_sendRawTransaction2", None);
    let (run, step) = app.proxy_web3_rpc_request(other, HEAD, 2).unwrap();
    assert_eq!(step, ProxyStep::FindServer);
    assert!(!run.is_private);
}

#[test]
fn a_result_is_stored_and_answered() {
    let mut app = app();
    let (mut run, step) = start(&mut app, "42", 1);
    assert_eq!(step, ProxyStep::FindServer);
    assert_eq!(run.rounds, 1);
    assert_eq!(app.get_active_requests().len(), 1);
    assert_eq!(
        app.continue_request(&mut run, ProxyEvent::FoundServer),
        Reaction { wake: false, step: ProxyStep::Send }
    );
    assert_eq!(answer(&mut app, &mut run, "\"0x1\""), finish(true, success("42", "\"0x1\"")));
    assert_eq!(app.get_active_requests().len(), 0);

    // the same request again, printed in another way, is answered from the cache
    let again = request("43", "eth_call", Some("[ 1 ]"));
    let (_, step) = app.proxy_web3_rpc_request(again, HEAD, 2).unwrap();
    assert_eq!(step, ProxyStep::Finish(Ok(success("42", "\"0x1\""))));
    assert_eq!(app.get_active_requests().len(), 0);
    // under another head block it is not
    let later = request("43", "eth_call", Some("[1]"));
    let (_, step) = app.proxy_web3_rpc_request(later, [8; 32], 3).unwrap();
    assert_eq!(step, ProxyStep::FindServer);
}

#[test]
fn the_same_request_waits_and_gets_the_same_reply() {
    let mut app = app();
    let (mut first, _) = start(&mut app, "1", 11);
    let (mut second, step) = start(&mut app, "2", 12);
    assert_eq!(step, ProxyStep::Wait(11));
    assert_eq!(app.get_active_requests().len(), 1);
    answer(&mut app, &mut first, "true");
    assert_eq!(
        app.continue_request(&mut second, ProxyEvent::Waited),
        finish(true, success("1", "true"))
    );
}

#[test]
fn a_request_that_waited_in_vain_goes_to_a_server() {
    let mut app = app();
    let (mut first, _) = start(&mut app, "1", 11);
    let (mut second, _) = start(&mut app, "2", 12);
    let mut error = success("1", "null");
    error.result = None;
    error.error = Some(JsonRpcErrorData { code: -32603, message: "bad".to_string(), data: None });
    assert_eq!(
        app.continue_request(&mut first, ProxyEvent::Answered(Err(error.clone()))),
        finish(true, error)
    );
    assert_eq!(app.get_active_requests().len(), 0);
    assert_eq!(
        app.continue_request(&mut second, ProxyEvent::Waited),
        Reaction { wake: false, step: ProxyStep::FindServer }
    );
    assert_eq!(answer(&mut app, &mut second, "3"), finish(true, success("2", "3")));
}

#[test]
fn other_requests_stay_in_flight() {
    let mut app = app();
    let (mut first, _) = start(&mut app, "1", 11);
    let other = request("2", "eth_call", None);
    let (_, step) = app.proxy_web3_rpc_request(other.clone(), HEAD, 12).unwrap();
    assert_eq!(step, ProxyStep::FindServer);
    assert_eq!(app.get_active_requests().len(), 2);
    answer(&mut app, &mut first, "1");
    assert_eq!(app.get_active_requests().len(), 1);
    let (_, step) = app.proxy_web3_rpc_request(other, HEAD, 13).unwrap();
    assert_eq!(step, ProxyStep::Wait(12));
}

#[test]
fn without_a_server_in_sync_the_request_fails() {
    let mut app = app();
    let (mut run, _) = start(&mut app, "1", 1);
    assert_eq!(
        app.continue_request(&mut run, ProxyEvent::NoServer(None)),
        Reaction { wake: true, step: ProxyStep::Finish(Err(ProxyError::NoServersInSync)) }
    );
    assert_eq!(app.get_active_requests().len(), 0);
    assert_eq!(ProxyError::NoServersInSync.message(), "no servers in sync");
}

#[test]
fn a_delayed_request_is_tried_ten_times() {
    let mut app = app();
    let (mut run, _) = start(&mut app, "1", 1);
    for ticket in 2..11 {
        assert_eq!(
            app.continue_request(&mut run, ProxyEvent::NoServer(Some(5))),
            Reaction { wake: false, step: ProxyStep::Delay(5) }
        );
        assert_eq!(app.get_active_requests().len(), 1);
        assert_eq!(
            delayed(&mut app, &mut run, ticket as u8, ticket),
            Reaction { wake: true, step: ProxyStep::FindServer }
        );
        assert_eq!(run.ticket, ticket);
        assert_eq!(run.key.0, Some([ticket as u8; 32]));
        assert_eq!(app.get_active_requests().len(), 1);
    }
    assert_eq!(run.rounds, 10);
    assert_eq!(
        delayed(&mut app, &mut run, 11, 11),
        Reaction { wake: true, step: ProxyStep::Finish(Err(ProxyError::Internal)) }
    );
    assert_eq!(app.get_active_requests().len(), 0);
    assert_eq!(ProxyError::Internal.message(), "internal error");
}

#[test]
fn a_reply_that_is_cached_during_a_delay_is_the_answer() {
    let mut app = app();
    let (mut first, _) = start(&mut app, "1", 1);
    app.continue_request(&mut first, ProxyEvent::NoServer(Some(5)));
    let later = request("2", "eth_call", Some("[1]"));
    let (mut second, _) = app.proxy_web3_rpc_request(later, [8; 32], 2).unwrap();
    answer(&mut app, &mut second, "9");
    assert_eq!(delayed(&mut app, &mut first, 8, 3), finish(true, success("2", "9")));
}

#[test]
fn parameters_that_are_not_json_are_refused() {
    let mut app = app();
    let bad = request("1", "eth_call", Some("[1,"));
    assert!(app.proxy_web3_rpc_request(bad, HEAD, 1).is_none());
    assert_eq!(app.get_active_requests().len(), 0);
}
