use std::sync::Arc;
use web3_proxy::cache::{new_key, ResponseCache, RESPONSE_CACHE_CAP};
use web3_proxy::connections::{SpawnOutcome, Web3Connection, Web3Connections};
use web3_proxy::jsonrpc::{
    JsonRpcForwardedResponse, JsonRpcForwardedResponseEnum, JsonRpcRequest, JsonRpcRequestEnum,
};
use web3_proxy::proxy::{StartupPlan, Web3ProxyApp};
use web3_proxy::run::ProxyEvent;

fn group(url: &str) -> Arc<Web3Connections> {
    let server = Web3Connection { url: url.to_string(), weight: 1, soft_limit: 10 };
    Arc::new(Web3Connections::spawn(vec![SpawnOutcome::Connected(server)]).unwrap())
}

fn request(method: &str, params: Option<&str>) -> JsonRpcRequest {
    JsonRpcRequest {
        id: "1".to_string(),
        method: method.to_string(),
        params: params.map(|p| p.to_string()),
    }
}

fn reply(id: &str) -> JsonRpcForwardedResponse {
    JsonRpcForwardedResponse::success(id.to_string(), "true".to_string())
}

fn url_of(rpcs: &Web3Connections) -> String {
    rpcs.get(0).unwrap().url
}

#[test]
fn private_requests_share_servers_if_they_have_none() {
    let app = Web3ProxyApp::try_new(group("http://a"), None);
    assert_eq!(url_of(app.get_balanced_rpcs()), "http://a");
    assert_eq!(url_of(app.get_private_rpcs()), "http://a");
    let app = Web3ProxyApp::try_new(group("http://a"), Some(group("http://p")));
    assert_eq!(url_of(app.get_balanced_rpcs()), "http://a");
    assert_eq!(url_of(app.get_private_rpcs()), "http://p");
}

#[test]
fn startup_plan() {
    let plan = StartupPlan::new("web3-proxy", "0.1.0", Some("redis://r".to_string()), 0);
    assert_eq!(plan.user_agent, "satoshiandkin/web3-proxy/0.1.0");
    assert_eq!(plan.connect_seconds, 5);
    assert_eq!(plan.request_seconds, 60);
    assert_eq!(plan.redis_address, Some("redis://r".to_string()));
    assert!(!plan.has_private_rpcs);
    assert!(StartupPlan::new("a", "b", None, 2).has_private_rpcs);
}

#[test]
fn a_single_request_has_a_single_reply() {
    let app = Web3ProxyApp::try_new(group("http://a"), None);
    let plan = app.proxy_web3_rpc(JsonRpcRequestEnum::Single(request("eth_chainId", None)));
    assert_eq!(plan.max_seconds, 60);
    assert!(!plan.is_batch);
    assert_eq!(plan.requests, vec![request("eth_chainId", None)]);
    let ok: Vec<Result<JsonRpcForwardedResponse, &str>> = vec![Ok(reply("1"))];
    assert_eq!(plan.finish(ok), Ok(JsonRpcForwardedResponseEnum::Single(reply("1"))));
    let failed: Vec<Result<JsonRpcForwardedResponse, &str>> = vec![Err("late")];
    assert_eq!(plan.finish(failed), Err("late"));
}

#[test]
fn a_batch_fails_with_its_first_error() {
    let app = Web3ProxyApp::try_new(group("http://a"), None);
    let requests = vec![request("a", None), request("b", None), request("c", None)];
    let plan = app.proxy_web3_rpc(JsonRpcRequestEnum::Batch(requests.clone()));
    assert!(plan.is_batch);
    assert_eq!(plan.requests, requests);
    let ok: Vec<Result<JsonRpcForwardedResponse, &str>> =
        vec![Ok(reply("1")), Ok(reply("2")), Ok(reply("3"))];
    assert_eq!(
        plan.finish(ok),
        Ok(JsonRpcForwardedResponseEnum::Batch(vec![reply("1"), reply("2"), reply("3")]))
    );
    let failed: Vec<Result<JsonRpcForwardedResponse, &str>> =
        vec![Ok(reply("1")), Err("x"), Err("y")];
    assert_eq!(plan.finish(failed), Err("x"));
    let none: Vec<Result<JsonRpcForwardedResponse, &str>> = vec![];
    assert_eq!(Web3ProxyApp::proxy_web3_rpc_requests(none), Ok(vec![]));
}

#[test]
fn a_stored_reply_is_read_back() {
    let mut app = Web3ProxyApp::try_new(group("http://a"), None);
    let call = request("eth_call", Some("[ {\"to\" : \"0x1\"}, \"latest\" ]"));
    let (key, hit) = app.get_cached_response([7; 32], &call).unwrap();
    assert_eq!(hit, None);
    assert_eq!(key.0, Some([7; 32]));
    assert_eq!(key.1, "eth_call");
    // the parameters are printed anew, without spaces
    assert_eq!(key.2, Some("[{\"to\":\"0x1\"},\"latest\"]".to_string()));
    let (mut run, _) = app.proxy_web3_rpc_request(call, [7; 32], 1).unwrap();
    app.continue_request(&mut run, ProxyEvent::Answered(Ok("true".to_string())));

    let same = request("eth_call", Some("[{\"to\":\"0x1\"},\"latest\"]"));
    let (_, hit) = app.get_cached_response([7; 32], &same).unwrap();
    assert_eq!(hit, Some(reply("1")));
    // another head block, other parameters, none, another method
    let (_, hit) = app.get_cached_response([8; 32], &same).unwrap();
    assert_eq!(hit, None);
    let (_, hit) = app.get_cached_response([7; 32], &request("eth_call", Some("[]"))).unwrap();
    assert_eq!(hit, None);
    let (_, hit) = app.get_cached_response([7; 32], &request("eth_call", None)).unwrap();
    assert_eq!(hit, None);
    let other = request("eth_estimateGas", Some("[{\"to\":\"0x1\"},\"latest\"]"));
    let (_, hit) = app.get_cached_response([7; 32], &other).unwrap();
    assert_eq!(hit, None);
}

#[test]
fn parameters_that_are_not_json_have_no_key() {
    let app = Web3ProxyApp::try_new(group("http://a"), None);
    assert_eq!(app.get_cached_response([0; 32], &request("eth_call", Some("[1,"))), None);
    assert!(app.get_cached_response([0; 32], &request("eth_call", None)).is_some());
}

#[test]
fn the_oldest_reply_is_dropped_from_a_full_cache() {
    let mut cache = ResponseCache::new();
    let key = |i: usize| new_key([0; 32], &format!("m{}", i), None);
    for i in 0..RESPONSE_CACHE_CAP - 1 {
        cache.store(key(i), reply(&format!("{}", i)));
    }
    assert_eq!(cache.len(), 1023);
    // storing under a key that is there drops nothing, and makes it the newest
    cache.store(key(0), reply("again"));
    assert_eq!(cache.len(), 1023);
    assert_eq!(cache.get(&key(0)), Some(reply("again")));
    cache.store(key(5000), reply("new"));
    assert_eq!(cache.len(), 1023);
    assert_eq!(cache.get(&key(1)), None);
    assert_eq!(cache.get(&key(0)), Some(reply("again")));
    assert_eq!(cache.get(&key(2)), Some(reply("2")));
    assert_eq!(cache.get(&key(5000)), Some(reply("new")));
}
