use web3_proxy::connections::Web3Connections;
use web3_proxy::jsonrpc::ProviderError;

fn ok(json: &str) -> Result<String, ProviderError> {
    Ok(json.to_string())
}

fn err(debug: &str) -> Result<String, ProviderError> {
    Err(ProviderError { debug: debug.to_string() })
}

fn quorum(answers: Vec<Result<String, ProviderError>>) -> Result<String, ProviderError> {
    Web3Connections::spawn(vec![]).unwrap().try_send_parallel_requests(answers)
}

#[test]
fn quorum_of_one_answer_is_that_answer() {
    assert_eq!(quorum(vec![ok("1")]), ok("1"));
    assert_eq!(quorum(vec![err("e")]), err("e"));
}

#[test]
fn quorum_is_the_most_common_success() {
    assert_eq!(quorum(vec![ok("1"), ok("2"), ok("2")]), ok("2"));
    assert_eq!(quorum(vec![ok("2"), ok("1"), ok("2"), ok("1"), ok("1")]), ok("1"));
}

#[test]
fn quorum_passes_over_more_common_errors() {
    assert_eq!(quorum(vec![err("e"), err("e"), err("e"), ok("1")]), ok("1"));
    assert_eq!(quorum(vec![err("e"), err("f"), ok("2"), err("e"), ok("1"), ok("1")]), ok("1"));
}

#[test]
fn quorum_without_success_is_the_most_common_error() {
    assert_eq!(quorum(vec![err("e"), err("f"), err("f")]), err("f"));
}

#[test]
fn quorum_breaks_ties_by_the_smaller_text() {
    assert_eq!(quorum(vec![ok("2"), ok("1")]), ok("1"));
    assert_eq!(quorum(vec![ok("1"), ok("2")]), ok("1"));
    // a quote has a smaller code point than a digit
    assert_eq!(quorum(vec![ok("1"), ok("\"0x1\"")]), ok("\"0x1\""));
    assert_eq!(quorum(vec![err("b"), err("a")]), err("a"));
    // one text is the beginning of the other: the closing bracket comes before the digit
    assert_eq!(quorum(vec![ok("11"), ok("1")]), ok("1"));
    assert_eq!(quorum(vec![ok("\u{e9}"), ok("z")]), ok("z"));
}

#[test]
fn quorum_does_not_mix_up_successes_and_errors() {
    assert_eq!(quorum(vec![err("1"), err("1"), ok("1")]), ok("1"));
}

#[test]
fn quorum_does_not_depend_on_the_order_of_answers() {
    assert_eq!(quorum(vec![ok("1"), err("e"), ok("2"), ok("2"), err("e")]), ok("2"));
    assert_eq!(quorum(vec![err("e"), ok("2"), err("e"), ok("1"), ok("2")]), ok("2"));
}
