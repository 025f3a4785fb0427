use web3_proxy::connections::{SpawnOutcome, Web3Connection, Web3Connections};
use web3_proxy::error::ProxyError;
use web3_proxy::upstream::{GroupStatus, HandleReply, OpenRequestResult};

fn group(servers: Vec<(u32, u32)>) -> Web3Connections {
    let mut outcomes = vec![];
    for (i, (weight, soft_limit)) in servers.into_iter().enumerate() {
        let url = format!("http://{}", i);
        outcomes.push(SpawnOutcome::Connected(Web3Connection { url, weight, soft_limit }));
    }
    Web3Connections::spawn(outcomes).unwrap()
}

fn utilization(servers: Vec<(u32, u32)>) -> Vec<Option<u32>> {
    let mut bits = vec![];
    for (active, soft_limit) in servers {
        let share = active as f32 / soft_limit as f32;
        bits.push(if share.is_nan() { None } else { Some(share.to_bits()) });
    }
    bits
}

fn order(group: &Web3Connections, skip: Vec<usize>, status: &GroupStatus) -> Vec<usize> {
    let mut search = group.next_upstream_server(&skip, status).unwrap();
    let mut servers = vec![];
    while let Some(server) = search.next_server() {
        servers.push(server);
        search.record(HandleReply::Unavailable);
    }
    servers
}

#[test]
fn only_servers_in_sync_are_asked() {
    let g = group(vec![(1, 10), (1, 10), (1, 10)]);
    let status = GroupStatus {
        has_block_data: None,
        synced: vec![2, 0],
        utilization: utilization(vec![(5, 10), (0, 10), (1, 10)]),
    };
    assert!(status.check(3));
    assert_eq!(order(&g, vec![], &status), vec![2, 0]);
    assert_eq!(order(&g, vec![2], &status), vec![0]);
    assert!(matches!(g.next_upstream_server(&vec![0, 2], &status), Err(ProxyError::NotSynced)));
}

#[test]
fn with_a_needed_block_all_servers_that_have_it_are_asked() {
    let g = group(vec![(1, 10), (1, 10), (1, 10)]);
    let status = GroupStatus {
        has_block_data: Some(vec![true, true, false]),
        synced: vec![2],
        utilization: utilization(vec![(5, 10), (0, 10), (1, 10)]),
    };
    assert_eq!(order(&g, vec![], &status), vec![1, 0]);
    let none = GroupStatus {
        has_block_data: Some(vec![false, false, false]),
        synced: vec![2],
        utilization: utilization(vec![(5, 10), (0, 10), (1, 10)]),
    };
    let r = g.next_upstream_server(&vec![], &none);
    assert!(matches!(r, Err(ProxyError::NotSynced)));
    assert_eq!(ProxyError::NotSynced.message(), "not synced");
}

#[test]
fn weight_then_utilization_then_soft_limit_decide() {
    let g = group(vec![(2, 10), (1, 10), (1, 100), (1, 10), (1, 50)]);
    let status = GroupStatus {
        has_block_data: None,
        synced: vec![0, 1, 2, 3, 4],
        // the first server is the least used one, but heavy
        utilization: utilization(vec![(0, 10), (5, 10), (50, 100), (2, 10), (25, 50)]),
    };
    assert_eq!(order(&g, vec![], &status), vec![3, 2, 4, 1, 0]);
}

#[test]
fn overloaded_servers_come_after_busy_ones() {
    let g = group(vec![(1, 0), (1, 10)]);
    let status = GroupStatus {
        has_block_data: None,
        synced: vec![0, 1],
        utilization: utilization(vec![(1, 0), (1000, 10)]),
    };
    assert_eq!(order(&g, vec![], &status), vec![1, 0]);
}

#[test]
fn a_utilization_that_is_no_number_still_leaves_all_servers() {
    let g = group(vec![(1, 0), (1, 10)]);
    let status = GroupStatus {
        has_block_data: None,
        synced: vec![0, 1],
        utilization: utilization(vec![(0, 0), (1, 10)]),
    };
    let mut servers = order(&g, vec![], &status);
    servers.sort();
    assert_eq!(servers, vec![0, 1]);
}

#[test]
fn the_first_server_that_takes_the_request_gets_it() {
    let g = group(vec![(1, 10), (2, 10), (3, 10)]);
    let status = GroupStatus {
        has_block_data: None,
        synced: vec![0, 1, 2],
        utilization: utilization(vec![(0, 10), (0, 10), (0, 10)]),
    };
    let mut search = g.next_upstream_server(&vec![], &status).unwrap();
    assert_eq!(search.next_server(), Some(0));
    search.record(HandleReply::RetryAt(50));
    assert!(!search.decided());
    assert_eq!(search.next_server(), Some(1));
    search.record(HandleReply::ActiveRequest);
    assert_eq!(search.next_server(), None);
    assert!(search.decided());
    assert_eq!(search.outcome(), OpenRequestResult::ActiveRequest(1));
}

#[test]
fn the_earliest_time_is_given_if_no_server_takes_the_request() {
    let g = group(vec![(1, 10), (2, 10), (3, 10), (4, 10)]);
    let status = GroupStatus {
        has_block_data: None,
        synced: vec![0, 1, 2, 3],
        utilization: utilization(vec![(0, 10), (0, 10), (0, 10), (0, 10)]),
    };
    let mut search = g.next_upstream_server(&vec![], &status).unwrap();
    search.record(HandleReply::RetryAt(50));
    search.record(HandleReply::Failed);
    search.record(HandleReply::RetryAt(20));
    search.record(HandleReply::RetryAt(30));
    assert_eq!(search.next_server(), None);
    assert!(search.decided());
    assert_eq!(search.outcome(), OpenRequestResult::RetryAt(20));
}

#[test]
fn a_search_without_any_time_is_not_decided() {
    let g = group(vec![(1, 10), (2, 10)]);
    let status = GroupStatus {
        has_block_data: None,
        synced: vec![0, 1],
        utilization: utilization(vec![(0, 10), (0, 10)]),
    };
    let mut search = g.next_upstream_server(&vec![], &status).unwrap();
    search.record(HandleReply::Unavailable);
    search.record(HandleReply::Failed);
    assert_eq!(search.next_server(), None);
    assert!(!search.decided());
}

#[test]
fn all_servers_that_take_the_request_are_selected() {
    let g = group(vec![(1, 10), (1, 10), (1, 10), (1, 10)]);
    let replies = vec![
        HandleReply::ActiveRequest,
        HandleReply::Unavailable,
        HandleReply::RetryAt(9),
        HandleReply::ActiveRequest,
    ];
    assert_eq!(g.upstream_servers(&None, &replies), Ok(vec![0, 3]));
}

#[test]
fn without_a_selected_server_the_earliest_time_is_given() {
    let g = group(vec![(1, 10), (1, 10), (1, 10)]);
    let replies = vec![HandleReply::RetryAt(9), HandleReply::Failed, HandleReply::RetryAt(4)];
    assert_eq!(g.upstream_servers(&None, &replies), Err(Some(4)));
    let has = Some(vec![false, true, true]);
    let replies = vec![HandleReply::Unavailable, HandleReply::Failed];
    assert_eq!(g.upstream_servers(&has, &replies), Err(None));
    assert_eq!(g.upstream_servers(&Some(vec![false, false, false]), &vec![]), Err(None));
}

#[test]
fn servers_without_the_needed_block_are_not_asked() {
    let g = group(vec![(1, 10), (1, 10), (1, 10), (1, 10)]);
    assert_eq!(g.servers_to_ask(&None), vec![0, 1, 2, 3]);
    let has = Some(vec![false, true, false, true]);
    assert_eq!(g.servers_to_ask(&has), vec![1, 3]);
    let replies = vec![HandleReply::RetryAt(2), HandleReply::ActiveRequest];
    assert_eq!(g.upstream_servers(&has, &replies), Ok(vec![3]));
    assert_eq!(g.servers_to_ask(&Some(vec![false; 4])), Vec::<usize>::new());
}

#[test]
fn servers_are_tried_from_best_to_worst() {
    let g = group(vec![(3, 10), (1, 10), (2, 10)]);
    let status = GroupStatus {
        has_block_data: None,
        synced: vec![0, 1, 2],
        utilization: utilization(vec![(0, 10), (9, 10), (0, 10)]),
    };
    let mut skip = vec![];
    while skip.len() < 3 {
        let first = order(&g, skip.clone(), &status)[0];
        skip.push(first);
    }
    assert_eq!(skip, vec![1, 2, 0]);
}

#[test]
fn a_status_of_other_servers_does_not_fit() {
    let fits = |has_block_data, synced, utilization: Vec<Option<u32>>| {
        GroupStatus { has_block_data, synced, utilization }.check(2)
    };
    assert!(fits(None, vec![1], vec![None, None]));
    assert!(!fits(None, vec![2], vec![None, None]));
    assert!(!fits(None, vec![], vec![None]));
    assert!(!fits(Some(vec![true]), vec![], vec![None, None]));
}

#[test]
fn weights_decide_even_where_a_utilization_is_no_number() {
    let g = group(vec![(3, 10), (2, 0), (1, 10), (3, 10)]);
    let status = GroupStatus {
        has_block_data: None,
        synced: vec![0, 1, 2, 3],
        utilization: utilization(vec![(5, 10), (0, 0), (9, 10), (1, 10)]),
    };
    assert_eq!(order(&g, vec![], &status), vec![2, 1, 3, 0]);
}

#[test]
fn a_better_server_that_refused_is_asked_again() {
    let g = group(vec![(1, 10), (2, 10), (3, 10)]);
    let status = GroupStatus {
        has_block_data: None,
        synced: vec![0, 1, 2],
        utilization: utilization(vec![(0, 10), (0, 10), (0, 10)]),
    };
    let mut search = g.next_upstream_server(&vec![], &status).unwrap();
    search.record(HandleReply::Unavailable);
    search.record(HandleReply::ActiveRequest);
    assert_eq!(search.outcome(), OpenRequestResult::ActiveRequest(1));
    assert_eq!(order(&g, vec![1], &status), vec![0, 2]);
}
