//! Subscriptions, and the way of pending transactions to those that listen for them.

use vstd::prelude::*;

use crate::connections::Web3Connections;
use crate::json::{is_plain, text_list_json};
use crate::jsonrpc::ProviderError;
use crate::upstream::HandleReply;

verus! {

/// How many seconds pass between two polls of servers that do not announce blocks themselves.
pub const HTTP_INTERVAL_SECONDS: u64 = 13;

/// A transaction that a server knows.
#[derive(Debug, Clone, PartialEq, Eq)]
pub struct Transaction {
    /// The hash of the block that holds the transaction, if it is confirmed.
    pub block_hash: Option<String>,
    /// The whole transaction, as JSON text.
    pub json: String,
}

/// A transaction and how far it has come.
#[derive(Debug, Clone, PartialEq, Eq)]
pub enum TxState {
    Pending(Transaction),
    Confirmed(Transaction),
}

/// The state of a transaction: it is confirmed if a block holds it.
pub open spec fn state_of(transaction: Transaction) -> TxState {
    if transaction.block_hash is Some {
        TxState::Confirmed(transaction)
    } else {
        TxState::Pending(transaction)
    }
}

/// What has happened to a transaction that a server announced.
#[derive(Debug, PartialEq, Eq)]
pub enum FunnelEvent {
    /// It has been announced. So many clients listen, and it may have been processed before.
    Announced { receivers: usize, already_processed: bool },
    /// The server has been asked to take a request.
    Asked(HandleReply),
    /// The server has been asked for the transaction.
    Fetched(Result<Transaction, ProviderError>),
}

/// What to do next for a transaction that a server announced.
#[derive(Debug, PartialEq, Eq)]
pub enum FunnelStep {
    /// Ask the server to take a request.
    Ask,
    /// Ask the server for the transaction.
    Fetch,
    /// Send it to the clients that listen.
    Send(TxState),
    /// Nothing more.
    Stop,
}

/// A task that serves subscriptions.
#[derive(Debug, Clone, Copy, PartialEq, Eq, Structural)]
pub enum SubscriptionTask {
    /// Forward pending transactions.
    Transactions,
    /// Forward blocks.
    Blocks,
    /// There is nothing to forward. Stay.
    Idle,
}

/// How the servers of a group are followed.
pub struct SpawnPlan {
    /// How often servers are polled, if they can be.
    pub http_interval_seconds: Option<u64>,
    /// New blocks are forwarded.
    pub forwards_blocks: bool,
}

impl SpawnPlan {
    /// Servers are polled if there is a client to do it with. New blocks are forwarded if someone
    /// wants the head block.
    pub fn new(has_http_client: bool, has_head_block_sender: bool) -> (r: Self)
        ensures
            r.http_interval_seconds == if has_http_client {
                Some(HTTP_INTERVAL_SECONDS)
            } else {
                None
            },
            r.forwards_blocks == has_head_block_sender,
    {
        SpawnPlan {
            http_interval_seconds: if has_http_client {
                Some(HTTP_INTERVAL_SECONDS)
            } else {
                None
            },
            forwards_blocks: has_head_block_sender,
        }
    }
}

/// What is to be done after `event` for a transaction that a server announced.
pub open spec fn funnel_step(event: FunnelEvent) -> FunnelStep {
    match event {
        FunnelEvent::Announced { receivers, already_processed } => if receivers == 0
            || already_processed {
            FunnelStep::Stop
        } else {
            FunnelStep::Ask
        },
        FunnelEvent::Asked(HandleReply::ActiveRequest) => FunnelStep::Fetch,
        FunnelEvent::Asked(_) => FunnelStep::Stop,
        FunnelEvent::Fetched(Ok(transaction)) => FunnelStep::Send(state_of(transaction)),
        FunnelEvent::Fetched(Err(_)) => FunnelStep::Stop,
    }
}

/// A transaction is asked for only if somebody listens and it has not been processed, and fetched
/// only from a server that takes the request.
pub proof fn law_transaction_is_fetched_only_if_needed(event: FunnelEvent)
    ensures
        funnel_step(event) is Ask <==> {
            &&& event is Announced
            &&& event->receivers > 0
            &&& !event->already_processed
        },
        funnel_step(event) is Fetch <==> event == FunnelEvent::Asked(HandleReply::ActiveRequest),
        funnel_step(event) is Send <==> event is Fetched && event->Fetched_0 is Ok,
{
}

/// A transaction that was fetched is sent on unchanged: as confirmed if it names the block that
/// holds it, and as pending if it does not.
pub proof fn law_transaction_is_sent_on_unchanged(transaction: Transaction)
    ensures
        transaction.block_hash is Some ==> funnel_step(FunnelEvent::Fetched(Ok(transaction)))
            == FunnelStep::Send(TxState::Confirmed(transaction)),
        transaction.block_hash is None ==> funnel_step(FunnelEvent::Fetched(Ok(transaction)))
            == FunnelStep::Send(TxState::Pending(transaction)),
{
}

/// There is a task for transactions if and only if somebody wants them, one for blocks if and only
/// if somebody wants them, and an idle one if and only if there is no other. None is there twice.
pub proof fn law_each_subscription_has_one_task(transactions: bool, blocks: bool)
    ensures
        tasks_for(transactions, blocks).contains(SubscriptionTask::Transactions) <==> transactions,
        tasks_for(transactions, blocks).contains(SubscriptionTask::Blocks) <==> blocks,
        tasks_for(transactions, blocks).contains(SubscriptionTask::Idle) <==> !transactions
            && !blocks,
        tasks_for(transactions, blocks).no_duplicates(),
        tasks_for(transactions, blocks).len() > 0,
{
    let tasks = tasks_for(transactions, blocks);
    if transactions {
        assert(tasks[0] == SubscriptionTask::Transactions);
        if blocks {
            assert(tasks[1] == SubscriptionTask::Blocks);
        }
    } else if blocks {
        assert(tasks[0] == SubscriptionTask::Blocks);
    } else {
        assert(tasks[0] == SubscriptionTask::Idle);
    }
}

/// The tasks that subscriptions need: one for transactions and one for blocks if someone wants
/// them, and an idle one if nobody wants either.
pub open spec fn tasks_for(transactions: bool, blocks: bool) -> Seq<SubscriptionTask> {
    if transactions && blocks {
        seq![SubscriptionTask::Transactions, SubscriptionTask::Blocks]
    } else if transactions {
        seq![SubscriptionTask::Transactions]
    } else if blocks {
        seq![SubscriptionTask::Blocks]
    } else {
        seq![SubscriptionTask::Idle]
    }
}

/// The request by which a server is asked for the transaction with the given hash: its method,
/// and its parameters as JSON text. The hash is the only parameter.
pub fn transaction_request(pending_tx_id: &String) -> (r: (String, String))
    requires
        is_plain(pending_tx_id@),
    ensures
        r.0@ == "eth_getTransactionByHash"@,
        r.1@ == seq!['[', '"'] + pending_tx_id@ + seq!['"', ']'],
{
    let ids: Vec<String> = vec![pending_tx_id.clone()];
    let params = text_list_json(&ids);
    proof {
        let texts = ids@.map_values(|t: String| t@);
        assert(texts =~= seq![pending_tx_id@]);
        assert(params@ =~= seq!['[', '"'] + pending_tx_id@ + seq!['"', ']']);
    }
    ("eth_getTransactionByHash".to_owned(), params)
}

impl Web3Connections {
    /// The tasks that subscriptions need.
    pub fn subscribe(&self, pending_tx_sender: bool, head_block_sender: bool) -> (tasks: Vec<
        SubscriptionTask,
    >)
        ensures
            tasks@ == tasks_for(pending_tx_sender, head_block_sender),
    {
        let mut tasks: Vec<SubscriptionTask> = Vec::new();
        if pending_tx_sender {
            tasks.push(SubscriptionTask::Transactions);
        }
        if head_block_sender {
            tasks.push(SubscriptionTask::Blocks);
        }
        if tasks.is_empty() {
            tasks.push(SubscriptionTask::Idle);
        }
        assert(tasks@ =~= tasks_for(pending_tx_sender, head_block_sender));
        tasks
    }

    /// The state of a transaction: it is confirmed if a block holds it.
    fn classify(transaction: Transaction) -> (r: TxState)
        ensures
            r == state_of(transaction),
    {
        match &transaction.block_hash {
            // the transaction is already confirmed
            Some(_) => TxState::Confirmed(transaction),
            None => TxState::Pending(transaction),
        }
    }

    /// What to do after `event` for a transaction that a server announced. It is fetched from the
    /// server and sent on, unless nobody listens, it has been processed before, or the server
    /// cannot give it.
    pub fn funnel_transaction(&self, event: FunnelEvent) -> (r: FunnelStep)
        ensures
            r == funnel_step(event),
    {
        match event {
            FunnelEvent::Announced { receivers, already_processed } => {
                if receivers == 0 || already_processed {
                    FunnelStep::Stop
                } else {
                    FunnelStep::Ask
                }
            },
            FunnelEvent::Asked(HandleReply::ActiveRequest) => FunnelStep::Fetch,
            FunnelEvent::Asked(_) => FunnelStep::Stop,
            FunnelEvent::Fetched(Ok(transaction)) => FunnelStep::Send(Self::classify(transaction)),
            FunnelEvent::Fetched(Err(_)) => FunnelStep::Stop,
        }
    }
}

} // verus!
