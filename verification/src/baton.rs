use vstd::prelude::*;
use vstd::string::StringExecFns;

use tokio::sync::mpsc::{Receiver, Sender};

use crate::names::{NameMap, has_key, lookup, store};

verus! {

/// How many messages each mailbox holds before a sender waits.
pub const MAILBOX_CAPACITY: usize = 256usize;

#[verifier::external_type_specification]
#[verifier::external_body]
#[verifier::reject_recursive_types(T)]
pub struct ExSender<T>(Sender<T>);

#[verifier::external_type_specification]
#[verifier::external_body]
#[verifier::reject_recursive_types(T)]
pub struct ExReceiver<T>(Receiver<T>);

/// A request sent from the conductor to an agent.
#[derive(Debug, Clone)]
pub struct FlexRequest {
    pub chord: String,
    pub args: Vec<String>,
}

/// A response from an agent back to the conductor. The value is a binary64
/// value, stored as its bit pattern.
#[derive(Debug, Clone)]
pub struct FlexResponse {
    pub agent_id: String,
    pub value: u64,
    pub success: bool,
}

/// The capacity that the channel behind a request sender was made with (what
/// tokio's `Sender::max_capacity` reports).
pub uninterp spec fn request_capacity(tx: Sender<FlexRequest>) -> usize;

/// The capacity that the channel behind a response sender was made with (what
/// tokio's `Sender::max_capacity` reports).
pub uninterp spec fn response_capacity(tx: Sender<FlexResponse>) -> usize;

/// The request sender and receiver are the two ends of one channel (in tokio
/// both hold the same shared channel).
pub uninterp spec fn request_pair(tx: Sender<FlexRequest>, rx: Receiver<FlexRequest>) -> bool;

/// The response sender and receiver are the two ends of one channel (in tokio
/// both hold the same shared channel).
pub uninterp spec fn response_pair(tx: Sender<FlexResponse>, rx: Receiver<FlexResponse>) -> bool;

/// Calls `tokio::sync::mpsc::channel` for requests: a bounded channel of
/// `buffer` places; the two ends returned belong to it, and the sender
/// reports that capacity. Tokio panics when the capacity is 0 or above its
/// semaphore's `MAX_PERMITS` (`usize::MAX >> 3`), which `requires` rules out.
#[verifier::external_body]
fn request_channel(buffer: usize) -> (r: (Sender<FlexRequest>, Receiver<FlexRequest>))
    requires
        0 < buffer <= usize::MAX / 8,
    ensures
        request_capacity(r.0) == buffer,
        request_pair(r.0, r.1),
{
    tokio::sync::mpsc::channel(buffer)
}

/// Calls `tokio::sync::mpsc::channel` for responses, with the same claims and
/// the same bounds as `request_channel`.
#[verifier::external_body]
fn response_channel(buffer: usize) -> (r: (Sender<FlexResponse>, Receiver<FlexResponse>))
    requires
        0 < buffer <= usize::MAX / 8,
    ensures
        response_capacity(r.0) == buffer,
        response_pair(r.0, r.1),
{
    tokio::sync::mpsc::channel(buffer)
}

/// Calls `Sender::clone` of tokio on a response sender: the clone sends into
/// the same channel, so it reports the same capacity and pairs with every
/// receiver the original pairs with.
#[verifier::external_body]
fn clone_response_sender(tx: &Sender<FlexResponse>) -> (r: Sender<FlexResponse>)
    ensures
        response_capacity(r) == response_capacity(*tx),
        forall|rx: Receiver<FlexResponse>| #[trigger] response_pair(*tx, rx) ==> response_pair(r, rx),
{
    tx.clone()
}

/// The message of a request to an agent that is not registered.
pub open spec fn not_registered(agent_id: Seq<char>) -> Seq<char> {
    "Agent '"@ + agent_id + "' not registered"@
}

/// In-process baton: one mailbox per registered agent, one for responses.
pub struct LocalBaton {
    senders: NameMap<Sender<FlexRequest>>,
    receiver: Receiver<FlexResponse>,
    resp_sender: Sender<FlexResponse>,
}

impl LocalBaton {
    /// The mailboxes of the registered agents, by agent id.
    pub closed spec fn mailboxes(&self) -> Seq<(Seq<char>, Sender<FlexRequest>)> {
        self.senders.entries()
    }

    /// The sender into the response mailbox.
    pub closed spec fn reply_sender(&self) -> Sender<FlexResponse> {
        self.resp_sender
    }

    /// The receiver of the response mailbox.
    pub closed spec fn reply_receiver(&self) -> Receiver<FlexResponse> {
        self.receiver
    }

    pub fn new() -> (b: LocalBaton)
        ensures
            b.mailboxes() == Seq::<(Seq<char>, Sender<FlexRequest>)>::empty(),
            response_capacity(b.reply_sender()) == MAILBOX_CAPACITY,
            response_pair(b.reply_sender(), b.reply_receiver()),
    {
        let (resp_tx, resp_rx) = response_channel(MAILBOX_CAPACITY);
        LocalBaton { senders: NameMap::new(), receiver: resp_rx, resp_sender: resp_tx }
    }

    /// Registers an agent: it gets a fresh mailbox, whose receiving end is
    /// returned. Registering again replaces the mailbox.
    pub fn register(&mut self, agent_id: &str) -> (rx: Receiver<FlexRequest>)
        ensures
            exists|tx: Sender<FlexRequest>|
                request_capacity(tx) == MAILBOX_CAPACITY && final(self).mailboxes() == store(
                    old(self).mailboxes(),
                    agent_id@,
                    tx,
                ),
            lookup(final(self).mailboxes(), agent_id@) matches Some(tx) && request_capacity(tx)
                == MAILBOX_CAPACITY && request_pair(tx, rx),
            has_key(final(self).mailboxes(), agent_id@),
            final(self).reply_sender() == old(self).reply_sender(),
            final(self).reply_receiver() == old(self).reply_receiver(),
    {
        let (tx, rx) = request_channel(MAILBOX_CAPACITY);
        let ghost gtx = tx;
        self.senders.insert(agent_id.to_owned(), tx);
        assert(self.mailboxes() == store(old(self).mailboxes(), agent_id@, gtx));
        assert(self.senders.get_spec(agent_id@) == Some(gtx));
        assert(request_capacity(gtx) == MAILBOX_CAPACITY);
        assert(request_pair(gtx, rx));
        rx
    }

    /// A sender into the response mailbox, for agents to reply.
    pub fn response_sender(&self) -> (tx: Sender<FlexResponse>)
        ensures
            response_capacity(tx) == response_capacity(self.reply_sender()),
            response_pair(self.reply_sender(), self.reply_receiver()) ==> response_pair(
                tx,
                self.reply_receiver(),
            ),
    {
        clone_response_sender(&self.resp_sender)
    }

    /// The mailbox that a request to `agent_id` goes into, or the error that
    /// such a request is answered with.
    pub fn route(&self, agent_id: &str) -> (r: Result<&Sender<FlexRequest>, String>)
        ensures
            match r {
                Ok(tx) => lookup(self.mailboxes(), agent_id@) == Some(*tx),
                Err(msg) => !has_key(self.mailboxes(), agent_id@) && msg@ == not_registered(
                    agent_id@,
                ),
            },
    {
        match self.senders.get(agent_id) {
            Some(tx) => Ok(tx),
            None => {
                let mut msg = String::from_str("Agent '");
                msg.append(agent_id);
                msg.append("' not registered");
                Err(msg)
            },
        }
    }

    /// The receiving end of the response mailbox.
    pub fn receiver(&mut self) -> (rx: &mut Receiver<FlexResponse>)
        ensures
            *rx == old(self).reply_receiver(),
            final(self).reply_receiver() == *final(rx),
            final(self).mailboxes() == old(self).mailboxes(),
            final(self).reply_sender() == old(self).reply_sender(),
    {
        &mut self.receiver
    }
}

} // verus!
