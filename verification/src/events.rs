//! Events the signer subscribes to, and how a request to the event
//! endpoint is routed.

use vstd::prelude::*;
use vstd::string::StringExecFns;
use crate::keys::{KeyEq, QualifiedContractIdentifier};
use crate::signer::BlockValidateResponse;

verus! {

/// One chunk of a stacker DB that changed.
#[derive(Clone, Debug)]
pub struct StackerDBChunkData {
    pub slot_id: u32,
    pub slot_version: u32,
    pub data: Vec<u8>,
}

/// The chunks of one stacker DB contract that changed.
#[derive(Clone, Debug)]
pub struct StackerDBChunksEvent {
    pub contract_id: QualifiedContractIdentifier,
    pub modified_slots: Vec<StackerDBChunkData>,
}

/// Event enum for newly-arrived signer subscribed events.
#[derive(Clone, Debug)]
pub enum SignerEvent {
    /// A new stackerDB chunk was received.
    StackerDB(StackerDBChunksEvent),
    /// A new block proposal was received.
    BlockProposal(BlockValidateResponse),
}

/// Why no event came of a request.
#[derive(Debug)]
pub enum EventError {
    /// The receiver was asked to stop.
    Terminated,
    /// The request is no event at all.
    MalformedRequest(String),
    /// The body of the request does not decode.
    Deserialize(String),
    /// The event is of a contract the receiver does not listen to.
    UnrecognizedStackerDBContract(QualifiedContractIdentifier),
    /// The request went to a path that stands for no event.
    UnrecognizedEvent(String),
    /// The receiver is not bound to a socket.
    NotBound,
}

/// Stops the event receiver: after `send` its loop ends.
pub trait EventStopSignaler {
    /// Send the stop signal.
    fn send(&mut self);
}

/// What a request stands for, going by its head.
#[derive(Debug)]
pub enum RequestRoute {
    /// Its body is a stacker DB chunks event.
    StackerDbChunks,
    /// Its body is the node's verdict on a block proposal.
    ProposalResponse,
    /// It is no event. `respond` says whether the sender still gets its
    /// answer, so that it does not send the request again.
    Refused { error: EventError, respond: bool },
}

/// The path stacker DB chunks are posted to.
pub open spec fn chunks_path() -> Seq<char> {
    "/stackerdb_chunks"@
}

/// The path the node's verdicts on block proposals are posted to.
pub open spec fn proposal_path() -> Seq<char> {
    "/proposal_response"@
}

/// Routes a request by its head. A receiver that was asked to stop
/// takes nothing more; only a POST is an event; the path says which.
pub fn route_request(stopped: bool, is_post: bool, method: &str, url: &str) -> (r: RequestRoute)
    ensures
        if stopped {
            r matches RequestRoute::Refused { error: EventError::Terminated, respond: false }
        } else if !is_post {
            &&& r matches RequestRoute::Refused { error: EventError::MalformedRequest(m), respond }
            &&& !respond
            &&& m@ == "Unrecognized method '"@ + method@ + "'"@
        } else if url@ == chunks_path() {
            r is StackerDbChunks
        } else if url@ == proposal_path() {
            r is ProposalResponse
        } else {
            &&& r matches RequestRoute::Refused { error: EventError::UnrecognizedEvent(u), respond }
            &&& respond
            &&& u@ == url@
        },
{
    if stopped {
        return RequestRoute::Refused { error: EventError::Terminated, respond: false };
    }
    if !is_post {
        let message: String = String::from_str("Unrecognized method '").concat(method).concat("'");
        return RequestRoute::Refused { error: EventError::MalformedRequest(message), respond: false };
    }
    let url_owned: String = String::from_str(url);
    if url_owned == String::from_str("/stackerdb_chunks") {
        RequestRoute::StackerDbChunks
    } else if url_owned == String::from_str("/proposal_response") {
        RequestRoute::ProposalResponse
    } else {
        RequestRoute::Refused { error: EventError::UnrecognizedEvent(url_owned), respond: true }
    }
}

/// What becomes of a request once its body was dealt with.
#[derive(Debug)]
pub struct Verdict {
    /// The event, or why there is none.
    pub result: Result<SignerEvent, EventError>,
    /// Whether the sender gets its answer.
    pub respond: bool,
}

/// What came of reading and decoding a request's body.
#[derive(Debug)]
pub enum Body {
    /// The body could not be read; the detail says why.
    Unreadable(String),
    /// The body does not decode; the detail says why.
    Undecodable(String),
    /// The body decodes to this event.
    Decoded(SignerEvent),
}

/// Whether the receiver listens to the contract `id`.
pub open spec fn listens_to(
    contract_ids: Seq<QualifiedContractIdentifier>,
    id: QualifiedContractIdentifier,
) -> bool {
    exists|i: int| 0 <= i < contract_ids.len() && (#[trigger] contract_ids[i])@ == id@
}

/// Decides on a request by its body. A body that cannot be read is
/// answered and refused; one that does not decode is refused without an
/// answer; a chunks event of a contract that is not listened to is
/// answered and refused; any other event is answered and passed on.
pub fn judge_body(body: Body, contract_ids: &Vec<QualifiedContractIdentifier>) -> (v: Verdict)
    ensures
        match body {
            Body::Unreadable(detail) => {
                &&& v.respond
                &&& v.result matches Err(EventError::MalformedRequest(m))
                &&& m@ == "Failed to read body: "@ + detail@
            },
            Body::Undecodable(detail) => {
                &&& !v.respond
                &&& v.result matches Err(EventError::Deserialize(m))
                &&& m@ == "Could not decode body to JSON: "@ + detail@
            },
            Body::Decoded(SignerEvent::StackerDB(event)) => {
                &&& v.respond
                &&& if listens_to(contract_ids@, event.contract_id) {
                    v.result == Ok::<SignerEvent, EventError>(SignerEvent::StackerDB(event))
                } else {
                    v.result == Err::<SignerEvent, EventError>(
                        EventError::UnrecognizedStackerDBContract(event.contract_id),
                    )
                }
            },
            Body::Decoded(SignerEvent::BlockProposal(response)) => {
                &&& v.respond
                &&& v.result == Ok::<SignerEvent, EventError>(SignerEvent::BlockProposal(response))
            },
        },
{
    match body {
        Body::Unreadable(detail) => {
            let message: String = String::from_str("Failed to read body: ").concat(detail.as_str());
            Verdict { result: Err(EventError::MalformedRequest(message)), respond: true }
        },
        Body::Undecodable(detail) => {
            let message: String = String::from_str("Could not decode body to JSON: ").concat(
                detail.as_str(),
            );
            Verdict { result: Err(EventError::Deserialize(message)), respond: false }
        },
        Body::Decoded(SignerEvent::StackerDB(event)) => {
            let mut i: usize = 0;
            while i < contract_ids.len() && !contract_ids[i].key_eq(&event.contract_id)
                invariant
                    i <= contract_ids@.len(),
                    forall|j: int| 0 <= j < i ==> (#[trigger] contract_ids@[j])@ != event.contract_id@,
                decreases contract_ids@.len() - i,
            {
                i += 1;
            }
            if i < contract_ids.len() {
                Verdict { result: Ok(SignerEvent::StackerDB(event)), respond: true }
            } else {
                Verdict {
                    result: Err(EventError::UnrecognizedStackerDBContract(event.contract_id)),
                    respond: true,
                }
            }
        },
        Body::Decoded(SignerEvent::BlockProposal(response)) => {
            Verdict { result: Ok(SignerEvent::BlockProposal(response)), respond: true }
        },
    }
}

/// What the receiver's loop does next.
#[derive(Clone, Copy, Debug, PartialEq, Eq, Structural)]
pub enum LoopStep {
    /// Forward the event to the consumers.
    Forward,
    /// Go on with the next request.
    Skip,
    /// Leave the loop.
    Stop,
}

/// What the receiver's loop does with what `next_event` returned: an
/// event is forwarded, the stop signal ends the loop, and any other error
/// is passed over.
pub fn main_loop_step(next: &Result<SignerEvent, EventError>) -> (r: LoopStep)
    ensures
        r == match next {
            Ok(_) => LoopStep::Forward,
            Err(EventError::Terminated) => LoopStep::Stop,
            Err(_) => LoopStep::Skip,
        },
{
    match next {
        Ok(_) => LoopStep::Forward,
        Err(EventError::Terminated) => LoopStep::Stop,
        Err(_) => LoopStep::Skip,
    }
}

/// The request that wakes the receiver so that it sees the stop signal.
pub fn shutdown_request() -> (r: String)
    ensures
        r@ == "POST /shutdown HTTP/1.0\r\nContent-Length: 24\r\n\r\nYo. Shut this shit down!"@,
{
    String::from_str("POST /shutdown HTTP/1.0\r\nContent-Length: 24\r\n\r\nYo. Shut this shit down!")
}

} // verus!
