//! Requests for inbound channel liquidity: what is quoted, what is recorded,
//! and the notice sent when one is paid.

use vstd::prelude::*;
use vstd::string::*;

use crate::text::{decimal, decimal_string};
use crate::Status;

verus! {

/// The price of an inbound channel, in sats.
pub const INBOUND_PRICE: u64 = 30_000;

/// The capacity of an inbound channel, in sats.
pub const INBOUND_CAPACITY: u64 = 1_000_000;

/// How long an inbound channel is kept open, in months.
pub const INBOUND_DURATION: u64 = 1;

/// A recorded request for an inbound channel.
#[derive(Debug)]
pub struct InboundRequest {
    pub unix_time: u128,
    pub price: u64,
    pub nodeid: String,
    pub capacity: u64,
    pub duration: u64,
    pub refund_address: String,
    pub payment_address: String,
}

/// The quote handed back for a request: the price to pay, the channel's size
/// and duration, and the on-chain address to pay to.
#[derive(Debug)]
pub struct InboundResponse {
    pub price: u64,
    pub size: u64,
    pub duration: u64,
    pub address: String,
}

/// The record of a request made at `unix_time` (milliseconds) for a channel to
/// `nodeid`, to be paid at `payment_address`, and the quote handed back. The
/// record keeps what the requester asked for; the quote states the fixed
/// offer.
pub fn new_inbound_request(
    unix_time: u128,
    nodeid: String,
    capacity: u64,
    duration: u64,
    refund_address: String,
    payment_address: String,
) -> (r: (Status, InboundRequest, InboundResponse))
    ensures
        r.0 == Status::Accepted,
        r.1.unix_time == unix_time,
        r.1.price == INBOUND_PRICE,
        r.1.nodeid@ == nodeid@,
        r.1.capacity == capacity,
        r.1.duration == duration,
        r.1.refund_address@ == refund_address@,
        r.1.payment_address@ == payment_address@,
        r.2.price == INBOUND_PRICE,
        r.2.size == INBOUND_CAPACITY,
        r.2.duration == INBOUND_DURATION,
        r.2.address@ == payment_address@,
{
    let address: String = payment_address.clone();
    let request = InboundRequest {
        unix_time,
        price: INBOUND_PRICE,
        nodeid,
        capacity,
        duration,
        refund_address,
        payment_address,
    };
    let response = InboundResponse {
        price: INBOUND_PRICE,
        size: INBOUND_CAPACITY,
        duration: INBOUND_DURATION,
        address,
    };
    (Status::Accepted, request, response)
}

/// The subject of the notice for a paid request.
pub open spec fn notice_subject(r: InboundRequest) -> Seq<char> {
    "[Channel Request]: "@ + r.nodeid@
}

/// The body of the notice for a paid request.
pub open spec fn notice_body(r: InboundRequest) -> Seq<char> {
    "\n[Channel Request]\n-------------------\nNodeID: "@ + r.nodeid@ + "\nCapacity: "@ + decimal(
        r.capacity as nat,
    ) + "\nDuration: "@ + decimal(r.duration as nat)
        + "\nPayment Address: https://mempool.space/address/"@ + r.payment_address@
        + "\nRefund Address: "@ + r.refund_address@ + "\n-------------------\nCost: "@ + decimal(
        r.price as nat,
    ) + "\n        "@
}

/// The subject and body of the e-mail sent when a request has been paid.
pub fn channel_request_email(inbound_request: &InboundRequest) -> (r: (String, String))
    ensures
        r.0@ == notice_subject(*inbound_request),
        r.1@ == notice_body(*inbound_request),
{
    let mut subject: String = "[Channel Request]: ".to_owned();
    subject.append(inbound_request.nodeid.as_str());
    let mut body: String = "\n[Channel Request]\n-------------------\nNodeID: ".to_owned();
    body.append(inbound_request.nodeid.as_str());
    body.append("\nCapacity: ");
    body.append(decimal_string(inbound_request.capacity).as_str());
    body.append("\nDuration: ");
    body.append(decimal_string(inbound_request.duration).as_str());
    body.append("\nPayment Address: https://mempool.space/address/");
    body.append(inbound_request.payment_address.as_str());
    body.append("\nRefund Address: ");
    body.append(inbound_request.refund_address.as_str());
    body.append("\n-------------------\nCost: ");
    body.append(decimal_string(inbound_request.price).as_str());
    body.append("\n        ");
    (subject, body)
}


/// The notice carries the request whole: the subject is the fixed heading
/// followed by the entire node id; in the body the entire node id stands
/// between "NodeID: " and the capacity line; and the body ends with the
/// entire payment address, the entire refund address and the price in
/// decimal, each in its line.
pub proof fn lemma_notice_carries_request(r: InboundRequest)
    ensures
        ({
            let subject = notice_subject(r);
            let body = notice_body(r);
            let head = "\n[Channel Request]\n-------------------\nNodeID: "@;
            let id_end: int = (head.len() + r.nodeid@.len()) as int;
            let tail = "\nPayment Address: https://mempool.space/address/"@ + r.payment_address@
                + "\nRefund Address: "@ + r.refund_address@ + "\n-------------------\nCost: "@
                + decimal(r.price as nat) + "\n        "@;
            &&& subject.skip("[Channel Request]: "@.len() as int) == r.nodeid@
            &&& body.take(head.len() as int) == head
            &&& body.subrange(head.len() as int, id_end) == r.nodeid@
            &&& body.subrange(id_end, id_end + "\nCapacity: "@.len() as int) == "\nCapacity: "@
            &&& body.len() >= tail.len()
            &&& body.skip(body.len() - tail.len()) == tail
        }),
{
    let head = "\n[Channel Request]\n-------------------\nNodeID: "@;
    let mid = "\nCapacity: "@ + decimal(r.capacity as nat) + "\nDuration: "@ + decimal(r.duration as nat);
    let tail = "\nPayment Address: https://mempool.space/address/"@ + r.payment_address@
        + "\nRefund Address: "@ + r.refund_address@ + "\n-------------------\nCost: "@
        + decimal(r.price as nat) + "\n        "@;
    let body = notice_body(r);
    assert(body =~= head + r.nodeid@ + mid + tail);
    assert(notice_subject(r).skip("[Channel Request]: "@.len() as int) =~= r.nodeid@);
    assert(body.take(head.len() as int) =~= head);
    let id_end: int = (head.len() + r.nodeid@.len()) as int;
    assert(body.subrange(head.len() as int, id_end) =~= r.nodeid@);
    assert(body.subrange(id_end, id_end + "\nCapacity: "@.len() as int) =~= "\nCapacity: "@);
    assert(body.skip(body.len() - tail.len()) =~= tail);
}

} // verus!
