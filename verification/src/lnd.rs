//! The decisions around the Lightning node: its connection settings, the
//! payment hash of an invoice to look up, whether an invoice is settled, and
//! which on-chain payments settle which inbound channel requests.

use vstd::prelude::*;

use crate::config::{conf_value, parse_settings, read_setting, ConfError, ConfKey};
use crate::hexcode::{hex_decode, hex_decode_str};
use crate::inbound::InboundRequest;

verus! {

/// The four node settings, in the order in which they are read.
pub open spec fn lnd_keys() -> Seq<ConfKey> {
    seq![ConfKey::LndAddress, ConfKey::LndCertFile, ConfKey::LndMacaroonFile, ConfKey::LndDefaultLabel]
}

/// The node's address, TLS certificate file, macaroon file and default
/// invoice label, read from the settings file `config_text`. It fails when
/// the file does not parse, or names the first of the four that it lacks.
pub fn load_conf(config_text: String) -> (r: Result<(String, String, String, String), ConfError>)
    ensures
        match r {
            Ok((address, cert, macaroon, label)) => {
                &&& conf_value(config_text@, ConfKey::LndAddress) == Some(address@)
                &&& conf_value(config_text@, ConfKey::LndCertFile) == Some(cert@)
                &&& conf_value(config_text@, ConfKey::LndMacaroonFile) == Some(macaroon@)
                &&& conf_value(config_text@, ConfKey::LndDefaultLabel) == Some(label@)
            },
            Err(ConfError::Unparsable) => crate::config::ini_parse(config_text@) is None,
            Err(ConfError::Missing(k)) => {
                &&& crate::config::ini_parse(config_text@) is Some
                &&& exists|i: int|
                    0 <= i < 4 && lnd_keys()[i] == k && conf_value(config_text@, k) is None && (
                    forall|j: int| 0 <= j < i ==> conf_value(config_text@, #[trigger] lnd_keys()[j]) is Some)
            },
        },
{
    let ini = match parse_settings(config_text) {
        Some(ini) => ini,
        None => return Err(ConfError::Unparsable),
    };
    let address: String = match read_setting(&ini, ConfKey::LndAddress) {
        Some(v) => v,
        None => {
            assert(lnd_keys()[0] == ConfKey::LndAddress);
            return Err(ConfError::Missing(ConfKey::LndAddress));
        },
    };
    let cert: String = match read_setting(&ini, ConfKey::LndCertFile) {
        Some(v) => v,
        None => {
            assert(lnd_keys()[1] == ConfKey::LndCertFile);
            return Err(ConfError::Missing(ConfKey::LndCertFile));
        },
    };
    let macaroon: String = match read_setting(&ini, ConfKey::LndMacaroonFile) {
        Some(v) => v,
        None => {
            assert(lnd_keys()[2] == ConfKey::LndMacaroonFile);
            return Err(ConfError::Missing(ConfKey::LndMacaroonFile));
        },
    };
    let label: String = match read_setting(&ini, ConfKey::LndDefaultLabel) {
        Some(v) => v,
        None => {
            assert(lnd_keys()[3] == ConfKey::LndDefaultLabel);
            return Err(ConfError::Missing(ConfKey::LndDefaultLabel));
        },
    };
    Ok((address, cert, macaroon, label))
}

/// The payment hash that a payment id stands for, as bytes: `None` where
/// the id is no even-length hexadecimal text.
pub fn payment_hash(payment_id: &str) -> (r: Option<Vec<u8>>)
    ensures
        match r {
            Some(h) => hex_decode(vstd::utf8::encode_utf8(payment_id@)) == Some(h@),
            None => hex_decode(vstd::utf8::encode_utf8(payment_id@)) is None,
        },
{
    match hex_decode_str(payment_id) {
        Ok(h) => Some(h),
        Err(_) => None,
    }
}

/// The node's code for a settled invoice.
pub const INVOICE_SETTLED: i32 = 1;

/// An invoice is paid when the node reports it settled.
pub fn invoice_settled(state: i32) -> (paid: bool)
    ensures
        paid == (state == INVOICE_SETTLED),
{
    state == INVOICE_SETTLED
}


/// An output of an on-chain transaction: the address paid and the amount,
/// in sats, as the node reports it.
#[derive(Debug)]
pub struct TxOutput {
    pub address: String,
    pub amount: i64,
}

/// What an output says of a request: paid in full, or paid too little.
/// `request` is the request's index in the list of requests.
#[derive(Clone, Copy, Debug, PartialEq, Eq, Structural)]
pub enum PaymentCheck {
    Paid { request: usize },
    Underpaid { request: usize },
}

/// The index of the first request to be paid at `address`.
pub open spec fn first_request_for(requests: Seq<InboundRequest>, address: Seq<char>) -> Option<int>
    decreases requests.len(),
{
    if requests.len() == 0 {
        None
    } else {
        match first_request_for(requests.drop_last(), address) {
            Some(i) => Some(i),
            None => if requests.last().payment_address@ == address {
                Some(requests.len() - 1)
            } else {
                None
            },
        }
    }
}

/// What an output says of the first request to be paid at its address, if
/// there is one. The reported amount is taken as an unsigned number.
pub open spec fn payment_check(requests: Seq<InboundRequest>, output: TxOutput) -> Option<PaymentCheck> {
    match first_request_for(requests, output.address@) {
        Some(i) => if requests[i].price <= output.amount as u64 {
            Some(PaymentCheck::Paid { request: i as usize })
        } else {
            Some(PaymentCheck::Underpaid { request: i as usize })
        },
        None => None,
    }
}

/// What the outputs of a transaction say of the requests, output by output.
pub open spec fn payment_checks(requests: Seq<InboundRequest>, outputs: Seq<TxOutput>) -> Seq<PaymentCheck>
    decreases outputs.len(),
{
    if outputs.len() == 0 {
        Seq::<PaymentCheck>::empty()
    } else {
        let init = payment_checks(requests, outputs.drop_last());
        match payment_check(requests, outputs.last()) {
            Some(c) => init.push(c),
            None => init,
        }
    }
}

/// The transaction hashes seen, as text.
pub open spec fn hashes(seen: Seq<String>) -> Seq<Seq<char>> {
    seen.map_values(|h: String| h@)
}

/// One transaction reported by the node: a transaction seen before is
/// passed over; a new one is remembered and its outputs are checked.
pub open spec fn monitor_step(
    seen: Seq<Seq<char>>,
    tx_hash: Seq<char>,
    outputs: Seq<TxOutput>,
    requests: Seq<InboundRequest>,
) -> (Seq<Seq<char>>, Seq<PaymentCheck>) {
    if seen.contains(tx_hash) {
        (seen, Seq::<PaymentCheck>::empty())
    } else {
        (seen.push(tx_hash), payment_checks(requests, outputs))
    }
}

fn find_request(requests: &Vec<InboundRequest>, address: &String) -> (r: Option<usize>)
    ensures
        match r {
            Some(i) => i < requests@.len() && first_request_for(requests@, address@) == Some(
                i as int,
            ),
            None => first_request_for(requests@, address@) is None,
        },
{
    let n: usize = requests.len();
    let mut i: usize = 0;
    while i < n
        invariant
            i <= n == requests@.len(),
            first_request_for(requests@.take(i as int), address@) is None,
        decreases n - i,
    {
        assert(requests@.take(i + 1).drop_last() =~= requests@.take(i as int));
        if requests[i].payment_address == *address {
            proof {
                lemma_first_request_prefix(requests@, i as int + 1, address@);
            }
            return Some(i);
        }
        i = i + 1;
    }
    assert(requests@.take(n as int) =~= requests@);
    None
}

proof fn lemma_first_request_prefix(requests: Seq<InboundRequest>, k: int, address: Seq<char>)
    requires
        0 <= k <= requests.len(),
        first_request_for(requests.take(k), address) is Some,
    ensures
        first_request_for(requests, address) == first_request_for(requests.take(k), address),
    decreases requests.len() - k,
{
    if k < requests.len() {
        assert(requests.take(k + 1).drop_last() =~= requests.take(k));
        lemma_first_request_prefix(requests, k + 1, address);
    } else {
        assert(requests.take(k) =~= requests);
    }
}

/// Handles one transaction reported by the node: if its hash is among those
/// seen, nothing is checked; otherwise the hash is remembered and each output
/// paid to the address of a request is checked against the first such
/// request's price.
pub fn process_transaction(
    seen: &mut Vec<String>,
    tx_hash: String,
    outputs: &Vec<TxOutput>,
    requests: &Vec<InboundRequest>,
) -> (checks: Vec<PaymentCheck>)
    ensures
        (hashes(final(seen)@), checks@) == monitor_step(hashes(old(seen)@), tx_hash@, outputs@, requests@),
{
    let n: usize = seen.len();
    let mut i: usize = 0;
    while i < n
        invariant
            i <= n == seen@.len(),
            forall|k: int| 0 <= k < i ==> hashes(seen@)[k] != tx_hash@,
        decreases n - i,
    {
        if seen[i] == tx_hash {
            assert(hashes(seen@)[i as int] == tx_hash@);
            return Vec::new();
        }
        i = i + 1;
    }
    assert(!hashes(seen@).contains(tx_hash@));
    let ghost before = seen@;
    seen.push(tx_hash);
    assert(hashes(seen@) =~= hashes(before).push(tx_hash@));
    let mut checks: Vec<PaymentCheck> = Vec::new();
    let m: usize = outputs.len();
    let mut j: usize = 0;
    while j < m
        invariant
            j <= m == outputs@.len(),
            checks@ == payment_checks(requests@, outputs@.take(j as int)),
        decreases m - j,
    {
        let output: &TxOutput = &outputs[j];
        assert(outputs@.take(j + 1).drop_last() =~= outputs@.take(j as int));
        match find_request(requests, &output.address) {
            Some(k) => {
                if requests[k].price <= output.amount as u64 {
                    checks.push(PaymentCheck::Paid { request: k });
                } else {
                    checks.push(PaymentCheck::Underpaid { request: k });
                }
            },
            None => {},
        }
        j = j + 1;
    }
    assert(outputs@.take(m as int) =~= outputs@);
    checks
}

/// A transaction is handled once: handling it again, whatever outputs and
/// requests come with it, checks nothing and leaves the hashes seen as they
/// are.
pub proof fn lemma_transaction_handled_once(
    seen: Seq<Seq<char>>,
    tx_hash: Seq<char>,
    outputs: Seq<TxOutput>,
    requests: Seq<InboundRequest>,
    outputs2: Seq<TxOutput>,
    requests2: Seq<InboundRequest>,
)
    ensures
        ({
            let after = monitor_step(seen, tx_hash, outputs, requests).0;
            &&& after.contains(tx_hash)
            &&& monitor_step(after, tx_hash, outputs2, requests2) == (
                after,
                Seq::<PaymentCheck>::empty(),
            )
        }),
{
    let after = monitor_step(seen, tx_hash, outputs, requests).0;
    if !seen.contains(tx_hash) {
        assert(after[after.len() - 1] == tx_hash);
    }
}

/// A transaction whose hash is anywhere among the hashes seen, not only the
/// last, is passed over: nothing is checked and the hashes seen stay as they
/// are. One whose hash was not seen is remembered at the end.
pub proof fn lemma_seen_transaction_skipped(
    seen: Seq<Seq<char>>,
    tx_hash: Seq<char>,
    outputs: Seq<TxOutput>,
    requests: Seq<InboundRequest>,
    i: int,
)
    ensures
        0 <= i < seen.len() && seen[i] == tx_hash ==> monitor_step(seen, tx_hash, outputs, requests)
            == (seen, Seq::<PaymentCheck>::empty()),
        (forall|k: int| 0 <= k < seen.len() ==> seen[k] != tx_hash) ==> monitor_step(
            seen,
            tx_hash,
            outputs,
            requests,
        ).0 == seen.push(tx_hash),
{
    if 0 <= i < seen.len() && seen[i] == tx_hash {
        assert(seen.contains(tx_hash));
    }
}

/// A quoted channel is recognised as paid: an output that pays at least the
/// quoted price to the quoted address is reported as paying the request
/// recorded with the quote, when that is the only request at the address.
pub proof fn lemma_quoted_payment_recognised(
    request: InboundRequest,
    quoted_price: u64,
    quoted_address: Seq<char>,
    output: TxOutput,
)
    requires
        request.price == quoted_price,
        request.payment_address@ == quoted_address,
        output.address@ == quoted_address,
        output.amount >= quoted_price,
    ensures
        payment_checks(seq![request], seq![output]) == seq![PaymentCheck::Paid { request: 0 }],
{
    let reqs = seq![request];
    assert(reqs.drop_last() =~= Seq::<InboundRequest>::empty());
    assert(first_request_for(Seq::<InboundRequest>::empty(), output.address@) is None);
    assert(first_request_for(reqs, output.address@) == Some(0int));
    assert(output.amount as u64 == output.amount);
    let outs = seq![output];
    assert(outs.drop_last() =~= Seq::<TxOutput>::empty());
    assert(payment_checks(reqs, Seq::<TxOutput>::empty()) =~= Seq::<PaymentCheck>::empty());
}

} // verus!
