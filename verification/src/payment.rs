//! The records that the payment page hands back: invoices created, and
//! whether they were paid.

use vstd::prelude::*;
use vstd::string::*;

use crate::hexcode::{hex_encode, hex_encode_bytes};
use crate::Status;

verus! {

/// A Lightning invoice created for a payment.
#[derive(Debug)]
pub struct PaymentResponse {
    pub amount: i64,
    pub address: String,
    pub payment_id: String,
    pub message: String,
}

/// Whether a payment has been made.
#[derive(Debug)]
pub struct PaymentStatusResponse {
    pub payment_complete: bool,
    pub confirmed_paid: u64,
    pub unconfirmed_paid: u64,
}

/// The memo of a new invoice: the payer's message, or else the node's
/// default label.
pub fn invoice_description(message: Option<String>, label: String) -> (d: String)
    ensures
        d@ == match message {
            Some(m) => m@,
            None => label@,
        },
{
    match message {
        Some(message) => message,
        None => label,
    }
}

/// The answer to a created invoice: its amount, its payment request as the
/// address to pay, and its payment hash in hexadecimal as the id by which its
/// payment is checked.
pub fn payment_response(amount: i64, payment_request: String, r_hash: &Vec<u8>) -> (r: (
    Status,
    PaymentResponse,
))
    ensures
        r.0 == Status::Accepted,
        r.1.amount == amount,
        r.1.address@ == payment_request@,
        r.1.payment_id@ == hex_encode(r_hash@),
        r.1.message@ == "payment created"@,
{
    let payment_id: String = hex_encode_bytes(r_hash.as_slice());
    (
        Status::Accepted,
        PaymentResponse {
            amount,
            address: payment_request,
            payment_id,
            message: "payment created".to_owned(),
        },
    )
}

/// Where the QR code of an invoice is written: `html/qr_codes/<id>.png`.
pub fn qr_code_path(payment_id: &str) -> (p: String)
    ensures
        p@ == "html/qr_codes/"@ + payment_id@ + ".png"@,
{
    let mut p: String = "html/qr_codes/".to_owned();
    p.append(payment_id);
    p.append(".png");
    p
}

/// The answer to a check of an invoice: whether it was paid. Nothing is
/// counted as confirmed or unconfirmed on chain.
pub fn payment_status(payment_complete: bool) -> (r: (Status, PaymentStatusResponse))
    ensures
        r.0 == Status::Accepted,
        r.1 == (PaymentStatusResponse { payment_complete, confirmed_paid: 0, unconfirmed_paid: 0 }),
{
    (Status::Accepted, PaymentStatusResponse { payment_complete, confirmed_paid: 0, unconfirmed_paid: 0 })
}

/// The answer to an ecash payment that redeemed `amount_paid` sats: it is
/// complete exactly when something was redeemed, and what was redeemed counts
/// as confirmed.
pub fn ecash_status(amount_paid: u32) -> (r: (Status, PaymentStatusResponse))
    ensures
        r.0 == Status::Accepted,
        r.1 == (PaymentStatusResponse {
            payment_complete: amount_paid > 0,
            confirmed_paid: amount_paid as u64,
            unconfirmed_paid: 0,
        }),
        r.1.payment_complete <==> r.1.confirmed_paid > 0,
{
    (
        Status::Accepted,
        PaymentStatusResponse {
            payment_complete: amount_paid > 0,
            confirmed_paid: amount_paid as u64,
            unconfirmed_paid: 0,
        },
    )
}

} // verus!
