use sateater::config::{ConfError, ConfKey};
use sateater::email::{email_sender, forward_mailbox_text, ses_raw_message, NoticeError};
use sateater::inbound::{channel_request_email, new_inbound_request, INBOUND_CAPACITY, INBOUND_DURATION, INBOUND_PRICE};
use sateater::lnd::{invoice_settled, payment_hash, process_transaction, PaymentCheck, TxOutput};
use sateater::payment::{ecash_status, invoice_description, payment_response, payment_status, qr_code_path};
use sateater::{load_conf, Status};

const CONF: &str = "[lnd]\naddress = https://localhost:10009\ncertfile = /home/u/.lnd/tls.cert\nmacaroonfile = /home/u/admin.macaroon\ndefaultlabel = sats eaten\n\n[email]\nsender = vault@example.com\n";

#[test]
fn inbound_quote_and_record() {
    let (status, request, response) = new_inbound_request(
        1_700_000_000_000,
        "02abc".to_string(),
        5_000_000,
        3,
        "bc1qrefund".to_string(),
        "bc1ppay".to_string(),
    );
    assert_eq!(status, Status::Accepted);
    assert_eq!(request.unix_time, 1_700_000_000_000);
    assert_eq!(request.price, 30_000);
    assert_eq!(request.nodeid, "02abc");
    assert_eq!(request.capacity, 5_000_000);
    assert_eq!(request.duration, 3);
    assert_eq!(request.refund_address, "bc1qrefund");
    assert_eq!(request.payment_address, "bc1ppay");
    assert_eq!((response.price, response.size, response.duration), (30_000, 1_000_000, 1));
    assert_eq!(response.address, "bc1ppay");
    assert_eq!((INBOUND_PRICE, INBOUND_CAPACITY, INBOUND_DURATION), (30_000, 1_000_000, 1));
}

#[test]
fn channel_request_notice_text() {
    let (_, request, _) = new_inbound_request(0, "02abc".to_string(), 1000, 2, "bc1qr".to_string(), "bc1pp".to_string());
    let (subject, body) = channel_request_email(&request);
    assert_eq!(subject, "[Channel Request]: 02abc");
    let expected = format!(
        "
[Channel Request]
-------------------
NodeID: {}
Capacity: {}
Duration: {}
Payment Address: https://mempool.space/address/{}
Refund Address: {}
-------------------
Cost: {}
        ",
        "02abc", 1000, 2, "bc1pp", "bc1qr", 30000
    );
    assert_eq!(body, expected);
}

#[test]
fn lnd_settings_are_read() {
    let conf = load_conf(CONF.to_string()).unwrap();
    assert_eq!(
        conf,
        (
            "https://localhost:10009".to_string(),
            "/home/u/.lnd/tls.cert".to_string(),
            "/home/u/admin.macaroon".to_string(),
            "sats eaten".to_string()
        )
    );
}

#[test]
fn lnd_settings_name_first_missing_key() {
    let text = "[lnd]\naddress = a\nmacaroonfile = m\n".to_string();
    assert_eq!(load_conf(text), Err(ConfError::Missing(ConfKey::LndCertFile)));
    assert_eq!(load_conf(String::new()), Err(ConfError::Missing(ConfKey::LndAddress)));
    assert_eq!(load_conf("[LND]\nADDRESS=x\ncertfile=c\nmacaroonfile=m\n".to_string()), Err(ConfError::Missing(ConfKey::LndDefaultLabel)));
}

#[test]
fn unparsable_settings() {
    assert_eq!(load_conf("[lnd\naddress = a\n".to_string()), Err(ConfError::Unparsable));
    assert_eq!(email_sender("[email\n".to_string()), Err(ConfError::Unparsable));
}

#[test]
fn email_sender_is_read() {
    assert_eq!(email_sender(CONF.to_string()), Ok("vault@example.com".to_string()));
    assert_eq!(email_sender("[lnd]\naddress=a\n".to_string()), Err(ConfError::Missing(ConfKey::EmailSender)));
}

#[test]
fn payment_ids_are_hex_hashes() {
    let hash = vec![0x00, 0xab, 0x10, 0xff];
    let (status, response) = payment_response(2100, "lnbc21u1xyz".to_string(), &hash);
    assert_eq!(status, Status::Accepted);
    assert_eq!(response.amount, 2100);
    assert_eq!(response.address, "lnbc21u1xyz");
    assert_eq!(response.payment_id, "00ab10ff");
    assert_eq!(response.message, "payment created");
    assert_eq!(payment_hash(&response.payment_id), Some(hash));
}

#[test]
fn payment_hash_reads_hex() {
    assert_eq!(payment_hash("abCD09"), Some(vec![0xab, 0xcd, 0x09]));
    assert_eq!(payment_hash(""), Some(vec![]));
    assert_eq!(payment_hash("abc"), None);
    assert_eq!(payment_hash("zz"), None);
    assert_eq!(payment_hash("éa"), None);
}

#[test]
fn settled_invoice_state() {
    assert!(invoice_settled(1));
    assert!(!invoice_settled(0));
    assert!(!invoice_settled(2));
    assert!(!invoice_settled(3));
}

#[test]
fn invoice_memo() {
    assert_eq!(invoice_description(Some("coffee".to_string()), "label".to_string()), "coffee");
    assert_eq!(invoice_description(None, "label".to_string()), "label");
}

#[test]
fn qr_path() {
    assert_eq!(qr_code_path("00ab"), "html/qr_codes/00ab.png");
}

#[test]
fn status_records() {
    let (status, r) = payment_status(true);
    assert_eq!(status, Status::Accepted);
    assert!(r.payment_complete);
    assert_eq!((r.confirmed_paid, r.unconfirmed_paid), (0, 0));
    let (_, r) = ecash_status(0);
    assert!(!r.payment_complete);
    assert_eq!(r.confirmed_paid, 0);
    let (_, r) = ecash_status(21);
    assert!(r.payment_complete);
    assert_eq!((r.confirmed_paid, r.unconfirmed_paid), (21, 0));
}

fn requests() -> Vec<sateater::inbound::InboundRequest> {
    let (_, a, _) = new_inbound_request(1, "n1".to_string(), 1, 1, "r1".to_string(), "addr1".to_string());
    let (_, b, _) = new_inbound_request(2, "n2".to_string(), 1, 1, "r2".to_string(), "addr2".to_string());
    let (_, c, _) = new_inbound_request(3, "n3".to_string(), 1, 1, "r3".to_string(), "addr1".to_string());
    vec![a, b, c]
}

#[test]
fn transactions_are_checked_against_first_request() {
    let mut seen = vec![];
    let outputs = vec![
        TxOutput { address: "addr2".to_string(), amount: 30_000 },
        TxOutput { address: "elsewhere".to_string(), amount: 99_999 },
        TxOutput { address: "addr1".to_string(), amount: 29_999 },
    ];
    let checks = process_transaction(&mut seen, "tx1".to_string(), &outputs, &requests());
    assert_eq!(checks, vec![PaymentCheck::Paid { request: 1 }, PaymentCheck::Underpaid { request: 0 }]);
    assert_eq!(seen, vec!["tx1".to_string()]);
}

#[test]
fn transaction_handled_once() {
    let mut seen = vec![];
    let outputs = vec![TxOutput { address: "addr1".to_string(), amount: 30_000 }];
    let first = process_transaction(&mut seen, "tx1".to_string(), &outputs, &requests());
    assert_eq!(first, vec![PaymentCheck::Paid { request: 0 }]);
    let again = process_transaction(&mut seen, "tx1".to_string(), &outputs, &requests());
    assert_eq!(again, vec![]);
    assert_eq!(seen, vec!["tx1".to_string()]);
}

#[test]
fn negative_amount_reads_as_unsigned() {
    let mut seen = vec![];
    let outputs = vec![TxOutput { address: "addr2".to_string(), amount: -1 }];
    let checks = process_transaction(&mut seen, "tx".to_string(), &outputs, &requests());
    assert_eq!(checks, vec![PaymentCheck::Paid { request: 1 }]);
}

#[test]
fn forward_mailbox() {
    assert_eq!(forward_mailbox_text("a@b.com"), "nolooking Forward <a@b.com>");
}

#[test]
fn raw_notice_is_base64_of_message() {
    let data = ses_raw_message("vault@example.com", "[Channel Request]: 02abc".to_string(), "hello there".to_string()).unwrap();
    let raw = base64::decode(&data).unwrap();
    let text = String::from_utf8(raw).unwrap();
    assert!(text.contains("From: \"nolooking Forward\" <vault@example.com>"));
    assert!(text.contains("To: \"nolooking Forward\" <vault@example.com>"));
    assert!(text.contains("Subject: [Channel Request]: 02abc"));
    assert!(text.contains("hello there"));
    assert!(text.contains("Date: "));
}

#[test]
fn invalid_sender_is_refused() {
    assert_eq!(ses_raw_message("not an address", "s".to_string(), "b".to_string()), Err(NoticeError::InvalidSender));
}

#[test]
fn quoted_payment_is_recognised() {
    let (_, request, quote) = new_inbound_request(5, "02n".to_string(), 10, 1, "bc1qr".to_string(), "bc1pquote".to_string());
    let mut seen = vec!["older".to_string()];
    let outputs = vec![TxOutput { address: quote.address.clone(), amount: quote.price as i64 }];
    let checks = process_transaction(&mut seen, "txq".to_string(), &outputs, &vec![request]);
    assert_eq!(checks, vec![PaymentCheck::Paid { request: 0 }]);
    assert_eq!(seen, vec!["older".to_string(), "txq".to_string()]);
}

#[test]
fn forward_address_stops_at_first_closing_bracket() {
    let data = ses_raw_message("vault@example.com>junk", "s".to_string(), "b".to_string()).unwrap();
    let text = String::from_utf8(base64::decode(&data).unwrap()).unwrap();
    assert!(text.contains("From: \"nolooking Forward\" <vault@example.com>"));
    assert!(!text.contains("junk"));
}

#[test]
fn quoted_sender_with_angle_bracket_is_sent() {
    let data = ses_raw_message("\"a<b\"@example.com", "s".to_string(), "b".to_string()).unwrap();
    let text = String::from_utf8(base64::decode(&data).unwrap()).unwrap();
    assert!(text.contains("\"a<b\"@example.com"));
}
