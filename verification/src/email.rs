//! The notice e-mail: who it is from and to, and the raw message that the
//! mail service is handed, built with the `lettre` crate and encoded with the
//! `base64` crate.

use vstd::prelude::*;
use vstd::string::*;

use lettre::message::{Mailbox, MessageBuilder};
use lettre::Message;

use crate::config::{conf_value, parse_settings, read_setting, ConfError, ConfKey};
use crate::text::{first_index, lemma_first_index, trim, trim_end, trim_start};

verus! {

/// The outside type `lettre::message::Mailbox`, carried as an opaque value.
#[verifier::external_type_specification]
#[verifier::external_body]
pub struct ExMailbox(lettre::message::Mailbox);

/// The outside type `lettre::message::MessageBuilder`, carried as an opaque value.
#[verifier::external_type_specification]
#[verifier::external_body]
pub struct ExMessageBuilder(lettre::message::MessageBuilder);

/// The outside type `lettre::Message`, carried as an opaque value.
#[verifier::external_type_specification]
#[verifier::external_body]
pub struct ExMessage(lettre::Message);

/// The outside type `lettre::address::AddressError`, carried as an opaque value.
#[verifier::external_type_specification]
#[verifier::external_body]
pub struct ExAddressError(lettre::address::AddressError);

/// The outside type `lettre::error::Error`, carried as an opaque value.
#[verifier::external_type_specification]
#[verifier::external_body]
pub struct ExLettreError(lettre::error::Error);

/// The character that stands for a six-bit value in standard base64.
pub open spec fn base64_char(v: nat) -> char {
    if v < 26 {
        (65 + v) as char
    } else if v < 52 {
        (97 + (v - 26)) as char
    } else if v < 62 {
        (48 + (v - 52)) as char
    } else if v == 62 {
        '+'
    } else {
        '/'
    }
}

/// Standard base64 with padding (RFC 4648, section 4): each group of three
/// bytes becomes four characters; a last group of one or two bytes is padded
/// with `=` to four.
pub open spec fn base64_std(b: Seq<u8>) -> Seq<char>
    decreases b.len(),
{
    if b.len() == 0 {
        Seq::<char>::empty()
    } else if b.len() == 1 {
        seq![base64_char(b[0] as nat / 4), base64_char((b[0] as nat % 4) * 16), '=', '=']
    } else if b.len() == 2 {
        seq![
            base64_char(b[0] as nat / 4),
            base64_char((b[0] as nat % 4) * 16 + b[1] as nat / 16),
            base64_char((b[1] as nat % 16) * 4),
            '=',
        ]
    } else {
        seq![
            base64_char(b[0] as nat / 4),
            base64_char((b[0] as nat % 4) * 16 + b[1] as nat / 16),
            base64_char((b[1] as nat % 16) * 4 + b[2] as nat / 64),
            base64_char(b[2] as nat % 64),
        ] + base64_std(b.skip(3))
    }
}

/// `base64::encode`: claimed to give the standard base64 encoding with
/// padding, as the crate documents (`encode` uses the `STANDARD` config).
#[verifier::external_body]
fn base64_encode(bytes: &[u8]) -> (r: String)
    ensures
        r@ == base64_std(bytes@),
{
    base64::encode(bytes)
}

/// A mailbox as its two fields: the display name, if any, and the address.
pub type MailboxView = (Option<Seq<char>>, Seq<char>);

/// The fields of a mailbox: its display name as stored and its address text.
pub uninterp spec fn mailbox_view(m: Mailbox) -> MailboxView;

/// What `Mailbox::from_str` makes of a text, or `None` where it fails; it
/// depends on the text alone.
pub uninterp spec fn mailbox_parse(text: Seq<char>) -> Option<MailboxView>;

/// What `Mailbox::from_str` does with a text that has an angle bracket pair:
/// when the first `<` comes before the first `>`, the name is the text
/// before the `<` with surrounding whitespace trimmed (none if nothing is
/// left) and the address is the text between the two brackets.
pub open spec fn bracket_mailbox(text: Seq<char>, v: MailboxView) -> bool {
    match (first_index(text, '<'), first_index(text, '>')) {
        (Some(o), Some(c)) => o < c ==> v == (
            if trim(text.take(o)).len() == 0 {
                None
            } else {
                Some(trim(text.take(o)))
            },
            text.subrange(o + 1, c),
        ),
        _ => true,
    }
}

/// A byte of a display name that lettre writes as it is, without quoting
/// (`is_valid_atom_char`), taken over characters: every character of 128 or
/// above is written as UTF-8 bytes of 128 or above.
pub open spec fn is_atom_char(c: char) -> bool {
    ||| c == '\t'
    ||| c == ' '
    ||| c == '!'
    ||| '#' <= c <= '\''
    ||| c == '*'
    ||| c == '+'
    ||| c == '-'
    ||| c == '/'
    ||| '0' <= c <= '8'
    ||| c == '='
    ||| c == '?'
    ||| 'A' <= c <= 'Z'
    ||| '^' <= c <= '`'
    ||| 'a' <= c <= '~'
    ||| (c as u32) >= 128
}

/// lettre can write the mailbox into a header: its trimmed display name, if
/// any, has no line break (writing a quoted name with one fails).
pub open spec fn mailbox_writable(v: MailboxView) -> bool {
    v.0 matches Some(n) ==> !trim(n).contains('\n') && !trim(n).contains('\r')
}

/// The header lettre writes for the mailbox reads back as that one mailbox:
/// the display name, if any, is written without quoting (so it holds no `<`
/// and no comma), the address has no comma and no `>`, and the address has
/// no `<` unless a name is written before it (the name's `<` then opens the
/// address).
pub open spec fn mailbox_reparses(v: MailboxView) -> bool {
    &&& (v.0 matches Some(n) ==> forall|i: int| 0 <= i < n.len() ==> is_atom_char(#[trigger] n[i]))
    &&& !v.1.contains(',')
    &&& !v.1.contains('>')
    &&& (v.1.contains('<') ==> (v.0 matches Some(n) && trim(n).len() > 0))
}

/// `Mailbox::from_str`: claimed to succeed exactly when `mailbox_parse`
/// gives a mailbox, and then to give that mailbox; and, as its source shows,
/// for a text whose first `<` comes before its first `>`, to take the
/// trimmed text before the `<` as the name and the text between the brackets
/// as the address. Which error is reported is not stated.
#[verifier::external_body]
fn parse_mailbox(text: &str) -> (r: Result<Mailbox, lettre::address::AddressError>)
    ensures
        r is Ok <==> mailbox_parse(text@) is Some,
        r matches Ok(m) ==> mailbox_parse(text@) == Some(mailbox_view(m)),
        r matches Ok(m) ==> bracket_mailbox(text@, mailbox_view(m)),
{
    text.parse::<Mailbox>()
}

/// The headers that a builder holds: the one mailbox of its `From` header,
/// the one mailbox of its `To` header, and its subject, each if set.
pub uninterp spec fn builder_headers(b: MessageBuilder) -> (Option<MailboxView>, Option<MailboxView>, Option<Seq<char>>);

/// The builder holds no header but `From`, `To` and `Subject`, set in this
/// order as far as they are set (a later one only once the earlier ones are
/// there), `From` and `To` with one mailbox each, and leaves the envelope to
/// be derived from them.
pub uninterp spec fn builder_plain(b: MessageBuilder) -> bool;

/// What `Message::formatted` gives for the message.
pub uninterp spec fn message_bytes(m: Message) -> Seq<u8>;

/// The bytes, as `Message::formatted` gives them, of the message that
/// `MessageBuilder::body` builds from a builder that holds just the `From`
/// mailbox `from`, the `To` mailbox `to` and the subject `subject`, set in
/// this order, with the
/// text body `body`, when the clock reads `date` seconds after the Unix
/// epoch.
pub uninterp spec fn notice_format(
    from: MailboxView,
    to: MailboxView,
    subject: Seq<char>,
    body: Seq<char>,
    date: nat,
) -> Seq<u8>;

/// `Message::builder`: claimed to give a builder without headers.
#[verifier::external_body]
fn message_builder() -> (r: MessageBuilder)
    ensures
        builder_plain(r),
        builder_headers(r) == (None::<MailboxView>, None::<MailboxView>, None::<Seq<char>>),
{
    Message::builder()
}

/// `MessageBuilder::from`: claimed, for a plain builder without headers, to
/// set the `From` header to the mailbox. Writing the mailbox panics where its
/// name has a line break, so that is excluded. What a second `From` mailbox
/// does is not stated.
#[verifier::external_body]
fn builder_from(builder: MessageBuilder, mailbox: Mailbox) -> (r: MessageBuilder)
    requires
        mailbox_writable(mailbox_view(mailbox)),
    ensures
        builder_plain(builder) && builder_headers(builder) == (
            None::<MailboxView>,
            None::<MailboxView>,
            None::<Seq<char>>,
        ) ==> builder_plain(r) && builder_headers(r) == (
            Some(mailbox_view(mailbox)),
            None::<MailboxView>,
            None::<Seq<char>>,
        ),
{
    builder.from(mailbox)
}

/// `MessageBuilder::to`: claimed, for a plain builder that holds just a
/// `From` header, to set the `To` header to the mailbox. Writing the mailbox panics where its name has a
/// line break, so that is excluded. What a second `To` mailbox does is not
/// stated.
#[verifier::external_body]
fn builder_to(builder: MessageBuilder, mailbox: Mailbox) -> (r: MessageBuilder)
    requires
        mailbox_writable(mailbox_view(mailbox)),
    ensures
        builder_plain(builder) && builder_headers(builder).0 is Some && builder_headers(
            builder,
        ).1 is None && builder_headers(builder).2 is None ==> builder_plain(r) && builder_headers(r)
            == (builder_headers(builder).0, Some(mailbox_view(mailbox)), None::<Seq<char>>),
{
    builder.to(mailbox)
}

/// `MessageBuilder::subject`: claimed, for a plain builder that holds just a
/// `From` and a `To` header, to set the subject after them. What it does to
/// other builders is not stated.
#[verifier::external_body]
fn builder_subject(builder: MessageBuilder, subject: String) -> (r: MessageBuilder)
    ensures
        builder_plain(builder) && builder_headers(builder).0 is Some && builder_headers(
            builder,
        ).1 is Some && builder_headers(builder).2 is None ==> builder_plain(r) && builder_headers(
            r,
        ) == (builder_headers(builder).0, builder_headers(builder).1, Some(subject@)),
{
    builder.subject(subject)
}

/// `MessageBuilder::body`: builds the message with a text body, adding a
/// `Date` header from the clock. Claimed for a plain builder with a `From`
/// mailbox, a `To` mailbox and a subject: the built message formats as
/// `notice_format` of them, the body and some time; and it is built whenever
/// both mailboxes read back from their headers (building reads the `From`
/// and `To` headers back, and fails only where one is missing). What happens
/// when a mailbox does not read back is not stated.
#[verifier::external_body]
fn builder_body(builder: MessageBuilder, body: String) -> (r: Result<Message, lettre::error::Error>)
    ensures
        ({
            let h = builder_headers(builder);
            builder_plain(builder) && h.0 is Some && h.1 is Some && h.2 is Some ==> {
                &&& (mailbox_reparses(h.0->0) && mailbox_reparses(h.1->0) ==> r is Ok)
                &&& (r matches Ok(m) ==> exists|date: nat|
                    message_bytes(m) == notice_format(h.0->0, h.1->0, h.2->0, body@, date))
            }
        }),
{
    builder.body(body)
}

/// `Message::formatted`: the message as it is sent.
#[verifier::external_body]
fn message_formatted(message: &Message) -> (r: Vec<u8>)
    ensures
        r@ == message_bytes(*message),
{
    message.formatted()
}

/// The mailbox that notices come from and go to: the sender address under
/// the name "nolooking Forward".
pub open spec fn forward_mailbox(sender: Seq<char>) -> Seq<char> {
    "nolooking Forward <"@ + sender + ">"@
}

/// The mailbox text for `sender`.
pub fn forward_mailbox_text(sender: &str) -> (t: String)
    ensures
        t@ == forward_mailbox(sender@),
{
    let mut t: String = "nolooking Forward <".to_owned();
    t.append(sender);
    t.append(">");
    t
}

/// The address that notices come from and go to, read from the settings
/// file `config_text`.
pub fn email_sender(config_text: String) -> (r: Result<String, ConfError>)
    ensures
        match r {
            Ok(s) => conf_value(config_text@, ConfKey::EmailSender) == Some(s@),
            Err(ConfError::Unparsable) => crate::config::ini_parse(config_text@) is None,
            Err(ConfError::Missing(k)) => k == ConfKey::EmailSender
                && crate::config::ini_parse(config_text@) is Some
                && conf_value(config_text@, k) is None,
        },
{
    let ini = match parse_settings(config_text) {
        Some(ini) => ini,
        None => return Err(ConfError::Unparsable),
    };
    match read_setting(&ini, ConfKey::EmailSender) {
        Some(s) => Ok(s),
        None => Err(ConfError::Missing(ConfKey::EmailSender)),
    }
}

/// Why a notice could not be made.
#[derive(Clone, Copy, Debug, PartialEq, Eq, Structural)]
pub enum NoticeError {
    /// The sender's mailbox is no valid mailbox.
    InvalidSender,
    /// The message could not be built.
    Build,
}

/// The address part of the forward mailbox: the sender address up to its
/// first `>`, as `Mailbox::from_str` cuts it.
pub open spec fn forward_address(sender: Seq<char>) -> Seq<char> {
    match first_index(sender, '>') {
        Some(k) => sender.take(k),
        None => sender,
    }
}

/// The mailbox that the forward mailbox text parses to, where it parses.
pub open spec fn forward_mailbox_view(sender: Seq<char>) -> MailboxView {
    (Some("nolooking Forward"@), forward_address(sender))
}

proof fn lemma_forward_mailbox_brackets(sender: Seq<char>)
    ensures
        forall|v: MailboxView| bracket_mailbox(forward_mailbox(sender), v) ==> v
            == forward_mailbox_view(sender),
{
    let fm = forward_mailbox(sender);
    let prefix = "nolooking Forward <"@;
    reveal_strlit("nolooking Forward <");
    reveal_strlit(">");
    reveal_strlit("nolooking Forward");
    assert(prefix.len() == 19);
    assert(fm.len() == 20 + sender.len());
    assert forall|j: int| 0 <= j < 19 implies fm[j] == prefix[j] by {}
    assert forall|j: int| 0 <= j < sender.len() implies fm[19 + j] == sender[j] by {}
    assert(fm[fm.len() - 1] == '>');
    // the first '<' is the one of the prefix
    lemma_first_index(fm, '<');
    assert(fm[18] == '<');
    assert(fm.contains('<'));
    let o = first_index(fm, '<')->0;
    assert(o == 18) by {
        if o < 18 {
            assert(fm[o] == prefix[o]);
        } else if o > 18 {
            assert(fm[18] != '<');
        }
    }
    // the first '>' is the sender's first, or else the closing one
    lemma_first_index(fm, '>');
    assert(fm.contains('>'));
    let c = first_index(fm, '>')->0;
    assert(c >= 19) by {
        if c < 19 {
            assert(fm[c] == prefix[c]);
        }
    }
    lemma_first_index(sender, '>');
    match first_index(sender, '>') {
        Some(k) => {
            assert(fm[19 + k] == '>');
            assert(c == 19 + k) by {
                if c < 19 + k {
                    assert(fm[c] == sender[c - 19]);
                } else if c > 19 + k {
                    assert(fm[19 + k] != '>');
                }
            }
        },
        None => {
            assert(c == fm.len() - 1) by {
                if c < fm.len() - 1 {
                    assert(fm[c] == sender[c - 19]);
                    assert(sender.contains('>'));
                }
            }
        },
    }
    assert(fm.subrange(19, c) =~= forward_address(sender));
    // the name
    let name_part = fm.take(18);
    assert(name_part =~= "nolooking Forward"@.push(' '));
    assert(trim_start(name_part) == name_part);
    assert(name_part.drop_last() =~= "nolooking Forward"@);
    assert(trim_end(name_part.drop_last()) == name_part.drop_last());
    assert(trim_end(name_part) == name_part.drop_last());
    assert(trim(name_part) =~= "nolooking Forward"@);
}

proof fn lemma_forward_mailbox_usable(sender: Seq<char>)
    ensures
        mailbox_writable(forward_mailbox_view(sender)),
        !sender.contains(',') ==> mailbox_reparses(
            forward_mailbox_view(sender),
        ),
{
    let name = "nolooking Forward"@;
    reveal_strlit("nolooking Forward");
    assert(trim_start(name) == name);
    assert(trim_end(name) == name);
    assert(!trim(name).contains('\n'));
    assert(!trim(name).contains('\r'));
    assert forall|i: int| 0 <= i < name.len() implies is_atom_char(#[trigger] name[i]) by {}
    let a = forward_address(sender);
    lemma_first_index(sender, '>');
    match first_index(sender, '>') {
        Some(k) => {
            assert forall|j: int| 0 <= j < a.len() implies a[j] != '>' by {
                assert(a[j] == sender[j]);
            }
        },
        None => {},
    }
    if !sender.contains(',') {
        assert forall|j: int| 0 <= j < a.len() implies a[j] != ',' by {
            assert(a[j] == sender[j]);
        }
    }
    assert(trim(name).len() > 0);
}

/// The raw notice message, base64-encoded as the mail service takes it: from
/// and to the sender's forward mailbox, with `subject` and `body`. It fails
/// with `InvalidSender` exactly when the mailbox text is no mailbox; it
/// succeeds whenever the mailbox parses and the sender address has no comma
/// (lettre splits the header it reads back on commas, so a comma, possible in
/// a quoted address, can make building fail); what comes back is base64 of the formatted message from
/// and to "nolooking Forward" at the sender address, with the subject and
/// the body, dated at some time.
pub fn ses_raw_message(sender: &str, subject: String, body: String) -> (r: Result<String, NoticeError>)
    ensures
        r == Err::<String, NoticeError>(NoticeError::InvalidSender) <==> mailbox_parse(
            forward_mailbox(sender@),
        ) is None,
        mailbox_parse(forward_mailbox(sender@)) is Some && !sender@.contains(',') ==> r is Ok,
        r is Ok ==> mailbox_parse(forward_mailbox(sender@)) == Some(forward_mailbox_view(sender@)),
        r matches Ok(data) ==> exists|date: nat|
            data@ == base64_std(
                notice_format(
                    forward_mailbox_view(sender@),
                    forward_mailbox_view(sender@),
                    subject@,
                    body@,
                    date,
                ),
            ),
{
    let ghost subject_text = subject@;
    let ghost body_text = body@;
    let mailbox: String = forward_mailbox_text(sender);
    proof {
        lemma_forward_mailbox_brackets(sender@);
        lemma_forward_mailbox_usable(sender@);
    }
    let from: Mailbox = match parse_mailbox(mailbox.as_str()) {
        Ok(m) => m,
        Err(_) => return Err(NoticeError::InvalidSender),
    };
    let to: Mailbox = match parse_mailbox(mailbox.as_str()) {
        Ok(m) => m,
        Err(_) => return Err(NoticeError::InvalidSender),
    };
    let ghost v = forward_mailbox_view(sender@);
    assert(mailbox_view(from) == v);
    assert(mailbox_view(to) == v);
    let b0: MessageBuilder = message_builder();
    let b1: MessageBuilder = builder_from(b0, from);
    let b2: MessageBuilder = builder_to(b1, to);
    let b3: MessageBuilder = builder_subject(b2, subject);
    assert(builder_plain(b3) && builder_headers(b3) == (Some(v), Some(v), Some(subject_text)));
    let message: Message = match builder_body(b3, body) {
        Ok(m) => m,
        Err(_) => return Err(NoticeError::Build),
    };
    let raw: Vec<u8> = message_formatted(&message);
    let data: String = base64_encode(raw.as_slice());
    let ghost date = choose|date: nat| message_bytes(message) == notice_format(v, v, subject_text, body_text, date);
    assert(data@ == base64_std(notice_format(v, v, subject_text, body_text, date)));
    Ok(data)
}

} // verus!
