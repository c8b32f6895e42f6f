//! The settings file, read with the `configparser` crate.
//!
//! The file is an INI file; the payment page reads the connection to its
//! Lightning node from the section `lnd` and the address that notices are
//! sent from and to from the section `email`.

use vstd::prelude::*;

use configparser::ini::Ini;

verus! {

/// The outside type `configparser::ini::Ini`, carried as an opaque value.
#[verifier::external_type_specification]
#[verifier::external_body]
pub struct ExIni(configparser::ini::Ini);

/// The settings of an INI file: for each section, for each key, its value if
/// the line had one.
pub type IniSections = Map<Seq<char>, Map<Seq<char>, Option<Seq<char>>>>;

/// The sections and keys that an `Ini` holds.
pub uninterp spec fn ini_contents(ini: Ini) -> IniSections;

/// The `Ini` has the settings of `Ini::new`: keys and section names folded
/// to lower case, `;` and `#` comments, `=` and `:` between key and value, no
/// falling back on the default section.
pub uninterp spec fn ini_has_default_settings(ini: Ini) -> bool;

/// What `Ini::read` makes of a text with the default settings, or `None`
/// where it reports an error.
pub uninterp spec fn ini_parse(text: Seq<char>) -> Option<IniSections>;

/// The value of `key` in `section`, if both are there and the key has one.
pub open spec fn ini_lookup(m: IniSections, section: Seq<char>, key: Seq<char>) -> Option<Seq<char>> {
    if m.contains_key(section) && m[section].contains_key(key) {
        m[section][key]
    } else {
        None
    }
}

/// ASCII without upper-case letters: text that case folding leaves as it is.
pub open spec fn is_lower_ascii(s: Seq<char>) -> bool {
    forall|i: int| 0 <= i < s.len() ==> (#[trigger] s[i]) <= '\u{7f}' && !('A' <= s[i] <= 'Z')
}

/// `Ini::new`: claimed to give an `Ini` with no sections and the default
/// settings, as the crate's source does.
#[verifier::external_body]
fn ini_new() -> (ini: Ini)
    ensures
        ini_contents(ini) == IniSections::empty(),
        ini_has_default_settings(ini),
{
    Ini::new()
}

/// `Ini::read`: claimed to replace the contents with what the text parses
/// to, or to leave them and report failure where it does not parse; the
/// settings stay. The error message and the returned copy are not passed on.
#[verifier::external_body]
fn ini_read(ini: &mut Ini, text: String) -> (ok: bool)
    requires
        ini_has_default_settings(*old(ini)),
    ensures
        ini_has_default_settings(*final(ini)),
        ok == ini_parse(text@) is Some,
        ok ==> ini_contents(*final(ini)) == ini_parse(text@)->0,
        !ok ==> ini_contents(*final(ini)) == ini_contents(*old(ini)),
{
    match ini.read(text) {
        Ok(_) => true,
        Err(_) => false,
    }
}

/// `Ini::get`: claimed to give the value of `key` in `section`. Case folding
/// leaves the lower-case ASCII names that this crate asks for as they are,
/// and without falling back on the default section nothing else is looked up.
#[verifier::external_body]
fn ini_get(ini: &Ini, section: &str, key: &str) -> (r: Option<String>)
    requires
        ini_has_default_settings(*ini),
        is_lower_ascii(section@),
        is_lower_ascii(key@),
    ensures
        match r {
            Some(v) => ini_lookup(ini_contents(*ini), section@, key@) == Some(v@),
            None => ini_lookup(ini_contents(*ini), section@, key@) is None,
        },
{
    ini.get(section, key)
}

/// A setting that the payment page reads.
#[derive(Clone, Copy, Debug, PartialEq, Eq, Structural)]
pub enum ConfKey {
    /// `address` in `[lnd]`: where the node's gRPC interface listens.
    LndAddress,
    /// `certfile` in `[lnd]`: the node's TLS certificate.
    LndCertFile,
    /// `macaroonfile` in `[lnd]`: the macaroon that grants access.
    LndMacaroonFile,
    /// `defaultlabel` in `[lnd]`: the memo of invoices without a message.
    LndDefaultLabel,
    /// `sender` in `[email]`: the address that notices come from and go to.
    EmailSender,
}

/// Why the settings could not be read.
#[derive(Clone, Copy, Debug, PartialEq, Eq, Structural)]
pub enum ConfError {
    /// The file is no INI file.
    Unparsable,
    /// The file lacks this setting.
    Missing(ConfKey),
}

/// The section of a setting.
pub open spec fn key_section(k: ConfKey) -> Seq<char> {
    match k {
        ConfKey::EmailSender => "email"@,
        _ => "lnd"@,
    }
}

/// The name of a setting within its section.
pub open spec fn key_name(k: ConfKey) -> Seq<char> {
    match k {
        ConfKey::LndAddress => "address"@,
        ConfKey::LndCertFile => "certfile"@,
        ConfKey::LndMacaroonFile => "macaroonfile"@,
        ConfKey::LndDefaultLabel => "defaultlabel"@,
        ConfKey::EmailSender => "sender"@,
    }
}

/// The value of a setting in the settings file `text`.
pub open spec fn conf_value(text: Seq<char>, k: ConfKey) -> Option<Seq<char>> {
    match ini_parse(text) {
        Some(m) => ini_lookup(m, key_section(k), key_name(k)),
        None => None,
    }
}

/// The parsed settings file `text`, or `None` where it does not parse.
pub(crate) fn parse_settings(text: String) -> (r: Option<Ini>)
    ensures
        match r {
            Some(ini) => ini_parse(text@) == Some(ini_contents(ini)) && ini_has_default_settings(ini),
            None => ini_parse(text@) is None,
        },
{
    let mut ini: Ini = ini_new();
    if ini_read(&mut ini, text) {
        Some(ini)
    } else {
        None
    }
}

/// The value of setting `k`.
pub(crate) fn read_setting(ini: &Ini, k: ConfKey) -> (r: Option<String>)
    requires
        ini_has_default_settings(*ini),
    ensures
        match r {
            Some(v) => ini_lookup(ini_contents(*ini), key_section(k), key_name(k)) == Some(v@),
            None => ini_lookup(ini_contents(*ini), key_section(k), key_name(k)) is None,
        },
{
    proof {
        reveal_strlit("lnd");
        reveal_strlit("email");
        reveal_strlit("address");
        reveal_strlit("certfile");
        reveal_strlit("macaroonfile");
        reveal_strlit("defaultlabel");
        reveal_strlit("sender");
    }
    let section: &str = match k {
        ConfKey::EmailSender => "email",
        _ => "lnd",
    };
    let key: &str = match k {
        ConfKey::LndAddress => "address",
        ConfKey::LndCertFile => "certfile",
        ConfKey::LndMacaroonFile => "macaroonfile",
        ConfKey::LndDefaultLabel => "defaultlabel",
        ConfKey::EmailSender => "sender",
    };
    ini_get(ini, section, key)
}

} // verus!
