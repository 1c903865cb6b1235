//! TLS options: who is trusted, who the client is, and under which name the server is checked.

use crate::cli::TlsArgs;
use crate::diagnostic;
use crate::error;
use crate::error::{AppError, ErrorView, Result};
use crate::ipv6;
use crate::os_text::OsText;
use crate::text;
use crate::validation;
use rustls::pki_types::{CertificateDer, PrivateKeyDer, ServerName};
use vstd::prelude::*;

verus! {

/// Whether the build carries public root certificates.
#[derive(Clone, Copy, Debug)]
pub enum BundledRoots {
    Included,
    Omitted,
}

/// A certificate in its binary form.
#[derive(Debug)]
pub struct Certificate {
    pub der: Vec<u8>,
}

/// The format of a private key.
#[derive(Clone, Copy, Debug, PartialEq, Eq, Structural)]
pub enum KeyFormat {
    Pkcs1,
    Sec1,
    Pkcs8,
}

/// A private key in its binary form.
#[derive(Debug)]
pub struct ClientKey {
    pub format: KeyFormat,
    pub der: Vec<u8>,
}

/// A [`ClientKey`] with its bytes as a sequence.
pub struct KeyView {
    pub format: KeyFormat,
    pub der: Seq<u8>,
}

impl View for ClientKey {
    type V = KeyView;

    open spec fn view(&self) -> KeyView {
        KeyView { format: self.format, der: self.der@ }
    }
}

/// The binary form of each certificate.
pub open spec fn cert_views(certs: Seq<Certificate>) -> Seq<Seq<u8>> {
    Seq::new(certs.len(), |i: int| certs[i].der@)
}

/// The text of the server name that `ServerName` reads from a text, or the message of its error.
pub uninterp spec fn parsed_server_name(s: Seq<char>) -> core::result::Result<Seq<char>, Seq<char>>;

/// The certificates that `rustls_pemfile::certs` finds, or the message of its first error.
pub uninterp spec fn pem_certificates(pem: Seq<u8>) -> core::result::Result<
    Seq<Seq<u8>>,
    Seq<char>,
>;

/// The key that `rustls_pemfile::private_key` finds, if it finds one, or the message of its error.
pub uninterp spec fn pem_key(pem: Seq<u8>) -> core::result::Result<Option<KeyView>, Seq<char>>;

/// Why `RootCertStore::add` refuses a certificate, if it does.
pub uninterp spec fn anchor_error(der: Seq<u8>) -> Option<Seq<char>>;

/// `<rustls::pki_types::ServerName as TryFrom<String>>::try_from` and `ServerName::to_str`: the text
/// of the name or the message of the error, under the name `parsed_server_name`.
#[verifier::external_body]
fn parse_server_name(raw: &str) -> (r: core::result::Result<String, String>)
    ensures
        match r {
            Ok(name) => parsed_server_name(raw@) == core::result::Result::<Seq<char>, Seq<char>>::Ok(
                name@,
            ),
            Err(message) => parsed_server_name(raw@) == core::result::Result::<
                Seq<char>,
                Seq<char>,
            >::Err(message@),
        },
{
    match ServerName::try_from(raw.to_owned()) {
        Ok(name) => Ok(name.to_str().into_owned()),
        Err(error) => Err(error.to_string()),
    }
}

/// `rustls_pemfile::certs` on bytes: the binary form of each certificate in its order or the
/// message of the first error, under the name `pem_certificates`.
#[verifier::external_body]
fn read_certificates(pem: &[u8]) -> (r: core::result::Result<Vec<Certificate>, String>)
    ensures
        match r {
            Ok(certs) => pem_certificates(pem@) == core::result::Result::<
                Seq<Seq<u8>>,
                Seq<char>,
            >::Ok(cert_views(certs@)),
            Err(message) => pem_certificates(pem@) == core::result::Result::<
                Seq<Seq<u8>>,
                Seq<char>,
            >::Err(message@),
        },
{
    let mut rest = pem;
    rustls_pemfile::certs(&mut rest)
        .map(|cert| cert.map(|cert| Certificate { der: cert.to_vec() }))
        .collect::<core::result::Result<Vec<Certificate>, _>>()
        .map_err(|error| error.to_string())
}

/// `rustls_pemfile::private_key` on bytes: the first private key, that there is none, or the message
/// of the error, under the name `pem_key`.
#[verifier::external_body]
fn read_key(pem: &[u8]) -> (r: core::result::Result<Option<ClientKey>, String>)
    ensures
        match r {
            Ok(Some(key)) => pem_key(pem@) == core::result::Result::<Option<KeyView>, Seq<char>>::Ok(
                Some(key@),
            ),
            Ok(None) => pem_key(pem@) == core::result::Result::<Option<KeyView>, Seq<char>>::Ok(
                None,
            ),
            Err(message) => pem_key(pem@) == core::result::Result::<Option<KeyView>, Seq<char>>::Err(
                message@,
            ),
        },
{
    let mut rest = pem;
    let key = rustls_pemfile::private_key(&mut rest).map_err(|error| error.to_string())?;
    Ok(key.map(|key| ClientKey {
        format: match &key {
            PrivateKeyDer::Pkcs1(_) => KeyFormat::Pkcs1,
            PrivateKeyDer::Sec1(_) => KeyFormat::Sec1,
            _ => KeyFormat::Pkcs8,
        },
        der: key.secret_der().to_vec(),
    }))
}

/// `rustls::RootCertStore::add` on an empty store: the message of its error, if it refuses the
/// certificate, under the name `anchor_error`.
#[verifier::external_body]
fn check_anchor(cert: &Certificate) -> (r: Option<String>)
    ensures
        match r {
            Some(message) => anchor_error(cert.der@) == Some(message@),
            None => anchor_error(cert.der@) is None,
        },
{
    let mut store = rustls::RootCertStore::empty();
    match store.add(CertificateDer::from(cert.der.as_slice())) {
        Ok(()) => None,
        Err(error) => Some(error.to_string()),
    }
}

/// The name that a server name override stands for: without the brackets of an IPv6 address, the
/// only ones allowed.
pub open spec fn plain_server_name(raw: Seq<char>) -> Option<Seq<char>> {
    if !text::begins_with(raw, '[') {
        if raw.contains('[') || raw.contains(']') {
            None
        } else {
            Some(raw)
        }
    } else {
        let inner = raw.skip(1);
        if text::ends_with(inner, ']') && ipv6::is_ipv6(inner.drop_last()) {
            Some(inner.drop_last())
        } else {
            None
        }
    }
}

/// The error for a server name override.
pub open spec fn server_name_message(raw: Seq<char>, reason: Seq<char>) -> Seq<char> {
    "invalid TLS server name override "@ + diagnostic::debug_text(raw) + ": "@ + reason
}

/// What is wrong with a server name override, given what parsing its plain name gives.
pub open spec fn server_name_fault(
    raw: Seq<char>,
    parsed: core::result::Result<Seq<char>, Seq<char>>,
) -> Option<ErrorView> {
    if plain_server_name(raw) is None {
        error::config_fault(
            server_name_message(raw, "brackets are only allowed around IPv6 addresses"@),
        )
    } else {
        match parsed {
            Ok(_) => None,
            Err(message) => error::config_fault(server_name_message(raw, message)),
        }
    }
}

/// What parsing a server name override gives.
pub open spec fn override_parsed(raw: Seq<char>) -> core::result::Result<Seq<char>, Seq<char>> {
    parsed_server_name(plain_server_name(raw)->0)
}

/// What is wrong with the server name of the options.
pub open spec fn name_fault(tls: TlsArgs) -> Option<ErrorView> {
    match tls.server_name {
        Some(raw) => server_name_fault(raw@, override_parsed(raw@)),
        None => None,
    }
}

/// A certificate and its key come together or not at all.
pub open spec fn identity_fault(tls: TlsArgs) -> Option<ErrorView> {
    if (tls.cert is Some) != (tls.key is Some) {
        error::config_fault("--cert and --key must be provided together"@)
    } else {
        None
    }
}

/// Trusting a certificate and trusting every server exclude each other.
pub open spec fn trust_fault(tls: TlsArgs) -> Option<ErrorView> {
    if tls.insecure_skip_verify && tls.ca is Some {
        error::config_fault("--ca cannot be used with --insecure-skip-verify"@)
    } else {
        None
    }
}

/// The paths of the files must not be empty.
pub open spec fn files_fault(tls: TlsArgs) -> Option<ErrorView> {
    error::first_fault(
        validation::optional_path_fault("--ca"@, tls.ca),
        error::first_fault(
            validation::optional_path_fault("--cert"@, tls.cert),
            validation::optional_path_fault("--key"@, tls.key),
        ),
    )
}

/// Someone must be trusted.
pub open spec fn anchor_fault(tls: TlsArgs, roots: BundledRoots) -> Option<ErrorView> {
    if tls.insecure_skip_verify || tls.ca is Some || roots is Included {
        None
    } else {
        error::config_fault(
            "TLS trust store is empty because bundled roots are disabled; provide --ca or --insecure-skip-verify"@,
        )
    }
}

/// What is wrong with the TLS options: the server name first, then the client identity, the trust,
/// the paths, and last whether anyone is trusted at all.
pub open spec fn options_fault(tls: TlsArgs, roots: BundledRoots) -> Option<ErrorView> {
    error::first_fault(
        name_fault(tls),
        error::first_fault(
            identity_fault(tls),
            error::first_fault(
                trust_fault(tls),
                error::first_fault(files_fault(tls), anchor_fault(tls, roots)),
            ),
        ),
    )
}

/// Whether any TLS option is given.
pub open spec fn any_option(tls: TlsArgs) -> bool {
    tls.ca is Some || tls.cert is Some || tls.key is Some || tls.server_name is Some
        || tls.insecure_skip_verify
}

/// Accepted options trust someone, never both everyone and a certificate of their own, and name a
/// client certificate exactly when they name its key.
pub proof fn lemma_accepted_options(tls: TlsArgs, roots: BundledRoots)
    requires
        options_fault(tls, roots) is None,
    ensures
        tls.insecure_skip_verify || tls.ca is Some || roots is Included,
        !(tls.insecure_skip_verify && tls.ca is Some),
        tls.cert is Some <==> tls.key is Some,
        tls.ca matches Some(path) ==> path@.len() > 0,
        tls.cert matches Some(path) ==> path@.len() > 0,
        tls.key matches Some(path) ==> path@.len() > 0,
{
}

/// Whether any TLS option is given.
pub fn has_tls_flags(tls: &TlsArgs) -> (r: bool)
    ensures
        r == any_option(*tls),
{
    tls.ca.is_some() || tls.cert.is_some() || tls.key.is_some() || tls.server_name.is_some()
        || tls.insecure_skip_verify
}

/// The options must fit together, and someone must be trusted.
pub fn validate_tls_options(tls: &TlsArgs, roots: BundledRoots) -> (r: Result<()>)
    ensures
        error::fault(r) == options_fault(*tls, roots),
{
    if let Some(server_name) = &tls.server_name {
        match parse_server_name_override(server_name.as_str()) {
            Ok(_) => {},
            Err(e) => {
                return Err(e);
            },
        }
    }
    validate_client_identity_args(tls)?;
    validate_trust_args(tls)?;
    validate_tls_file_args(tls)?;
    validate_tls_trust_available(tls, roots)
}

/// A certificate and its key come together or not at all.
fn validate_client_identity_args(tls: &TlsArgs) -> (r: Result<()>)
    ensures
        error::fault(r) == identity_fault(*tls),
{
    if tls.cert.is_some() != tls.key.is_some() {
        return Err(
            AppError::invalid_config("--cert and --key must be provided together".to_owned()),
        );
    }
    Ok(())
}

/// Trusting a certificate and trusting every server exclude each other.
fn validate_trust_args(tls: &TlsArgs) -> (r: Result<()>)
    ensures
        error::fault(r) == trust_fault(*tls),
{
    if tls.insecure_skip_verify && tls.ca.is_some() {
        return Err(
            AppError::invalid_config("--ca cannot be used with --insecure-skip-verify".to_owned()),
        );
    }
    Ok(())
}

/// The paths of the files must not be empty.
fn validate_tls_file_args(tls: &TlsArgs) -> (r: Result<()>)
    ensures
        error::fault(r) == files_fault(*tls),
{
    validate_optional_path("--ca", &tls.ca)?;
    validate_optional_path("--cert", &tls.cert)?;
    validate_optional_path("--key", &tls.key)
}

/// A path must not be empty where it is given.
fn validate_optional_path(flag: &str, path: &Option<OsText>) -> (r: Result<()>)
    ensures
        error::fault(r) == validation::optional_path_fault(flag@, *path),
{
    match path {
        Some(path) => validation::validate_non_empty_path(flag, path),
        None => Ok(()),
    }
}

/// Someone must be trusted: every server, a certificate of one's own, or the bundled roots.
pub fn validate_tls_trust_available(tls: &TlsArgs, roots: BundledRoots) -> (r: Result<()>)
    ensures
        error::fault(r) == anchor_fault(*tls, roots),
{
    if tls.insecure_skip_verify || tls.ca.is_some() {
        return Ok(());
    }
    validate_bundled_roots_available(roots)
}

/// The build must carry public root certificates.
fn validate_bundled_roots_available(roots: BundledRoots) -> (r: Result<()>)
    ensures
        error::fault(r) == if roots is Included {
            None
        } else {
            error::config_fault(
                "TLS trust store is empty because bundled roots are disabled; provide --ca or --insecure-skip-verify"@,
            )
        },
{
    match roots {
        BundledRoots::Included => Ok(()),
        BundledRoots::Omitted => Err(
            AppError::invalid_config(
                "TLS trust store is empty because bundled roots are disabled; provide --ca or --insecure-skip-verify".to_owned(),
            ),
        ),
    }
}

/// The error for a server name override.
fn server_name_error(raw: &str, reason: &str) -> (r: AppError)
    ensures
        r@ == ErrorView::InvalidConfig(server_name_message(raw@, reason@)),
{
    let mut message = "invalid TLS server name override ".to_owned();
    message.append(diagnostic::debug(raw).as_str());
    message.append(": ");
    message.append(reason);
    AppError::invalid_config(message)
}

/// The plain name of a server name override: without the brackets of an IPv6 address.
pub fn normalize_server_name_override(raw: &str) -> (r: Result<&str>)
    ensures
        match r {
            Ok(name) => plain_server_name(raw@) == Some(name@),
            Err(e) => plain_server_name(raw@) is None && e@ == ErrorView::InvalidConfig(
                server_name_message(raw@, "brackets are only allowed around IPv6 addresses"@),
            ),
        },
{
    if !text::starts_with_char(raw, '[') {
        if text::has_char(raw, '[') || text::has_char(raw, ']') {
            return Err(
                server_name_error(raw, "brackets are only allowed around IPv6 addresses"),
            );
        }
        return Ok(raw);
    }
    let inner = text::after_first(raw);
    let n: usize = inner.unicode_len();
    if n > 0 && inner.get_char(n - 1) == ']' {
        let name = inner.substring_char(0, n - 1);
        assert(name@ =~= inner@.drop_last());
        if ipv6::is_ipv6_text(name) {
            return Ok(name);
        }
    }
    Err(server_name_error(raw, "brackets are only allowed around IPv6 addresses"))
}

/// The server name under which a parsed override is used, or the error for it.
pub fn accept_server_name(raw: &str, parsed: core::result::Result<String, String>) -> (r: Result<
    String,
>)
    ensures
        match parsed {
            Ok(name) => r == core::result::Result::<String, AppError>::Ok(name),
            Err(message) => error::fault(r) == error::config_fault(
                server_name_message(raw@, message@),
            ),
        },
{
    match parsed {
        Ok(name) => Ok(name),
        Err(message) => Err(server_name_error(raw, message.as_str())),
    }
}

/// The server name that an override stands for: a DNS name or an IP address, an IPv6 address with
/// or without brackets.
pub fn parse_server_name_override(raw: &str) -> (r: Result<String>)
    ensures
        error::fault(r) == server_name_fault(raw@, override_parsed(raw@)),
        r matches Ok(name) ==> override_parsed(raw@) == core::result::Result::<
            Seq<char>,
            Seq<char>,
        >::Ok(name@),
{
    let name = normalize_server_name_override(raw)?;
    accept_server_name(raw, parse_server_name(name))
}

/// Whom a client trusts.
#[derive(Debug)]
pub enum Trust<'a> {
    /// Every server.
    Everyone,
    /// The servers that the bundled roots vouch for, where there are any, and those that the
    /// certificates in a file vouch for, where one is given.
    Roots { bundled: bool, ca: Option<&'a OsText> },
}

/// Whom the options trust.
pub fn trust(tls: &TlsArgs, roots: BundledRoots) -> (r: Trust<'_>)
    ensures
        match r {
            Trust::Everyone => tls.insecure_skip_verify,
            Trust::Roots { bundled, ca } => {
                &&& !tls.insecure_skip_verify
                &&& bundled == (roots is Included)
                &&& match ca {
                    Some(path) => tls.ca == Some(*path),
                    None => tls.ca is None,
                }
            },
        },
{
    if tls.insecure_skip_verify {
        return Trust::Everyone;
    }
    let bundled = match roots {
        BundledRoots::Included => true,
        BundledRoots::Omitted => false,
    };
    let ca = match &tls.ca {
        Some(path) => Some(path),
        None => None,
    };
    Trust::Roots { bundled, ca }
}

/// The files that tell who the client is, where they are given.
pub fn identity_files(tls: &TlsArgs) -> (r: Result<Option<(&OsText, &OsText)>>)
    ensures
        error::fault(r) == identity_fault(*tls),
        r matches Ok(files) ==> match files {
            Some((cert, key)) => tls.cert == Some(*cert) && tls.key == Some(*key),
            None => tls.cert is None && tls.key is None,
        },
{
    validate_client_identity_args(tls)?;
    match &tls.cert {
        Some(cert) => match &tls.key {
            Some(key) => Ok(Some((cert, key))),
            None => Ok(None),
        },
        None => Ok(None),
    }
}

/// Why a PEM file cannot be read.
#[derive(Debug)]
pub enum PemFault {
    /// Nothing can be learned of it.
    Inspect(String),
    /// It is a directory or the like.
    NotRegular,
    /// It cannot be opened.
    Open(String),
    /// Its contents cannot be read or understood.
    Parse(String),
}

/// The message for a PEM file that cannot be read.
pub open spec fn pem_fault_message(label: Seq<char>, path: Seq<u8>, fault: PemFault) -> Seq<char> {
    let shown = diagnostic::shown_os(path);
    match fault {
        PemFault::Inspect(reason) => "failed to inspect "@ + label + " "@ + shown + ": "@ + reason@,
        PemFault::NotRegular => label + " "@ + shown + " is not a regular file"@,
        PemFault::Open(reason) => "failed to open "@ + label + " "@ + shown + ": "@ + reason@,
        PemFault::Parse(reason) => "failed to parse "@ + label + " "@ + shown + ": "@ + reason@,
    }
}

/// The error for a PEM file that cannot be read.
pub fn pem_file_error(label: &str, path: &OsText, fault: &PemFault) -> (r: AppError)
    ensures
        r@ == ErrorView::InvalidConfig(pem_fault_message(label@, path@, *fault)),
{
    let shown = diagnostic::path(path);
    let (verb, reason) = match fault {
        PemFault::Inspect(reason) => ("failed to inspect ", reason),
        PemFault::Open(reason) => ("failed to open ", reason),
        PemFault::Parse(reason) => ("failed to parse ", reason),
        PemFault::NotRegular => {
            let mut message = label.to_owned();
            message.append(" ");
            message.append(shown.as_str());
            message.append(" is not a regular file");
            return AppError::invalid_config(message);
        },
    };
    let mut message = verb.to_owned();
    message.append(label);
    message.append(" ");
    message.append(shown.as_str());
    message.append(": ");
    message.append(reason.as_str());
    AppError::invalid_config(message)
}

/// What is wrong with the certificates of a PEM file, given what reading it gives.
pub open spec fn certificates_fault(
    label: Seq<char>,
    path: Seq<u8>,
    read: core::result::Result<Seq<Seq<u8>>, Seq<char>>,
) -> Option<ErrorView> {
    let shown = diagnostic::shown_os(path);
    match read {
        Err(reason) => error::config_fault(
            "failed to parse "@ + label + " "@ + shown + ": "@ + reason,
        ),
        Ok(certs) => if certs.len() == 0 {
            error::config_fault(label + " "@ + shown + " does not contain any certificates"@)
        } else {
            None
        },
    }
}

/// The result of reading certificates, as sequences.
pub open spec fn certs_view(
    read: core::result::Result<Vec<Certificate>, String>,
) -> core::result::Result<Seq<Seq<u8>>, Seq<char>> {
    match read {
        Ok(certs) => Ok(cert_views(certs@)),
        Err(message) => Err(message@),
    }
}

/// The certificates that were read, of which there must be at least one.
pub fn accept_certificates(
    label: &str,
    path: &OsText,
    read: core::result::Result<Vec<Certificate>, String>,
) -> (r: Result<Vec<Certificate>>)
    ensures
        error::fault(r) == certificates_fault(label@, path@, certs_view(read)),
        r matches Ok(certs) ==> certs_view(read) == core::result::Result::<
            Seq<Seq<u8>>,
            Seq<char>,
        >::Ok(cert_views(certs@)),
{
    match read {
        Err(reason) => Err(pem_file_error(label, path, &PemFault::Parse(reason))),
        Ok(certs) => {
            if certs.len() == 0 {
                let mut message = label.to_owned();
                message.append(" ");
                message.append(diagnostic::path(path).as_str());
                message.append(" does not contain any certificates");
                return Err(AppError::invalid_config(message));
            }
            Ok(certs)
        },
    }
}

/// The certificates of a PEM file, of which there must be at least one.
pub fn parse_certificates(label: &str, path: &OsText, pem: &[u8]) -> (r: Result<Vec<Certificate>>)
    ensures
        error::fault(r) == certificates_fault(label@, path@, pem_certificates(pem@)),
        r matches Ok(certs) ==> pem_certificates(pem@) == core::result::Result::<
            Seq<Seq<u8>>,
            Seq<char>,
        >::Ok(cert_views(certs@)),
{
    accept_certificates(label, path, read_certificates(pem))
}

/// Why the first certificate that cannot be trusted is refused.
pub open spec fn first_anchor_error(certs: Seq<Seq<u8>>) -> Option<Seq<char>>
    decreases certs.len(),
{
    if certs.len() == 0 {
        None
    } else if anchor_error(certs[0]) is Some {
        anchor_error(certs[0])
    } else {
        first_anchor_error(certs.skip(1))
    }
}

/// What is wrong with a CA file, given what reading it gives.
pub open spec fn ca_fault(path: Seq<u8>, read: core::result::Result<Seq<Seq<u8>>, Seq<char>>) -> Option<
    ErrorView,
> {
    error::first_fault(
        certificates_fault("CA file"@, path, read),
        match first_anchor_error(read->Ok_0) {
            Some(reason) => error::config_fault(
                "invalid CA certificate in "@ + diagnostic::shown_os(path) + ": "@ + reason,
            ),
            None => None,
        },
    )
}

/// The certificates of a CA file: at least one, and each can be trusted.
pub fn load_ca(path: &OsText, pem: &[u8]) -> (r: Result<Vec<Certificate>>)
    ensures
        error::fault(r) == ca_fault(path@, pem_certificates(pem@)),
        r matches Ok(certs) ==> pem_certificates(pem@) == core::result::Result::<
            Seq<Seq<u8>>,
            Seq<char>,
        >::Ok(cert_views(certs@)),
{
    let certs = parse_certificates("CA file", path, pem)?;
    let ghost all = cert_views(certs@);
    let mut i: usize = 0;
    assert(all.skip(0) =~= all);
    while i < certs.len()
        invariant
            i <= certs@.len(),
            all == cert_views(certs@),
            certs@.len() > 0,
            pem_certificates(pem@) == core::result::Result::<Seq<Seq<u8>>, Seq<char>>::Ok(all),
            first_anchor_error(all) == first_anchor_error(all.skip(i as int)),
        decreases certs.len() - i,
    {
        assert(all.skip(i as int).skip(1) =~= all.skip(i + 1));
        assert(all.skip(i as int)[0] == certs@[i as int].der@);
        if let Some(reason) = check_anchor(&certs[i]) {
            let mut message = "invalid CA certificate in ".to_owned();
            message.append(diagnostic::path(path).as_str());
            message.append(": ");
            message.append(reason.as_str());
            return Err(AppError::invalid_config(message));
        }
        i = i + 1;
    }
    Ok(certs)
}

/// What is wrong with a client key, given what reading it gives.
pub open spec fn key_fault(
    path: Seq<u8>,
    read: core::result::Result<Option<KeyView>, Seq<char>>,
) -> Option<ErrorView> {
    let shown = diagnostic::shown_os(path);
    match read {
        Err(reason) => error::config_fault(
            "failed to parse "@ + "client key"@ + " "@ + shown + ": "@ + reason,
        ),
        Ok(None) => error::config_fault(
            "client key "@ + shown + " does not contain a supported private key"@,
        ),
        Ok(Some(_)) => None,
    }
}

/// The result of reading a key, as a sequence.
pub open spec fn key_view(
    read: core::result::Result<Option<ClientKey>, String>,
) -> core::result::Result<Option<KeyView>, Seq<char>> {
    match read {
        Ok(Some(key)) => Ok(Some(key@)),
        Ok(None) => Ok(None),
        Err(message) => Err(message@),
    }
}

/// The key that was read, which must be there.
pub fn accept_client_key(
    path: &OsText,
    read: core::result::Result<Option<ClientKey>, String>,
) -> (r: Result<ClientKey>)
    ensures
        error::fault(r) == key_fault(path@, key_view(read)),
        r matches Ok(key) ==> key_view(read) == core::result::Result::<
            Option<KeyView>,
            Seq<char>,
        >::Ok(Some(key@)),
{
    match read {
        Err(reason) => Err(pem_file_error("client key", path, &PemFault::Parse(reason))),
        Ok(None) => {
            let mut message = "client key ".to_owned();
            message.append(diagnostic::path(path).as_str());
            message.append(" does not contain a supported private key");
            Err(AppError::invalid_config(message))
        },
        Ok(Some(key)) => Ok(key),
    }
}

/// The private key of a PEM file.
pub fn load_client_key(path: &OsText, pem: &[u8]) -> (r: Result<ClientKey>)
    ensures
        error::fault(r) == key_fault(path@, pem_key(pem@)),
        r matches Ok(key) ==> pem_key(pem@) == core::result::Result::<
            Option<KeyView>,
            Seq<char>,
        >::Ok(Some(key@)),
{
    accept_client_key(path, read_key(pem))
}

/// The certificates of a client, of which there must be at least one.
pub fn load_client_certificates(path: &OsText, pem: &[u8]) -> (r: Result<Vec<Certificate>>)
    ensures
        error::fault(r) == certificates_fault(
            "client certificate"@,
            path@,
            pem_certificates(pem@),
        ),
        r matches Ok(certs) ==> pem_certificates(pem@) == core::result::Result::<
            Seq<Seq<u8>>,
            Seq<char>,
        >::Ok(cert_views(certs@)),
{
    parse_certificates("client certificate", path, pem)
}

/// The error for a client certificate that does not fit its key.
pub fn identity_error(reason: &str) -> (r: AppError)
    ensures
        r@ == ErrorView::InvalidConfig("invalid client certificate or key: "@ + reason@),
{
    let mut message = "invalid client certificate or key: ".to_owned();
    message.append(reason);
    AppError::invalid_config(message)
}

} // verus!
