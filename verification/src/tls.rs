//! The certificates, the private key and the protocols that the server shows its clients.

use rustls::{Certificate, PrivateKey, ServerConfig};
use vstd::prelude::*;
use vstd::string::StringExecFns;
use vstd::utf8;

verus! {

/// The certificates in a PEM file, each as DER, or why it cannot be read.
pub uninterp spec fn pem_certificates(pem: Seq<u8>) -> Result<Seq<Seq<u8>>, Seq<char>>;

/// The PKCS #8 private keys in a PEM file, each as DER, or why it cannot be read.
pub uninterp spec fn pem_private_keys(pem: Seq<u8>) -> Result<Seq<Seq<u8>>, Seq<char>>;

/// The octets of each element.
pub open spec fn contents(items: Seq<Vec<u8>>) -> Seq<Seq<u8>> {
    items.map_values(|item: Vec<u8>| item@)
}

/// What a PEM reader returned, as mathematical values.
pub open spec fn reading(r: Result<Vec<Vec<u8>>, String>) -> Result<Seq<Seq<u8>>, Seq<char>> {
    match r {
        Ok(items) => Ok(contents(items@)),
        Err(why) => Err(why@),
    }
}

/// `rustls_pemfile::certs` collects the certificates of a PEM file, in order. On octets in
/// memory it fails only where the file is malformed; what it returns, and the text of its
/// error, depends on the octets alone.
#[verifier::external_body]
fn read_certificates(pem: &[u8]) -> (r: Result<Vec<Vec<u8>>, String>)
    ensures
        reading(r) == pem_certificates(pem@),
{
    let mut reader = pem;
    match rustls_pemfile::certs(&mut reader) {
        Ok(items) => Ok(items),
        Err(e) => Err(e.to_string()),
    }
}

/// `rustls_pemfile::pkcs8_private_keys` collects the PKCS #8 private keys of a PEM file, in
/// order. On octets in memory it fails only where the file is malformed; what it returns, and
/// the text of its error, depends on the octets alone.
#[verifier::external_body]
fn read_private_keys(pem: &[u8]) -> (r: Result<Vec<Vec<u8>>, String>)
    ensures
        reading(r) == pem_private_keys(pem@),
{
    let mut reader = pem;
    match rustls_pemfile::pkcs8_private_keys(&mut reader) {
        Ok(items) => Ok(items),
        Err(e) => Err(e.to_string()),
    }
}

/// What the server shows its clients.
#[derive(Debug, PartialEq, Eq)]
pub struct TlsIdentity {
    /// The chain of certificates, each as DER.
    pub certificates: Vec<Vec<u8>>,
    /// The private key, as DER.
    pub private_key: Vec<u8>,
    /// The application protocols on offer, the preferred one first.
    pub protocols: Vec<Vec<u8>>,
}

/// A [`TlsIdentity`] as mathematical values.
pub ghost struct TlsIdentityView {
    pub certificates: Seq<Seq<u8>>,
    pub private_key: Seq<u8>,
    pub protocols: Seq<Seq<u8>>,
}

impl View for TlsIdentity {
    type V = TlsIdentityView;

    open spec fn view(&self) -> TlsIdentityView {
        TlsIdentityView {
            certificates: contents(self.certificates@),
            private_key: self.private_key@,
            protocols: contents(self.protocols@),
        }
    }
}

/// The protocols that a web server commonly offers: `h2` and `http/1.1`.
pub open spec fn web_protocols() -> Seq<Seq<u8>> {
    seq![seq![104u8, 50], seq![104u8, 116, 116, 112, 47, 49, 46, 49]]
}

/// What the server shows its clients, given what was read of the two files: all the
/// certificates, and the first private key. There must be at least one of each.
pub open spec fn identity_of(
    certificates: Result<Seq<Seq<u8>>, Seq<char>>,
    keys: Result<Seq<Seq<u8>>, Seq<char>>,
    cert_file: Seq<char>,
    key_file: Seq<char>,
) -> Result<TlsIdentityView, Seq<char>> {
    match certificates {
        Err(why) => Err(why),
        Ok(certificates) => if certificates.len() == 0 {
            Err("No certificates found in "@ + cert_file)
        } else {
            match keys {
                Err(why) => Err(why),
                Ok(keys) => if keys.len() == 0 {
                    Err("No private keys found in "@ + key_file)
                } else {
                    Ok(
                        TlsIdentityView {
                            certificates,
                            private_key: keys[0],
                            protocols: web_protocols(),
                        },
                    )
                },
            }
        },
    }
}

/// A result with its error and its value as mathematical values.
pub open spec fn identity_view(r: Result<TlsIdentity, String>) -> Result<
    TlsIdentityView,
    Seq<char>,
> {
    match r {
        Ok(identity) => Ok(identity@),
        Err(why) => Err(why@),
    }
}

fn offered_protocols() -> (protocols: Vec<Vec<u8>>)
    ensures
        contents(protocols@) == web_protocols(),
{
    let h2: Vec<u8> = vec![104, 50];
    let http: Vec<u8> = vec![104, 116, 116, 112, 47, 49, 46, 49];
    let mut protocols: Vec<Vec<u8>> = Vec::new();
    protocols.push(h2);
    protocols.push(http);
    proof {
        assert(h2@ =~= seq![104u8, 50]);
        assert(http@ =~= seq![104u8, 116, 116, 112, 47, 49, 46, 49]);
        assert(contents(protocols@) =~= web_protocols());
    }
    protocols
}

/// Decides what the server shows its clients, given what was read of the two files.
pub fn select_identity(
    certificates: Result<Vec<Vec<u8>>, String>,
    keys: Result<Vec<Vec<u8>>, String>,
    cert_file: &str,
    key_file: &str,
) -> (r: Result<TlsIdentity, String>)
    ensures
        identity_view(r) == identity_of(
            reading(certificates),
            reading(keys),
            cert_file@,
            key_file@,
        ),
        r matches Ok(identity) ==> certificates matches Ok(list) && identity.certificates == list,
        r matches Ok(identity) ==> keys matches Ok(list) && list@.len() > 0
            && identity.private_key@ == list@[0]@,
{
    let certificates = match certificates {
        Ok(certificates) => certificates,
        Err(why) => {
            return Err(why);
        },
    };
    if certificates.len() == 0 {
        let mut why = "No certificates found in ".to_owned();
        why.append(cert_file);
        return Err(why);
    }
    let keys = match keys {
        Ok(keys) => keys,
        Err(why) => {
            return Err(why);
        },
    };
    if keys.len() == 0 {
        let mut why = "No private keys found in ".to_owned();
        why.append(key_file);
        return Err(why);
    }
    let private_key = keys[0].clone();
    proof {
        assert(private_key@ =~= keys@[0]@);
    }
    Ok(TlsIdentity { certificates, private_key, protocols: offered_protocols() })
}

/// What came of opening and reading a file.
#[derive(Debug)]
pub enum PemFile {
    /// It could not be opened, for this reason.
    Unopened(String),
    /// It could be opened but not read, for this reason.
    Unreadable(String),
    /// It holds these octets.
    Contents(Vec<u8>),
}

/// A [`PemFile`] as mathematical values.
pub ghost enum PemFileView {
    Unopened(Seq<char>),
    Unreadable(Seq<char>),
    Contents(Seq<u8>),
}

impl View for PemFile {
    type V = PemFileView;

    open spec fn view(&self) -> PemFileView {
        match self {
            PemFile::Unopened(why) => PemFileView::Unopened(why@),
            PemFile::Unreadable(why) => PemFileView::Unreadable(why@),
            PemFile::Contents(pem) => PemFileView::Contents(pem@),
        }
    }
}

/// The certificates in a file, or why there are none to be had.
pub open spec fn certificates_in(file: PemFileView) -> Result<Seq<Seq<u8>>, Seq<char>> {
    match file {
        PemFileView::Contents(pem) => pem_certificates(pem),
        PemFileView::Unreadable(why) => Err(why),
        PemFileView::Unopened(why) => Err(why),
    }
}

/// The private keys in a file, or why there are none to be had.
pub open spec fn private_keys_in(file: PemFileView) -> Result<Seq<Seq<u8>>, Seq<char>> {
    match file {
        PemFileView::Contents(pem) => pem_private_keys(pem),
        PemFileView::Unreadable(why) => Err(why),
        PemFileView::Unopened(why) => Err(why),
    }
}

/// What the server shows its clients, given the certificate file and the key file. Both must
/// open before either is looked into.
pub open spec fn identity_in(
    cert: PemFileView,
    key: PemFileView,
    cert_file: Seq<char>,
    key_file: Seq<char>,
) -> Result<TlsIdentityView, Seq<char>> {
    match (cert, key) {
        (PemFileView::Unopened(why), _) => Err(why),
        (_, PemFileView::Unopened(why)) => Err(why),
        _ => identity_of(certificates_in(cert), private_keys_in(key), cert_file, key_file),
    }
}

/// Reads what the server shows its clients from the certificate file and the key file, which
/// are named in the messages.
pub fn load_identity(cert: PemFile, key: PemFile, cert_file: &str, key_file: &str) -> (r: Result<
    TlsIdentity,
    String,
>)
    ensures
        identity_view(r) == identity_in(cert@, key@, cert_file@, key_file@),
        r matches Ok(identity) ==> identity_in(cert@, key@, cert_file@, key_file@) == Ok::<
            TlsIdentityView,
            Seq<char>,
        >(identity@),
        r matches Err(why) ==> identity_in(cert@, key@, cert_file@, key_file@) == Err::<
            TlsIdentityView,
            Seq<char>,
        >(why@),
{
    let certificates = match cert {
        PemFile::Unopened(why) => {
            return Err(why);
        },
        PemFile::Unreadable(why) => Err(why),
        PemFile::Contents(pem) => read_certificates(pem.as_slice()),
    };
    let keys = match key {
        PemFile::Unopened(why) => {
            return Err(why);
        },
        PemFile::Unreadable(why) => Err(why),
        PemFile::Contents(pem) => read_private_keys(pem.as_slice()),
    };
    select_identity(certificates, keys, cert_file, key_file)
}

/// The configuration of a TLS server, as `rustls` keeps it.
#[verifier::external_type_specification]
#[verifier::external_body]
pub struct ExServerConfig(ServerConfig);

/// The certificates that a configuration shows, each as DER.
pub uninterp spec fn config_certificates(config: ServerConfig) -> Seq<Seq<u8>>;

/// The DER that a configuration's private key was loaded from.
pub uninterp spec fn config_private_key(config: ServerConfig) -> Seq<u8>;

/// The application protocols that a configuration offers, the preferred one first.
pub uninterp spec fn config_protocols(config: ServerConfig) -> Seq<Seq<u8>>;

/// Whether a server with the configuration asks its clients for certificates.
pub uninterp spec fn config_asks_clients(config: ServerConfig) -> bool;

/// `with_single_cert`, on a `rustls` server builder with the safe defaults and without client
/// certificates, makes a configuration that shows the certificates, signs with the key and asks
/// clients for no certificate; its protocols are then set. It refuses a key that it cannot load, always with the same error.
/// Nothing is said of which keys those are, because loading a key may draw on the system's
/// random numbers.
#[verifier::external_body]
fn server_config(identity: TlsIdentity) -> (r: Result<ServerConfig, String>)
    ensures
        r matches Ok(config) ==> config_certificates(config) == identity@.certificates,
        r matches Ok(config) ==> config_private_key(config) == identity@.private_key,
        r matches Ok(config) ==> config_protocols(config) == identity@.protocols,
        r matches Ok(config) ==> !config_asks_clients(config),
        r matches Err(why) ==> why@ == "unexpected error: invalid private key"@,
{
    let certificates = identity.certificates.into_iter().map(Certificate).collect();
    let key = PrivateKey(identity.private_key);
    let builder = ServerConfig::builder().with_safe_defaults().with_no_client_auth();
    match builder.with_single_cert(certificates, key) {
        Ok(mut config) => {
            config.alpn_protocols = identity.protocols;
            Ok(config)
        },
        Err(e) => Err(e.to_string()),
    }
}

/// Whether `config` shows `identity`, and asks nothing of clients in return.
pub open spec fn shows(config: ServerConfig, identity: TlsIdentityView) -> bool {
    &&& config_certificates(config) == identity.certificates
    &&& config_private_key(config) == identity.private_key
    &&& config_protocols(config) == identity.protocols
    &&& !config_asks_clients(config)
}

/// Makes the configuration of the TLS server from the certificate file and the key file, which
/// are named in the messages. The configuration shows the identity that [`load_identity`]
/// reads; whether its key can be loaded is known only by trying.
pub fn load_tls_config(cert: PemFile, key: PemFile, cert_file: &str, key_file: &str) -> (r: Result<
    ServerConfig,
    String,
>)
    ensures
        match identity_in(cert@, key@, cert_file@, key_file@) {
            Err(why) => r matches Err(said) && said@ == why,
            Ok(identity) => match r {
                Ok(config) => shows(config, identity),
                Err(said) => said@ == "unexpected error: invalid private key"@,
            },
        },
        r matches Ok(config) ==> (identity_in(cert@, key@, cert_file@, key_file@) matches Ok(shown)
            && config_certificates(config) == shown.certificates && config_private_key(config)
            == shown.private_key && config_protocols(config) == shown.protocols
            && !config_asks_clients(config)),
{
    match load_identity(cert, key, cert_file, key_file) {
        Ok(identity) => server_config(identity),
        Err(why) => Err(why),
    }
}

/// All the certificates are shown, in order, and the first of the private keys is used,
/// whatever keys follow it. The protocols on offer are `h2` and `http/1.1`, in that order.
pub proof fn law_identity_is_whole(
    certificates: Seq<Seq<u8>>,
    key: Seq<u8>,
    more_keys: Seq<Seq<u8>>,
    cert_file: Seq<char>,
    key_file: Seq<char>,
)
    requires
        certificates.len() > 0,
    ensures
        identity_of(Ok(certificates), Ok(seq![key] + more_keys), cert_file, key_file) == Ok::<
            TlsIdentityView,
            Seq<char>,
        >(
            TlsIdentityView {
                certificates,
                private_key: key,
                protocols: seq![utf8::encode_utf8("h2"@), utf8::encode_utf8("http/1.1"@)],
            },
        ),
{
    reveal_strlit("h2");
    reveal_strlit("http/1.1");
    utf8::is_ascii_chars_encode_utf8("h2"@);
    utf8::is_ascii_chars_encode_utf8("http/1.1"@);
    let h2 = utf8::encode_utf8("h2"@);
    let http = utf8::encode_utf8("http/1.1"@);
    assert("h2"@[0] == 'h' && "h2"@[1] == '2');
    assert(h2 =~= seq![104u8, 50]);
    assert("http/1.1"@[0] == 'h' && "http/1.1"@[1] == 't' && "http/1.1"@[2] == 't' && "http/1.1"@[3]
        == 'p' && "http/1.1"@[4] == '/' && "http/1.1"@[5] == '1' && "http/1.1"@[6] == '.'
        && "http/1.1"@[7] == '1');
    assert(http =~= seq![104u8, 116, 116, 112, 47, 49, 46, 49]);
    assert(web_protocols() =~= seq![h2, http]);
    assert((seq![key] + more_keys)[0] == key);
}

/// What cannot be read, or holds nothing, is told, the certificates first.
pub proof fn law_identity_needs_both_files(
    list: Seq<Seq<u8>>,
    why: Seq<char>,
    keys: Result<Seq<Seq<u8>>, Seq<char>>,
    cert_file: Seq<char>,
    key_file: Seq<char>,
)
    requires
        list.len() > 0,
    ensures
        identity_of(Err(why), keys, cert_file, key_file) == Err::<TlsIdentityView, Seq<char>>(why),
        identity_of(Ok(seq![]), keys, cert_file, key_file) == Err::<TlsIdentityView, Seq<char>>(
            "No certificates found in "@ + cert_file,
        ),
        identity_of(Ok(list), Err(why), cert_file, key_file) == Err::<TlsIdentityView, Seq<char>>(
            why,
        ),
        identity_of(Ok(list), Ok(seq![]), cert_file, key_file) == Err::<
            TlsIdentityView,
            Seq<char>,
        >("No private keys found in "@ + key_file),
{
}

/// Files that do not open are told first, the certificate file before the key file. Of files
/// that do, the octets are read as they are.
pub proof fn law_files_must_open(
    cert: PemFileView,
    key: PemFileView,
    cert_file: Seq<char>,
    key_file: Seq<char>,
)
    ensures
        cert matches PemFileView::Unopened(why) ==> identity_in(cert, key, cert_file, key_file)
            == Err::<TlsIdentityView, Seq<char>>(why),
        !(cert is Unopened) ==> (key matches PemFileView::Unopened(why) ==> identity_in(
            cert,
            key,
            cert_file,
            key_file,
        ) == Err::<TlsIdentityView, Seq<char>>(why)),
        cert matches PemFileView::Contents(pem) ==> certificates_in(cert) == pem_certificates(pem),
        key matches PemFileView::Contents(pem) ==> private_keys_in(key) == pem_private_keys(pem),
        cert matches PemFileView::Unreadable(why) ==> certificates_in(cert) == Err::<
            Seq<Seq<u8>>,
            Seq<char>,
        >(why),
        key matches PemFileView::Unreadable(why) ==> private_keys_in(key) == Err::<
            Seq<Seq<u8>>,
            Seq<char>,
        >(why),
        !(cert is Unopened) && !(key is Unopened) ==> identity_in(cert, key, cert_file, key_file)
            == identity_of(certificates_in(cert), private_keys_in(key), cert_file, key_file),
{
}

/// An identity and a file as mathematical values are that identity and that file.
pub proof fn law_identity_is_viewed(identity: TlsIdentity, file: PemFile)
    ensures
        identity@.certificates.len() == identity.certificates@.len(),
        forall|i: int|
            0 <= i < identity.certificates@.len() ==> #[trigger] identity@.certificates[i]
                == identity.certificates@[i]@,
        identity@.private_key == identity.private_key@,
        identity@.protocols.len() == identity.protocols@.len(),
        forall|i: int|
            0 <= i < identity.protocols@.len() ==> #[trigger] identity@.protocols[i]
                == identity.protocols@[i]@,
        match file {
            PemFile::Unopened(why) => file@ == PemFileView::Unopened(why@),
            PemFile::Unreadable(why) => file@ == PemFileView::Unreadable(why@),
            PemFile::Contents(pem) => file@ == PemFileView::Contents(pem@),
        },
{
}

/// What was read of a file, as mathematical values, is what was read.
pub proof fn law_reading_is_viewed(r: Result<Vec<Vec<u8>>, String>)
    ensures
        r matches Err(why) ==> reading(r) == Err::<Seq<Seq<u8>>, Seq<char>>(why@),
        r matches Ok(items) ==> reading(r) matches Ok(seen) && seen.len() == items@.len() && forall|
            i: int,
        |
            0 <= i < items@.len() ==> #[trigger] seen[i] == items@[i]@,
{
}

/// A configuration that shows an identity shows its certificates, its key and its protocols, and
/// asks nothing of clients.
pub proof fn law_config_shows_identity(config: ServerConfig, identity: TlsIdentityView)
    ensures
        shows(config, identity) <==> config_certificates(config) == identity.certificates
            && config_private_key(config) == identity.private_key && config_protocols(config)
            == identity.protocols && !config_asks_clients(config),
{
}

} // verus!
