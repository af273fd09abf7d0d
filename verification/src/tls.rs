//! The certificates that the proxy presents: reading the user's, and issuing its own.
use crate::cli::{below, join_below};
use crate::wire::texts;
use rcgen::{BasicConstraints, DnType, IsCa, KeyUsagePurpose};
use rustls::pki_types::PrivateKeyDer;
use vstd::pervasive::arbitrary;
use vstd::prelude::*;
use vstd::utf8::encode_utf8;

verus! {

// --- PEM files --------------------------------------------------------------------------

/// A private key in DER, by its encoding. `T` is the encoded key.
#[derive(Clone, Debug)]
pub enum PrivateKey<T> {
    Pkcs1(T),
    Sec1(T),
    Pkcs8(T),
}

impl View for PrivateKey<Vec<u8>> {
    type V = PrivateKey<Seq<u8>>;

    open spec fn view(&self) -> PrivateKey<Seq<u8>> {
        match *self {
            PrivateKey::Pkcs1(der) => PrivateKey::Pkcs1(der@),
            PrivateKey::Sec1(der) => PrivateKey::Sec1(der@),
            PrivateKey::Pkcs8(der) => PrivateKey::Pkcs8(der@),
        }
    }
}

/// The byte strings of a list.
pub open spec fn blobs(v: Seq<Vec<u8>>) -> Seq<Seq<u8>> {
    v.map_values(|b: Vec<u8>| b@)
}

/// The certificates, in DER, that a PEM file holds, or why it cannot be read.
pub uninterp spec fn pem_certificates(pem: Seq<u8>) -> Result<Seq<Seq<u8>>, Seq<char>>;

/// The first private key that a PEM file holds, if any, or why it cannot be read.
pub uninterp spec fn pem_private_key(pem: Seq<u8>) -> Result<
    Option<PrivateKey<Seq<u8>>>,
    Seq<char>,
>;

/// `rustls_pemfile::certs` yields the certificates of a PEM file in order, or the first
/// error: the file's bytes alone decide.
#[verifier::external_body]
fn read_certificates(pem: &[u8]) -> (r: Result<Vec<Vec<u8>>, String>)
    ensures
        match r {
            Ok(certs) => pem_certificates(pem@) == Ok::<Seq<Seq<u8>>, Seq<char>>(blobs(certs@)),
            Err(e) => pem_certificates(pem@) == Err::<Seq<Seq<u8>>, Seq<char>>(e@),
        },
{
    let mut reader: &[u8] = pem;
    let certs: Result<Vec<_>, std::io::Error> = rustls_pemfile::certs(&mut reader).collect();
    match certs {
        Ok(certs) => Ok(certs.iter().map(|c| c.to_vec()).collect()),
        Err(e) => Err(e.to_string()),
    }
}

/// `rustls_pemfile::private_key` gives the first private key of a PEM file, none where
/// there is none, or the error: the file's bytes alone decide.
#[verifier::external_body]
fn read_private_key(pem: &[u8]) -> (r: Result<Option<PrivateKey<Vec<u8>>>, String>)
    ensures
        match r {
            Ok(Some(key)) => pem_private_key(pem@) == Ok::<
                Option<PrivateKey<Seq<u8>>>,
                Seq<char>,
            >(Some(key@)),
            Ok(None) => pem_private_key(pem@) == Ok::<Option<PrivateKey<Seq<u8>>>, Seq<char>>(
                None,
            ),
            Err(e) => pem_private_key(pem@) == Err::<Option<PrivateKey<Seq<u8>>>, Seq<char>>(e@),
        },
{
    let mut reader: &[u8] = pem;
    match rustls_pemfile::private_key(&mut reader) {
        Ok(Some(PrivateKeyDer::Pkcs1(k))) => Ok(
            Some(PrivateKey::Pkcs1(k.secret_pkcs1_der().to_vec())),
        ),
        Ok(Some(PrivateKeyDer::Sec1(k))) => Ok(
            Some(PrivateKey::Sec1(k.secret_sec1_der().to_vec())),
        ),
        Ok(Some(PrivateKeyDer::Pkcs8(k))) => Ok(
            Some(PrivateKey::Pkcs8(k.secret_pkcs8_der().to_vec())),
        ),
        Ok(Some(_)) => Err(String::from("private key of an unknown encoding")),
        Ok(None) => Ok(None),
        Err(e) => Err(e.to_string()),
    }
}

/// The certificates of a file, given what reading it gave: there must be one.
pub open spec fn certificates_or(
    path: Seq<char>,
    read: Result<Seq<Seq<u8>>, Seq<char>>,
) -> Result<Seq<Seq<u8>>, Seq<char>> {
    match read {
        Ok(certs) => if certs.len() == 0 {
            Err("no certificates found in "@ + path)
        } else {
            Ok(certs)
        },
        Err(e) => Err(e),
    }
}

/// The view of the certificates of a file, or of an error.
pub open spec fn certs_view(r: Result<Vec<Vec<u8>>, String>) -> Result<Seq<Seq<u8>>, Seq<char>> {
    match r {
        Ok(certs) => Ok(blobs(certs@)),
        Err(e) => Err(e@),
    }
}

pub fn accept_certificates(path: &str, read: Result<Vec<Vec<u8>>, String>) -> (r: Result<
    Vec<Vec<u8>>,
    String,
>)
    ensures
        certs_view(r) == certificates_or(path@, certs_view(read)),
{
    match read {
        Ok(certs) => if certs.len() == 0 {
            let mut e = String::new();
            e.append("no certificates found in ");
            e.append(path);
            assert(e@ =~= "no certificates found in "@ + path@);
            Err(e)
        } else {
            Ok(certs)
        },
        Err(e) => Err(e),
    }
}

/// The certificates of the PEM file at `path`.
pub fn load_pem_certs(path: &str, pem: &[u8]) -> (r: Result<Vec<Vec<u8>>, String>)
    ensures
        certs_view(r) == certificates_or(path@, pem_certificates(pem@)),
{
    accept_certificates(path, read_certificates(pem))
}

/// The private key of a file, given what reading it gave: there must be one.
pub open spec fn key_or(
    path: Seq<char>,
    read: Result<Option<PrivateKey<Seq<u8>>>, Seq<char>>,
) -> Result<PrivateKey<Seq<u8>>, Seq<char>> {
    match read {
        Ok(Some(key)) => Ok(key),
        Ok(None) => Err("no private key found in "@ + path),
        Err(e) => Err(e),
    }
}

/// The view of what was read for a key.
pub open spec fn read_view(r: Result<Option<PrivateKey<Vec<u8>>>, String>) -> Result<
    Option<PrivateKey<Seq<u8>>>,
    Seq<char>,
> {
    match r {
        Ok(Some(key)) => Ok(Some(key@)),
        Ok(None) => Ok(None),
        Err(e) => Err(e@),
    }
}

/// The view of a key or of an error.
pub open spec fn key_view(r: Result<PrivateKey<Vec<u8>>, String>) -> Result<
    PrivateKey<Seq<u8>>,
    Seq<char>,
> {
    match r {
        Ok(key) => Ok(key@),
        Err(e) => Err(e@),
    }
}

pub fn accept_key(path: &str, read: Result<Option<PrivateKey<Vec<u8>>>, String>) -> (r: Result<
    PrivateKey<Vec<u8>>,
    String,
>)
    ensures
        key_view(r) == key_or(path@, read_view(read)),
{
    match read {
        Ok(Some(key)) => Ok(key),
        Ok(None) => {
            let mut e = String::new();
            e.append("no private key found in ");
            e.append(path);
            assert(e@ =~= "no private key found in "@ + path@);
            Err(e)
        },
        Err(e) => Err(e),
    }
}

/// The private key of the PEM file at `path`.
pub fn load_pem_key(path: &str, pem: &[u8]) -> (r: Result<PrivateKey<Vec<u8>>, String>)
    ensures
        key_view(r) == key_or(path@, pem_private_key(pem@)),
{
    accept_key(path, read_private_key(pem))
}

// --- issuing ------------------------------------------------------------------------------

/// What a key may be used for.
#[derive(Clone, Copy, PartialEq, Eq, Structural, Debug)]
pub enum KeyUsage {
    /// To sign certificates.
    CertificateSigning,
}

/// What a certificate is to state.
#[derive(Clone, Debug)]
pub struct CertificateRequest {
    /// The name that it goes by.
    pub common_name: String,
    /// The hosts that it is valid for.
    pub hosts: Vec<String>,
    /// Whether it is that of an authority, of any depth.
    pub authority: bool,
    pub usages: Vec<KeyUsage>,
}

/// What a [`CertificateRequest`] holds.
#[verifier::ext_equal]
pub struct RequestView {
    pub common_name: Seq<char>,
    pub hosts: Seq<Seq<char>>,
    pub authority: bool,
    pub usages: Seq<KeyUsage>,
}

impl View for CertificateRequest {
    type V = RequestView;

    open spec fn view(&self) -> RequestView {
        RequestView {
            common_name: self.common_name@,
            hosts: texts(self.hosts@),
            authority: self.authority,
            usages: self.usages@,
        }
    }
}

/// The certificate of the authority: it signs certificates, and is valid for no host.
pub open spec fn authority_request_view() -> RequestView {
    RequestView {
        common_name: "tapgres CA"@,
        hosts: Seq::empty(),
        authority: true,
        usages: seq![KeyUsage::CertificateSigning],
    }
}

/// The hosts that the leaf is valid for.
pub open spec fn leaf_hosts() -> Seq<Seq<char>> {
    seq!["localhost"@, "127.0.0.1"@, "::1"@]
}

/// The certificate of the leaf, for this host.
pub open spec fn leaf_request_view() -> RequestView {
    RequestView {
        common_name: "tapgres"@,
        hosts: leaf_hosts(),
        authority: false,
        usages: Seq::empty(),
    }
}

/// The request for the authority's certificate.
pub fn authority_request() -> (r: CertificateRequest)
    ensures
        r@ == authority_request_view(),
{
    let mut usages: Vec<KeyUsage> = Vec::new();
    usages.push(KeyUsage::CertificateSigning);
    let r = CertificateRequest {
        common_name: "tapgres CA".to_owned(),
        hosts: Vec::new(),
        authority: true,
        usages,
    };
    assert(r@ =~= authority_request_view());
    r
}

/// The request for the leaf's certificate.
pub fn leaf_request() -> (r: CertificateRequest)
    ensures
        r@ == leaf_request_view(),
{
    let mut hosts: Vec<String> = Vec::new();
    hosts.push("localhost".to_owned());
    hosts.push("127.0.0.1".to_owned());
    hosts.push("::1".to_owned());
    let r = CertificateRequest {
        common_name: "tapgres".to_owned(),
        hosts,
        authority: false,
        usages: Vec::new(),
    };
    assert(texts(hosts@) =~= leaf_hosts());
    assert(r@ =~= leaf_request_view());
    r
}

/// `rcgen::CertificateParams`, what a certificate is to state.
#[verifier::external_type_specification]
#[verifier::external_body]
pub struct ExCertificateParams(rcgen::CertificateParams);

/// `rcgen::KeyPair`, a private key and its public one.
#[verifier::external_type_specification]
#[verifier::external_body]
pub struct ExKeyPair(rcgen::KeyPair);

/// `rcgen::Certificate`, an issued certificate.
#[verifier::external_type_specification]
#[verifier::external_body]
pub struct ExCertificate(rcgen::Certificate);

/// `rcgen::Issuer`, which signs certificates.
#[verifier::external_type_specification]
#[verifier::external_body]
#[verifier::reject_recursive_types(S)]
pub struct ExIssuer<'a, S>(rcgen::Issuer<'a, S>);

/// `rcgen::Error`, the reason why a certificate was not issued.
#[verifier::external_type_specification]
#[verifier::external_body]
pub struct ExIssueError(rcgen::Error);

/// The text of an issuing error.
pub uninterp spec fn issue_error_text(e: rcgen::Error) -> Seq<char>;

/// `rcgen::Error` displays as a text that depends on the error alone.
#[verifier::external_body]
fn show_issue_error(e: &rcgen::Error) -> (s: String)
    ensures
        s@ == issue_error_text(*e),
{
    e.to_string()
}

/// Parameters for a certificate, and the request that they were filled from.
struct Params {
    params: rcgen::CertificateParams,
    request: Ghost<RequestView>,
}

/// A fresh key, and the PEM text that it is written as.
struct Key {
    pair: rcgen::KeyPair,
    pem: Ghost<Seq<char>>,
}

/// What is known of an issued certificate.
pub struct CertificateFacts {
    /// The PEM text that it is written as.
    pub pem: Seq<char>,
    /// What it states.
    pub request: RequestView,
    /// The PEM text of the key that it certifies.
    pub key: Seq<char>,
    /// What the certificate of its issuer states.
    pub issuer: RequestView,
    /// The PEM text of the key that signed it.
    pub signer: Seq<char>,
}

/// An issued certificate.
pub struct Certified {
    certificate: rcgen::Certificate,
    facts: Ghost<CertificateFacts>,
}

impl Certified {
    /// What is known of the certificate.
    pub closed spec fn facts(&self) -> CertificateFacts {
        self.facts@
    }
}

/// An authority that signs certificates.
struct Authority {
    issuer: rcgen::Issuer<'static, rcgen::KeyPair>,
    request: Ghost<RequestView>,
    key: Ghost<Seq<char>>,
}

/// Whether every host is in ASCII.
pub open spec fn ascii_hosts(hosts: Seq<Seq<char>>) -> bool {
    forall|i: int, j: int|
        0 <= i < hosts.len() && 0 <= j < hosts[i].len() ==> (#[trigger] hosts[i][j] as u32) < 128
}

/// `CertificateParams::new` gives parameters for some hosts, each an IP address or a name
/// in ASCII, with the crate's own common name, no authority and no key usage.
#[verifier::external_body]
fn new_params(hosts: Vec<String>) -> (r: Result<Params, rcgen::Error>)
    ensures
        r is Ok <==> ascii_hosts(texts(hosts@)),
        r matches Ok(p) ==> p.request@ == (RequestView {
            common_name: "rcgen self signed cert"@,
            hosts: texts(hosts@),
            authority: false,
            usages: Seq::empty(),
        }),
{
    let params = rcgen::CertificateParams::new(hosts)?;
    Ok(Params { params, request: Ghost(arbitrary()) })
}

impl Params {
    /// `DistinguishedName::push` of a common name replaces the one that was there.
    #[verifier::external_body]
    fn set_common_name(&mut self, name: &str)
        ensures
            final(self).request@ == (RequestView { common_name: name@, ..old(self).request@ }),
    {
        self.params.distinguished_name.push(DnType::CommonName, name);
    }

    /// Fills the fields `is_ca` and `key_usages` of `CertificateParams`.
    #[verifier::external_body]
    fn set_use(&mut self, authority: bool, usages: &Vec<KeyUsage>)
        ensures
            final(self).request@ == (RequestView {
                authority,
                usages: usages@,
                ..old(self).request@
            }),
    {
        self.params.is_ca = match authority {
            true => IsCa::Ca(BasicConstraints::Unconstrained),
            false => IsCa::NoCa,
        };
        self.params.key_usages = usages.iter().map(|u| match u {
            KeyUsage::CertificateSigning => KeyUsagePurpose::KeyCertSign,
        }).collect();
    }
}

/// `KeyPair::generate` draws a fresh key. It is random: nothing is said of it, nor of when
/// it fails.
#[verifier::external_body]
fn generate_key() -> (r: Result<Key, rcgen::Error>) {
    let pair = rcgen::KeyPair::generate()?;
    Ok(Key { pair, pem: Ghost(arbitrary()) })
}

impl Key {
    /// `KeyPair::serialize_pem` writes the key as one PEM section, which reads back as one
    /// PKCS #8 key.
    #[verifier::external_body]
    fn to_pem(&self) -> (s: String)
        ensures
            s@ == self.pem@,
            holds_key(s@),
    {
        self.pair.serialize_pem()
    }
}

/// `CertificateParams::self_signed` issues a certificate that states what the parameters
/// hold, certifies a key and is signed by that key. Nothing is said of when it fails.
#[verifier::external_body]
fn self_signed(params: &Params, key: &Key) -> (r: Result<Certified, rcgen::Error>)
    ensures
        r matches Ok(c) ==> c.facts@ == (CertificateFacts {
            pem: c.facts@.pem,
            request: params.request@,
            key: key.pem@,
            issuer: params.request@,
            signer: key.pem@,
        }),
{
    let certificate = params.params.self_signed(&key.pair)?;
    Ok(Certified { certificate, facts: Ghost(arbitrary()) })
}

/// `Issuer::new` makes an issuer that signs with a key, under the name in some parameters.
#[verifier::external_body]
fn authority_of(params: Params, key: Key) -> (a: Authority)
    ensures
        a.request@ == params.request@,
        a.key@ == key.pem@,
{
    Authority {
        issuer: rcgen::Issuer::new(params.params, key.pair),
        request: Ghost(arbitrary()),
        key: Ghost(arbitrary()),
    }
}

/// `CertificateParams::signed_by` issues a certificate that states what the parameters
/// hold, certifies a key and is signed by an issuer. Nothing is said of when it fails.
#[verifier::external_body]
fn signed_by(params: &Params, key: &Key, authority: &Authority) -> (r: Result<
    Certified,
    rcgen::Error,
>)
    ensures
        r matches Ok(c) ==> c.facts@ == (CertificateFacts {
            pem: c.facts@.pem,
            request: params.request@,
            key: key.pem@,
            issuer: authority.request@,
            signer: authority.key@,
        }),
{
    let certificate = params.params.signed_by(&key.pair, &authority.issuer)?;
    Ok(Certified { certificate, facts: Ghost(arbitrary()) })
}

/// Whether a certificate that states this stays far below the greatest PEM section that is
/// read.
pub open spec fn modest(r: RequestView) -> bool {
    &&& r.common_name.len() <= 1000
    &&& r.hosts.len() <= 100
    &&& r.usages.len() <= 100
    &&& forall|i: int| 0 <= i < r.hosts.len() ==> (#[trigger] r.hosts[i]).len() <= 1000
}

impl Certified {
    /// `Certificate::pem` writes the certificate as one PEM section, which reads back as
    /// one certificate unless it is beyond what a PEM reader takes.
    #[verifier::external_body]
    fn to_pem(&self) -> (s: String)
        ensures
            s@ == self.facts@.pem,
            modest(self.facts@.request) && modest(self.facts@.issuer) ==> holds_certificate(s@),
    {
        self.certificate.pem()
    }
}

/// Whether the PEM file of a text holds one certificate.
pub open spec fn holds_certificate(text: Seq<char>) -> bool {
    pem_certificates(encode_utf8(text)) matches Ok(certs) && certs.len() == 1
}

/// Whether the PEM file of a text holds a private key, in PKCS #8.
pub open spec fn holds_key(text: Seq<char>) -> bool {
    pem_private_key(encode_utf8(text)) matches Ok(Some(PrivateKey::Pkcs8(_)))
}

/// The parameters that a request fills.
fn prepare(request: &CertificateRequest) -> (r: Result<Params, rcgen::Error>)
    ensures
        r is Ok <==> ascii_hosts(request@.hosts),
        r matches Ok(p) ==> p.request@ == request@,
{
    let mut hosts: Vec<String> = Vec::new();
    for i in 0..request.hosts.len()
        invariant
            texts(hosts@) == texts(request.hosts@).take(i as int),
    {
        let ghost before = hosts@;
        hosts.push(request.hosts[i].clone());
        assert(texts(hosts@) =~= texts(before).push(request.hosts@[i as int]@));
        assert(texts(hosts@) =~= texts(request.hosts@).take(i + 1));
    }
    assert(texts(request.hosts@).take(request.hosts@.len() as int) =~= texts(request.hosts@));
    match new_params(hosts) {
        Ok(p) => {
            let mut p = p;
            p.set_common_name(request.common_name.as_str());
            p.set_use(request.authority, &request.usages);
            assert(p.request@ =~= request@);
            Ok(p)
        },
        Err(e) => Err(e),
    }
}

/// Issues an authority's certificate under a fresh key, which signs it; returns the key's
/// PEM text and the authority too.
fn issue_authority(request: &CertificateRequest) -> (r: Result<
    (Certified, String, Authority),
    rcgen::Error,
>)
    ensures
        r matches Ok(made) ==> {
            let f = made.0.facts();
            &&& f.request == request@
            &&& f.issuer == request@
            &&& f.key == made.1@
            &&& f.signer == made.1@
            &&& made.2.request@ == request@
            &&& made.2.key@ == made.1@
            &&& holds_key(made.1@)
        },
{
    let params = match prepare(request) {
        Ok(p) => p,
        Err(e) => return Err(e),
    };
    let key = match generate_key() {
        Ok(k) => k,
        Err(e) => return Err(e),
    };
    let certificate = match self_signed(&params, &key) {
        Ok(c) => c,
        Err(e) => return Err(e),
    };
    let key_pem = key.to_pem();
    Ok((certificate, key_pem, authority_of(params, key)))
}

/// Issues a certificate under a fresh key, signed by an authority; returns the key's PEM
/// text too.
fn issue_leaf(request: &CertificateRequest, authority: &Authority) -> (r: Result<
    (Certified, String),
    rcgen::Error,
>)
    ensures
        r matches Ok(made) ==> {
            let f = made.0.facts();
            &&& f.request == request@
            &&& f.issuer == authority.request@
            &&& f.key == made.1@
            &&& f.signer == authority.key@
            &&& holds_key(made.1@)
        },
{
    let params = match prepare(request) {
        Ok(p) => p,
        Err(e) => return Err(e),
    };
    let key = match generate_key() {
        Ok(k) => k,
        Err(e) => return Err(e),
    };
    match signed_by(&params, &key, authority) {
        Ok(c) => Ok((c, key.to_pem())),
        Err(e) => Err(e),
    }
}

/// A file to write into the certificate directory.
#[derive(Clone, Debug)]
pub struct PemFile {
    pub name: String,
    pub contents: String,
}

/// The names of some files.
pub open spec fn file_names(files: Seq<PemFile>) -> Seq<Seq<char>> {
    files.map_values(|f: PemFile| f.name@)
}

/// The contents of some files.
pub open spec fn file_contents(files: Seq<PemFile>) -> Seq<Seq<char>> {
    files.map_values(|f: PemFile| f.contents@)
}

/// The names of the files that hold an authority and the leaf it signed.
pub open spec fn identity_names() -> Seq<Seq<char>> {
    seq!["ca.crt"@, "ca.key"@, "server.crt"@, "server.key"@]
}

/// Lays out an authority and the leaf it signed as files.
pub fn identity_files(ca: (String, String), leaf: (String, String)) -> (files: Vec<PemFile>)
    ensures
        file_names(files@) == identity_names(),
        file_contents(files@) == seq![ca.0@, ca.1@, leaf.0@, leaf.1@],
{
    let mut files: Vec<PemFile> = Vec::new();
    files.push(PemFile { name: "ca.crt".to_owned(), contents: ca.0 });
    files.push(PemFile { name: "ca.key".to_owned(), contents: ca.1 });
    files.push(PemFile { name: "server.crt".to_owned(), contents: leaf.0 });
    files.push(PemFile { name: "server.key".to_owned(), contents: leaf.1 });
    assert(file_names(files@) =~= identity_names());
    assert(file_contents(files@) =~= seq![ca.0@, ca.1@, leaf.0@, leaf.1@]);
    files
}

/// The view of an issued certificate and its key, or of an error.
pub open spec fn issued_view(r: Result<(String, String), String>) -> Result<
    (Seq<char>, Seq<char>),
    Seq<char>,
> {
    match r {
        Ok((cert, key)) => Ok((cert@, key@)),
        Err(e) => Err(e@),
    }
}

/// The contents of the files of an identity, given what issuing the authority and the
/// leaf gave: the first error, if any.
pub open spec fn identity_of(
    ca: Result<(Seq<char>, Seq<char>), Seq<char>>,
    leaf: Result<(Seq<char>, Seq<char>), Seq<char>>,
) -> Result<Seq<Seq<char>>, Seq<char>> {
    match ca {
        Ok((ca_cert, ca_key)) => match leaf {
            Ok((cert, key)) => Ok(seq![ca_cert, ca_key, cert, key]),
            Err(e) => Err(e),
        },
        Err(e) => Err(e),
    }
}

/// The files of an identity, or the first error in issuing it.
pub fn accept_identity(
    ca: Result<(String, String), String>,
    leaf: Result<(String, String), String>,
) -> (r: Result<Vec<PemFile>, String>)
    ensures
        match r {
            Ok(files) => file_names(files@) == identity_names() && identity_of(
                issued_view(ca),
                issued_view(leaf),
            ) == Ok::<Seq<Seq<char>>, Seq<char>>(file_contents(files@)),
            Err(e) => identity_of(issued_view(ca), issued_view(leaf)) == Err::<
                Seq<Seq<char>>,
                Seq<char>,
            >(e@),
        },
{
    match ca {
        Ok(ca) => match leaf {
            Ok(leaf) => Ok(identity_files(ca, leaf)),
            Err(e) => Err(e),
        },
        Err(e) => Err(e),
    }
}

/// An authority and the leaf that it signed, with the files that hold them.
pub struct Identity {
    pub authority: Certified,
    pub leaf: Certified,
    pub files: Vec<PemFile>,
}

/// Whether an identity is what the proxy presents: the authority is the one asked for and
/// signed itself, the leaf is the one asked for and the authority signed it, and the files
/// hold both and their keys.
pub open spec fn identity_holds(id: Identity) -> bool {
    let a = id.authority.facts();
    let l = id.leaf.facts();
    &&& a.request == authority_request_view()
    &&& a.issuer == a.request
    &&& a.signer == a.key
    &&& l.request == leaf_request_view()
    &&& l.issuer == a.request
    &&& l.signer == a.key
    &&& file_names(id.files@) == identity_names()
    &&& file_contents(id.files@) == seq![a.pem, a.key, l.pem, l.key]
    &&& holds_certificate(a.pem)
    &&& holds_key(a.key)
    &&& holds_certificate(l.pem)
    &&& holds_key(l.key)
}

/// The PEM texts of an issued certificate and its key, or the text of the error.
fn issued_texts(issued: &Result<(Certified, String), rcgen::Error>) -> (r: Result<
    (String, String),
    String,
>)
    ensures
        match *issued {
            Ok((c, key)) => r matches Ok(made) && made.0@ == c.facts().pem && made.1@ == key@ && (
            modest(c.facts().request) && modest(c.facts().issuer) ==> holds_certificate(made.0@)),
            Err(e) => r matches Err(text) && text@ == issue_error_text(e),
        },
{
    match issued {
        Ok((c, key)) => Ok((c.to_pem(), key.clone())),
        Err(e) => Err(show_issue_error(e)),
    }
}

/// Issues a new authority and a leaf for this host, signed by it, with the files to write.
/// Issuing draws random keys, so when it succeeds is not stated.
pub fn generate_ca_and_leaf() -> (r: Result<Identity, String>)
    ensures
        r matches Ok(id) ==> identity_holds(id),
{
    let (ca, ca_key, authority) = match issue_authority(&authority_request()) {
        Ok(made) => made,
        Err(e) => return Err(show_issue_error(&e)),
    };
    let leaf = issue_leaf(&leaf_request(), &authority);
    let leaf_texts = issued_texts(&leaf);
    let ca_pem = ca.to_pem();
    proof {
        reveal_strlit("tapgres CA");
        reveal_strlit("tapgres");
        reveal_strlit("localhost");
        reveal_strlit("127.0.0.1");
        reveal_strlit("::1");
        assert(modest(authority_request_view()));
        assert(modest(leaf_request_view()));
    }
    match accept_identity(Ok((ca_pem, ca_key)), leaf_texts) {
        Ok(files) => match leaf {
            Ok((certificate, _)) => Ok(
                Identity { authority: ca, leaf: certificate, files },
            ),
            Err(e) => Err(show_issue_error(&e)),
        },
        Err(e) => Err(e),
    }
}

/// An issued identity loads: the leaf's files hold the certificate and the key that the
/// client leg needs, whatever their paths.
pub proof fn issued_identity_loads(id: Identity, cert: Seq<char>, key: Seq<char>)
    requires
        identity_holds(id),
    ensures
        certificates_or(
            cert,
            pem_certificates(encode_utf8(file_contents(id.files@)[2])),
        ) is Ok,
        key_or(key, pem_private_key(encode_utf8(file_contents(id.files@)[3]))) is Ok,
{
}

/// The paths of the authority, the leaf and the leaf's key below a directory.
pub fn identity_paths(dir: &str) -> (r: (String, String, String))
    ensures
        r.0@ == below(dir@, "ca.crt"@),
        r.1@ == below(dir@, "server.crt"@),
        r.2@ == below(dir@, "server.key"@),
{
    (join_below(dir, "ca.crt"), join_below(dir, "server.crt"), join_below(dir, "server.key"))
}

/// Whether an identity must be issued: one of its files is missing.
pub fn must_generate(ca: bool, leaf: bool, leaf_key: bool) -> (b: bool)
    ensures
        b == !(ca && leaf && leaf_key),
{
    !(ca && leaf && leaf_key)
}

/// What is said of an identity that was issued.
pub fn generated_status(dir: &str) -> (s: String)
    ensures
        s@ == "tapgres: generated CA + server certificate in "@ + dir@,
{
    let mut s = String::new();
    s.append("tapgres: generated CA + server certificate in ");
    s.append(dir);
    assert(s@ =~= "tapgres: generated CA + server certificate in "@ + dir@);
    s
}

/// What is said of the certificate in use: how to trust the authority, or that it is the
/// user's own.
pub open spec fn trust_lines(ca: Option<Seq<char>>) -> Seq<Seq<char>> {
    match ca {
        Some(path) => seq![
            "tapgres: generated/loaded CA at "@ + path,
            "tapgres: for clients to trust this proxy, install the CA, e.g. for libpq/psql:"@,
            "  cp "@ + path + " ~/.postgresql/root.crt"@,
        ],
        None => seq!["tapgres: using user-supplied TLS certificate"@],
    }
}

/// The status lines on the certificate in use. `ca` is the path of the authority's
/// certificate where it is an issued one.
pub fn trust_status(ca: Option<&str>) -> (lines: Vec<String>)
    ensures
        texts(lines@) == trust_lines(crate::render::opt_str(ca)),
{
    let mut lines: Vec<String> = Vec::new();
    match ca {
        Some(path) => {
            let mut at = String::new();
            at.append("tapgres: generated/loaded CA at ");
            at.append(path);
            assert(at@ =~= "tapgres: generated/loaded CA at "@ + path@);
            let mut copy = String::new();
            copy.append("  cp ");
            copy.append(path);
            copy.append(" ~/.postgresql/root.crt");
            assert(copy@ =~= "  cp "@ + path@ + " ~/.postgresql/root.crt"@);
            lines.push(at);
            lines.push(
                "tapgres: for clients to trust this proxy, install the CA, e.g. for libpq/psql:".to_owned(),
            );
            lines.push(copy);
        },
        None => {
            lines.push("tapgres: using user-supplied TLS certificate".to_owned());
        },
    }
    assert(texts(lines@) =~= trust_lines(crate::render::opt_str(ca)));
    lines
}

} // verus!
