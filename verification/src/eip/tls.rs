//! The TLS policy of the explicit path: the `security` block and its validation, where certificates
//! and keys come from, what is trusted, and what the status surface says of it.

use std::fmt::Write;

use vstd::prelude::*;

use x509_cert::der::Decode;

use crate::device::{copy_text, text_view, SecurityStatus, SecurityStatusV};
use crate::text::{
    all_digits, find_char, find_last_char, is_digits, join2, join3, owned, same_ignoring_case,
    same_letters, texts,
};

verus! {

// ---- the `security` block ----

/// `plaintext` or `tls`.
#[derive(Clone, Copy, Debug, PartialEq, Eq, Structural)]
pub enum SecurityMode {
    /// Plaintext EtherNet/IP, the default.
    Plaintext,
    /// EtherNet/IP over TLS.
    Tls,
}

impl Default for SecurityMode {
    fn default() -> (r: SecurityMode)
        ensures
            r == SecurityMode::Plaintext,
    {
        SecurityMode::Plaintext
    }
}

/// The adapter's own identity: a bundle in the vault, or a PEM certificate and key file.
#[derive(Clone, Debug)]
pub struct ClientIdentity {
    pub cert_secret: Option<String>,
    pub cert_file: Option<String>,
    pub key_file: Option<String>,
}

/// The trust anchors: PEM in the vault, or a PEM file.
#[derive(Clone, Debug)]
pub struct CaSource {
    pub secret: Option<String>,
    pub file: Option<String>,
}

/// The `security` block of a connection.
#[derive(Clone, Debug)]
pub struct SecurityConfig {
    pub mode: SecurityMode,
    /// The adapter's own identity for mutual TLS.
    pub client: Option<ClientIdentity>,
    /// What the device certificate is verified against.
    pub ca: Option<CaSource>,
    /// Without it any device certificate is accepted.
    pub verify_peer: bool,
    /// The name to verify; the endpoint host when there is none.
    pub server_name: Option<String>,
    /// Without it an expired or not yet valid device certificate is tolerated.
    pub check_expiration: bool,
    /// The cipher suites to allow; all supported ones when there is none.
    pub cipher_suites: Option<Vec<String>>,
}

/// What the status surface says of a session besides what was negotiated.
#[derive(Clone, Debug)]
pub struct TlsMeta {
    /// The end of validity of the adapter's own certificate.
    pub client_cert_not_after: Option<String>,
    /// The configured verification policy.
    pub verify_peer: bool,
}

impl Default for TlsMeta {
    fn default() -> (r: TlsMeta)
        ensures
            r == (TlsMeta { client_cert_not_after: None, verify_peer: false }),
    {
        TlsMeta { client_cert_not_after: None, verify_peer: false }
    }
}

impl Default for SecurityConfig {
    /// An empty block: plaintext, with every check on.
    fn default() -> (r: SecurityConfig)
        ensures
            r == (SecurityConfig {
                mode: SecurityMode::Plaintext,
                client: None,
                ca: None,
                verify_peer: true,
                server_name: None,
                check_expiration: true,
                cipher_suites: None,
            }),
    {
        SecurityConfig {
            mode: SecurityMode::Plaintext,
            client: None,
            ca: None,
            verify_peer: true,
            server_name: None,
            check_expiration: true,
            cipher_suites: None,
        }
    }
}

/// What is wrong with a block, when something is.
pub open spec fn fault<T>(r: Result<T, String>) -> Option<Seq<char>> {
    match r {
        Ok(_) => None,
        Err(m) => Some(m@),
    }
}

impl ClientIdentity {
    /// One of the two files without the other, and no bundle.
    pub open spec fn half_a_pair(self) -> bool {
        self.cert_secret is None && (self.cert_file is Some) != (self.key_file is Some)
    }

    pub open spec fn usable(self) -> bool {
        self.cert_secret is Some || (self.cert_file is Some && self.key_file is Some)
    }
}

impl SecurityConfig {
    /// The first problem of a block, for a device that is polled or pushed.
    pub open spec fn refusal(self, device_id: Seq<char>, is_push: bool) -> Option<Seq<char>> {
        let device = "device `"@ + device_id;
        if self.mode != SecurityMode::Tls {
            None
        } else if is_push {
            Some(
                device
                    + "`: security.mode `tls` is not supported on a push (class-1 I/O) instance — implicit I/O requires DTLS, which is not available; see limitations"@,
            )
        } else if self.client is Some && self.client->0.half_a_pair() {
            Some(
                device + "`: security.client needs BOTH certFile and keyFile (or use certSecret)"@,
            )
        } else if self.client is None || !self.client->0.usable() {
            Some(
                device
                    + "`: security.mode `tls` requires a client identity (client.certSecret, or client.certFile + client.keyFile)"@,
            )
        } else if self.verify_peer && self.client->0.cert_secret is None && (self.ca is None || (
        self.ca->0.secret is None && self.ca->0.file is None)) {
            Some(
                device
                    + "`: security.mode `tls` with verifyPeer requires a CA source (ca.secret or ca.file) unless the client bundle (certSecret) carries caPem"@,
            )
        } else {
            None
        }
    }

    /// The block of a connection, once its text has been parsed: none, a block, or what is malformed.
    pub fn from_connection(parsed: Option<Result<SecurityConfig, String>>) -> (r: Result<
        Option<SecurityConfig>,
        String,
    >)
        ensures
            match parsed {
                None => r == Ok::<Option<SecurityConfig>, String>(None),
                Some(Ok(s)) => r == Ok::<Option<SecurityConfig>, String>(Some(s)),
                Some(Err(e)) => fault(r) == Some("connection.security: "@ + e@),
            },
    {
        match parsed {
            None => Ok(None),
            Some(Ok(s)) => Ok(Some(s)),
            Some(Err(e)) => Err(join2("connection.security: ", e.as_str())),
        }
    }

    /// Whether TLS is requested.
    pub fn is_tls(&self) -> (r: bool)
        ensures
            r == (self.mode == SecurityMode::Tls),
    {
        self.mode == SecurityMode::Tls
    }

    /// Check a block before anything is started: TLS is refused on a push device, and needs a client
    /// identity and, to verify the peer, something to verify it against.
    pub fn validate(&self, device_id: &str, is_push: bool) -> (r: Result<(), String>)
        ensures
            fault(r) == self.refusal(device_id@, is_push),
    {
        if !self.is_tls() {
            return Ok(());
        }
        if is_push {
            return Err(
                join3(
                    "device `",
                    device_id,
                    "`: security.mode `tls` is not supported on a push (class-1 I/O) instance — implicit I/O requires DTLS, which is not available; see limitations",
                ),
            );
        }
        let usable = match &self.client {
            Some(c) => {
                if c.cert_secret.is_none() && c.cert_file.is_some() != c.key_file.is_some() {
                    return Err(
                        join3(
                            "device `",
                            device_id,
                            "`: security.client needs BOTH certFile and keyFile (or use certSecret)",
                        ),
                    );
                }
                c.cert_secret.is_some() || (c.cert_file.is_some() && c.key_file.is_some())
            },
            None => false,
        };
        if !usable {
            return Err(
                join3(
                    "device `",
                    device_id,
                    "`: security.mode `tls` requires a client identity (client.certSecret, or client.certFile + client.keyFile)",
                ),
            );
        }
        if self.verify_peer {
            let has_ca = match &self.ca {
                Some(c) => c.secret.is_some() || c.file.is_some(),
                None => false,
            };
            let bundle_may_have_ca = match &self.client {
                Some(c) => c.cert_secret.is_some(),
                None => false,
            };
            if !has_ca && !bundle_may_have_ca {
                return Err(
                    join3(
                        "device `",
                        device_id,
                        "`: security.mode `tls` with verifyPeer requires a CA source (ca.secret or ca.file) unless the client bundle (certSecret) carries caPem",
                    ),
                );
            }
        }
        Ok(())
    }
}

/// A plaintext block is never refused.
pub proof fn a_plaintext_block_is_never_refused(s: SecurityConfig, id: Seq<char>, is_push: bool)
    requires
        s.mode == SecurityMode::Plaintext,
    ensures
        s.refusal(id, is_push) is None,
{
}

/// A block that passes on a push device asks for plaintext: no class-1 connection is ever opened from a
/// TLS session.
pub proof fn push_is_never_tls(s: SecurityConfig, id: Seq<char>)
    ensures
        s.refusal(id, true) is None <==> s.mode == SecurityMode::Plaintext,
{
}

/// A TLS block that passes has a usable client identity and, when it verifies the peer, something to
/// verify it against.
pub proof fn a_tls_block_that_passes_is_complete(s: SecurityConfig, id: Seq<char>)
    requires
        s.mode == SecurityMode::Tls,
        s.refusal(id, false) is None,
    ensures
        s.client is Some,
        s.client->0.usable(),
        s.verify_peer ==> s.client->0.cert_secret is Some || (s.ca is Some && (s.ca->0.secret is Some
            || s.ca->0.file is Some)),
{
}

// ---- the endpoint host ----

/// The host of an endpoint: what stands between brackets, or what stands before a trailing `:` and
/// digits.
pub open spec fn host(endpoint: Seq<char>) -> Seq<char> {
    if endpoint.len() > 0 && endpoint[0] == '[' && endpoint.index_of_first(']') is Some {
        endpoint.subrange(1, endpoint.index_of_first(']')->0)
    } else {
        match endpoint.index_of_last(':') {
            Some(p) => if all_digits(endpoint.subrange(p + 1, endpoint.len() as int)) {
                endpoint.subrange(0, p)
            } else {
                endpoint
            },
            None => endpoint,
        }
    }
}

/// The endpoint host without a `:port`, and without the brackets of an IPv6 address.
pub fn host_of(endpoint: &str) -> (r: String)
    ensures
        r@ == host(endpoint@),
{
    let n: usize = endpoint.unicode_len();
    if n > 0 && endpoint.get_char(0) == '[' {
        if let Some(end) = find_char(endpoint, ']') {
            proof {
                endpoint@.index_of_first_ensures(']');
            }
            return owned(endpoint.substring_char(1, end));
        }
    }
    match find_last_char(endpoint, ':') {
        Some(p) => {
            let port = endpoint.substring_char(p + 1, n);
            if is_digits(port) {
                owned(endpoint.substring_char(0, p))
            } else {
                owned(endpoint)
            }
        },
        None => owned(endpoint),
    }
}

// ---- the server name ----

/// Whether a text is an IP address, as `rustls::pki_types::IpAddr::try_from` reads it.
pub uninterp spec fn ip_literal(text: Seq<char>) -> bool;

/// Whether a text is a DNS name or an IP address, as `rustls::pki_types::ServerName::try_from` reads it.
pub uninterp spec fn server_name_syntax(text: Seq<char>) -> bool;

/// `rustls::pki_types::IpAddr::try_from` on a text: whether it is an IPv4 or IPv6 address. Only the
/// verdict is kept, under the name `ip_literal`.
#[verifier::external_body]
fn is_ip(text: &str) -> (r: bool)
    ensures
        r == ip_literal(text@),
{
    rustls::pki_types::IpAddr::try_from(text).is_ok()
}

/// `rustls::pki_types::ServerName::try_from` on a text: whether it is a DNS name or an IP address. Only
/// the verdict is kept, under the name `server_name_syntax`.
#[verifier::external_body]
fn is_server_name(text: &str) -> (r: bool)
    ensures
        r == server_name_syntax(text@),
{
    rustls::pki_types::ServerName::try_from(text).is_ok()
}

/// What the device certificate is verified for.
#[derive(Clone, Debug)]
pub enum ServerIdentity {
    IpAddress(String),
    DnsName(String),
}

/// What the device certificate is verified for.
pub enum ServerIdentityV {
    IpAddress(Seq<char>),
    DnsName(Seq<char>),
}

impl View for ServerIdentity {
    type V = ServerIdentityV;

    open spec fn view(&self) -> ServerIdentityV {
        match self {
            ServerIdentity::IpAddress(s) => ServerIdentityV::IpAddress(s@),
            ServerIdentity::DnsName(s) => ServerIdentityV::DnsName(s@),
        }
    }
}

/// What a fallible step hands on: a value, or the text of what went wrong.
pub open spec fn outcome<T: View>(r: Result<T, String>) -> Result<T::V, Seq<char>> {
    match r {
        Ok(v) => Ok(v@),
        Err(m) => Err(m@),
    }
}

/// The identity behind a name that is an IP address or not, and a well-formed server name or not.
pub open spec fn identity_behind(raw: Seq<char>, ip: bool, well_formed: bool) -> Result<
    ServerIdentityV,
    Seq<char>,
> {
    if ip {
        Ok(ServerIdentityV::IpAddress(raw))
    } else if well_formed {
        Ok(ServerIdentityV::DnsName(raw))
    } else {
        Err("invalid serverName `"@ + raw + "`: invalid dns name"@)
    }
}

/// The identity behind a name that is an IP address or not, and a well-formed server name or not.
pub fn server_identity(raw: &str, ip: bool, well_formed: bool) -> (r: Result<ServerIdentity, String>)
    ensures
        outcome(r) == identity_behind(raw@, ip, well_formed),
{
    if ip {
        Ok(ServerIdentity::IpAddress(owned(raw)))
    } else if well_formed {
        Ok(ServerIdentity::DnsName(owned(raw)))
    } else {
        Err(join3("invalid serverName `", raw, "`: invalid dns name"))
    }
}

impl SecurityConfig {
    /// The name to verify: the configured one, or the endpoint host.
    pub open spec fn name_to_verify(self, endpoint: Seq<char>) -> Seq<char> {
        match self.server_name {
            Some(name) => name@,
            None => host(endpoint),
        }
    }
}

/// The name to verify: the configured one, or the endpoint host. An IP address is verified as such,
/// anything else as a DNS name.
pub fn resolve_server_name(sec: &SecurityConfig, endpoint: &str) -> (r: Result<
    ServerIdentity,
    String,
>)
    ensures
        outcome(r) == identity_behind(
            sec.name_to_verify(endpoint@),
            ip_literal(sec.name_to_verify(endpoint@)),
            server_name_syntax(sec.name_to_verify(endpoint@)),
        ),
{
    let raw = match &sec.server_name {
        Some(name) => name.clone(),
        None => host_of(endpoint),
    };
    let ip = is_ip(raw.as_str());
    let well_formed = is_server_name(raw.as_str());
    server_identity(raw.as_str(), ip, well_formed)
}

// ---- where certificates and keys come from ----

/// A certificate, its key and perhaps trust anchors, as the vault holds them.
#[derive(Clone, Debug)]
pub struct TlsBundle {
    pub cert_pem: String,
    pub key_pem: String,
    pub ca_pem: Option<String>,
}

/// Where the client identity is to be had.
#[derive(Clone, Debug)]
pub enum IdentitySource {
    Nowhere,
    /// A bundle of the vault.
    Bundle(String),
    /// A certificate file and a key file.
    Files(String, String),
}

/// Where the trust anchors are to be had.
#[derive(Clone, Debug)]
pub enum AnchorSource {
    Nowhere,
    /// A secret of the vault.
    Secret(String),
    File(String),
}

/// Where the client identity is to be had.
pub enum IdentitySourceV {
    Nowhere,
    Bundle(Seq<char>),
    Files(Seq<char>, Seq<char>),
}

/// Where the trust anchors are to be had.
pub enum AnchorSourceV {
    Nowhere,
    Secret(Seq<char>),
    File(Seq<char>),
}

impl View for IdentitySource {
    type V = IdentitySourceV;

    open spec fn view(&self) -> IdentitySourceV {
        match self {
            IdentitySource::Nowhere => IdentitySourceV::Nowhere,
            IdentitySource::Bundle(name) => IdentitySourceV::Bundle(name@),
            IdentitySource::Files(cert, key) => IdentitySourceV::Files(cert@, key@),
        }
    }
}

impl View for AnchorSource {
    type V = AnchorSourceV;

    open spec fn view(&self) -> AnchorSourceV {
        match self {
            AnchorSource::Nowhere => AnchorSourceV::Nowhere,
            AnchorSource::Secret(name) => AnchorSourceV::Secret(name@),
            AnchorSource::File(path) => AnchorSourceV::File(path@),
        }
    }
}

/// What came back from the vault and the files. Only what the sources name is looked at; an error is
/// the text of the vault's or the file system's own error.
#[derive(Debug)]
pub struct Fetched {
    /// Whether there is a vault at all.
    pub vault: bool,
    pub bundle: Result<Option<TlsBundle>, String>,
    pub cert_file: Result<String, String>,
    pub key_file: Result<String, String>,
    pub ca_secret: Result<Option<String>, String>,
    pub ca_file: Result<String, String>,
}

/// The PEM texts a session is built from.
#[derive(Clone, Debug)]
pub struct Material {
    /// The certificate and the key of the client identity.
    pub identity: Option<(String, String)>,
    /// The texts that hold the trust anchors.
    pub roots: Vec<String>,
}

/// The PEM texts a session is built from.
#[verifier::ext_equal]
pub struct MaterialV {
    pub identity: Option<(Seq<char>, Seq<char>)>,
    pub roots: Seq<Seq<char>>,
}

impl View for Material {
    type V = MaterialV;

    open spec fn view(&self) -> MaterialV {
        MaterialV {
            identity: match self.identity {
                Some((cert, key)) => Some((cert@, key@)),
                None => None,
            },
            roots: texts(self.roots@),
        }
    }
}

impl SecurityConfig {
    /// Where the client identity is to be had: a bundle before files.
    pub open spec fn identity_from(self) -> IdentitySourceV {
        match self.client {
            Some(c) => match (c.cert_secret, c.cert_file, c.key_file) {
                (Some(name), _, _) => IdentitySourceV::Bundle(name@),
                (None, Some(cert), Some(key)) => IdentitySourceV::Files(cert@, key@),
                _ => IdentitySourceV::Nowhere,
            },
            None => IdentitySourceV::Nowhere,
        }
    }

    /// Where the trust anchors are to be had: a secret before a file.
    pub open spec fn anchors_from(self) -> AnchorSourceV {
        match self.ca {
            Some(c) => match (c.secret, c.file) {
                (Some(name), _) => AnchorSourceV::Secret(name@),
                (None, Some(path)) => AnchorSourceV::File(path@),
                _ => AnchorSourceV::Nowhere,
            },
            None => AnchorSourceV::Nowhere,
        }
    }

    /// Where the client identity is to be had: a bundle before files.
    pub fn identity_source(&self) -> (r: IdentitySource)
        ensures
            r@ == self.identity_from(),
    {
        match &self.client {
            Some(c) => match (&c.cert_secret, &c.cert_file, &c.key_file) {
                (Some(name), _, _) => IdentitySource::Bundle(name.clone()),
                (None, Some(cert), Some(key)) => IdentitySource::Files(cert.clone(), key.clone()),
                _ => IdentitySource::Nowhere,
            },
            None => IdentitySource::Nowhere,
        }
    }

    /// Where the trust anchors are to be had: a secret before a file.
    pub fn anchor_source(&self) -> (r: AnchorSource)
        ensures
            r@ == self.anchors_from(),
    {
        match &self.ca {
            Some(c) => match (&c.secret, &c.file) {
                (Some(name), _) => AnchorSource::Secret(name.clone()),
                (None, Some(path)) => AnchorSource::File(path.clone()),
                _ => AnchorSource::Nowhere,
            },
            None => AnchorSource::Nowhere,
        }
    }

    /// The client identity, with the trust anchors that came along in its bundle.
    pub open spec fn identity_material(self, f: Fetched) -> Result<MaterialV, Seq<char>> {
        match self.identity_from() {
            IdentitySourceV::Nowhere => Ok(MaterialV { identity: None, roots: Seq::empty() }),
            IdentitySourceV::Bundle(name) => if !f.vault {
                Err(
                    "client.certSecret `"@ + name
                        + "` is set but no credentials vault is configured"@,
                )
            } else {
                match f.bundle {
                    Err(e) => Err("vault get_tls_bundle(`"@ + name + "`): "@ + e@),
                    Ok(None) => Err("vault TLS bundle `"@ + name + "` not found"@),
                    Ok(Some(b)) => Ok(
                        MaterialV {
                            identity: Some((b.cert_pem@, b.key_pem@)),
                            roots: match b.ca_pem {
                                Some(ca) => seq![ca@],
                                None => Seq::empty(),
                            },
                        },
                    ),
                }
            },
            IdentitySourceV::Files(cert, key) => match f.cert_file {
                Err(e) => Err("reading client certificate `"@ + cert + "`: "@ + e@),
                Ok(cert_pem) => match f.key_file {
                    Err(e) => Err("reading client key `"@ + key + "`: "@ + e@),
                    Ok(key_pem) => Ok(
                        MaterialV {
                            identity: Some((cert_pem@, key_pem@)),
                            roots: Seq::empty(),
                        },
                    ),
                },
            },
        }
    }

    /// The text that holds the configured trust anchors, if there are any.
    pub open spec fn anchor_material(self, f: Fetched) -> Result<Seq<Seq<char>>, Seq<char>> {
        match self.anchors_from() {
            AnchorSourceV::Nowhere => Ok(Seq::empty()),
            AnchorSourceV::Secret(name) => if !f.vault {
                Err("ca.secret `"@ + name + "` is set but no credentials vault is configured"@)
            } else {
                match f.ca_secret {
                    Err(e) => Err("vault get_string(`"@ + name + "`): "@ + e@),
                    Ok(None) => Err("vault CA secret `"@ + name + "` not found"@),
                    Ok(Some(pem)) => Ok(seq![pem@]),
                }
            },
            AnchorSourceV::File(path) => match f.ca_file {
                Err(e) => Err("reading CA certificate `"@ + path + "`: "@ + e@),
                Ok(pem) => Ok(seq![pem@]),
            },
        }
    }

    /// Everything a session is built from, the client identity first.
    pub open spec fn sourced(self, f: Fetched) -> Result<MaterialV, Seq<char>> {
        match self.identity_material(f) {
            Err(e) => Err(e),
            Ok(m) => match self.anchor_material(f) {
                Err(e) => Err(e),
                Ok(more) => Ok(MaterialV { identity: m.identity, roots: m.roots + more }),
            },
        }
    }

    fn source_identity(&self, f: &Fetched) -> (r: Result<Material, String>)
        ensures
            outcome(r) == self.identity_material(*f),
    {
        let mut roots: Vec<String> = Vec::new();
        assert(texts(roots@) =~= Seq::empty());
        match self.identity_source() {
            IdentitySource::Nowhere => Ok(Material { identity: None, roots }),
            IdentitySource::Bundle(name) => {
                if !f.vault {
                    return Err(
                        join3(
                            "client.certSecret `",
                            name.as_str(),
                            "` is set but no credentials vault is configured",
                        ),
                    );
                }
                match &f.bundle {
                    Err(e) => Err(
                        join2(
                            join3("vault get_tls_bundle(`", name.as_str(), "`): ").as_str(),
                            e.as_str(),
                        ),
                    ),
                    Ok(None) => Err(join3("vault TLS bundle `", name.as_str(), "` not found")),
                    Ok(Some(b)) => {
                        if let Some(ca) = &b.ca_pem {
                            roots.push(ca.clone());
                            assert(texts(roots@) =~= seq![ca@]);
                        }
                        Ok(
                            Material {
                                identity: Some((b.cert_pem.clone(), b.key_pem.clone())),
                                roots,
                            },
                        )
                    },
                }
            },
            IdentitySource::Files(cert, key) => match &f.cert_file {
                Err(e) => Err(
                    join2(
                        join3("reading client certificate `", cert.as_str(), "`: ").as_str(),
                        e.as_str(),
                    ),
                ),
                Ok(cert_pem) => match &f.key_file {
                    Err(e) => Err(
                        join2(
                            join3("reading client key `", key.as_str(), "`: ").as_str(),
                            e.as_str(),
                        ),
                    ),
                    Ok(key_pem) => Ok(
                        Material { identity: Some((cert_pem.clone(), key_pem.clone())), roots },
                    ),
                },
            },
        }
    }

    fn source_anchors(&self, f: &Fetched) -> (r: Result<Option<String>, String>)
        ensures
            match r {
                Ok(Some(pem)) => self.anchor_material(*f) == Ok::<Seq<Seq<char>>, Seq<char>>(
                    seq![pem@],
                ),
                Ok(None) => self.anchor_material(*f) == Ok::<Seq<Seq<char>>, Seq<char>>(
                    Seq::empty(),
                ),
                Err(e) => self.anchor_material(*f) == Err::<Seq<Seq<char>>, Seq<char>>(e@),
            },
    {
        match self.anchor_source() {
            AnchorSource::Nowhere => Ok(None),
            AnchorSource::Secret(name) => {
                if !f.vault {
                    return Err(
                        join3(
                            "ca.secret `",
                            name.as_str(),
                            "` is set but no credentials vault is configured",
                        ),
                    );
                }
                match &f.ca_secret {
                    Err(e) => Err(
                        join2(
                            join3("vault get_string(`", name.as_str(), "`): ").as_str(),
                            e.as_str(),
                        ),
                    ),
                    Ok(None) => Err(join3("vault CA secret `", name.as_str(), "` not found")),
                    Ok(Some(pem)) => Ok(Some(pem.clone())),
                }
            },
            AnchorSource::File(path) => match &f.ca_file {
                Err(e) => Err(
                    join2(
                        join3("reading CA certificate `", path.as_str(), "`: ").as_str(),
                        e.as_str(),
                    ),
                ),
                Ok(pem) => Ok(Some(pem.clone())),
            },
        }
    }

    /// Everything a session is built from, the client identity first.
    pub fn source(&self, f: &Fetched) -> (r: Result<Material, String>)
        ensures
            outcome(r) == self.sourced(*f),
    {
        match self.source_identity(f) {
            Err(e) => Err(e),
            Ok(m) => match self.source_anchors(f) {
                Err(e) => Err(e),
                Ok(more) => {
                    let ghost had = m.roots@;
                    let mut roots = m.roots;
                    if let Some(pem) = more {
                        roots.push(pem);
                        assert(texts(roots@) =~= texts(had) + seq![pem@]);
                    } else {
                        assert(texts(roots@) =~= texts(had) + Seq::<Seq<char>>::empty());
                    }
                    Ok(Material { identity: m.identity, roots })
                },
            },
        }
    }
}

// ---- certificates and keys ----

/// How a private key is encoded.
#[derive(Clone, Copy, Debug, PartialEq, Eq, Structural)]
pub enum KeyFormat {
    Pkcs1,
    Sec1,
    Pkcs8,
}

/// A private key.
#[derive(Clone)]
pub struct KeyDer {
    pub format: KeyFormat,
    pub der: Vec<u8>,
}

impl View for KeyDer {
    type V = (KeyFormat, Seq<u8>);

    open spec fn view(&self) -> (KeyFormat, Seq<u8>) {
        (self.format, self.der@)
    }
}

/// The bytes of a list of certificates.
pub open spec fn ders(s: Seq<Vec<u8>>) -> Seq<Seq<u8>> {
    Seq::new(s.len(), |i: int| s[i]@)
}

/// What a reader of certificates came back with.
pub open spec fn certs_read(r: Result<Vec<Vec<u8>>, String>) -> Result<Seq<Seq<u8>>, Seq<char>> {
    match r {
        Ok(v) => Ok(ders(v@)),
        Err(m) => Err(m@),
    }
}

/// What a reader of keys came back with.
pub open spec fn key_read(r: Result<Option<KeyDer>, String>) -> Result<
    Option<(KeyFormat, Seq<u8>)>,
    Seq<char>,
> {
    match r {
        Ok(Some(k)) => Ok(Some(k@)),
        Ok(None) => Ok(None),
        Err(m) => Err(m@),
    }
}

/// The certificates of a PEM text in order, or the error's text, as `rustls_pemfile::certs` reads it.
pub uninterp spec fn certificates_in(pem: Seq<char>) -> Result<Seq<Seq<u8>>, Seq<char>>;

/// The first private key of a PEM text, or the error's text, as `rustls_pemfile::private_key` reads it.
pub uninterp spec fn private_key_in(pem: Seq<char>) -> Result<
    Option<(KeyFormat, Seq<u8>)>,
    Seq<char>,
>;

/// Why a certificate is no trust anchor, as `rustls::RootCertStore::add` finds, if it does.
pub uninterp spec fn anchor_refusal(der: Seq<u8>) -> Option<Seq<char>>;

/// Why a certificate chain and a key are no client identity, as `rustls::sign::CertifiedKey::from_der`
/// finds with the *ring* provider, if it does.
pub uninterp spec fn identity_refusal(
    chain: Seq<Seq<u8>>,
    format: KeyFormat,
    key: Seq<u8>,
) -> Option<Seq<char>>;

/// The end of a certificate's validity in seconds since 1970, as `x509_cert::Certificate::from_der`
/// reads it, if it can.
pub uninterp spec fn expiry_of(der: Seq<u8>) -> Option<u64>;

/// A certificate's subject, as `x509_cert::Certificate::from_der` reads it and its `Display` writes it,
/// if they can.
pub uninterp spec fn subject_in(der: Seq<u8>) -> Option<Seq<char>>;

/// A certificate's serial number, as `x509_cert::Certificate::from_der` reads it and its `Display`
/// writes it, if it can be read.
pub uninterp spec fn serial_in(der: Seq<u8>) -> Option<Seq<char>>;

/// A time in seconds since 1970 as an RFC 3339 text, as `time::OffsetDateTime` writes it, if it can.
pub uninterp spec fn rfc3339_of(secs: i64) -> Option<Seq<char>>;

/// A list of texts as `{:?}` writes it.
pub uninterp spec fn quoted(names: Seq<Seq<char>>) -> Seq<char>;

/// `rustls_pemfile::certs` on a text: its certificates in order, or the text of the first error. What
/// they are is left to the name `certificates_in`.
#[verifier::external_body]
fn read_certs(pem: &str) -> (r: Result<Vec<Vec<u8>>, String>)
    ensures
        certs_read(r) == certificates_in(pem@),
{
    let mut rd = std::io::Cursor::new(pem.as_bytes());
    rustls_pemfile::certs(&mut rd)
        .map(|c| c.map(|der| der.to_vec()))
        .collect::<Result<Vec<Vec<u8>>, std::io::Error>>()
        .map_err(|e| e.to_string())
}

/// `rustls_pemfile::private_key` on a text: its first private key, none, or the text of the error. What
/// it is is left to the name `private_key_in`.
#[verifier::external_body]
fn read_key(pem: &str) -> (r: Result<Option<KeyDer>, String>)
    ensures
        key_read(r) == private_key_in(pem@),
{
    let mut rd = std::io::Cursor::new(pem.as_bytes());
    match rustls_pemfile::private_key(&mut rd).map_err(|e| e.to_string())? {
        Some(rustls::pki_types::PrivateKeyDer::Pkcs1(k)) => {
            Ok(Some(KeyDer { format: KeyFormat::Pkcs1, der: k.secret_pkcs1_der().to_vec() }))
        },
        Some(rustls::pki_types::PrivateKeyDer::Sec1(k)) => {
            Ok(Some(KeyDer { format: KeyFormat::Sec1, der: k.secret_sec1_der().to_vec() }))
        },
        Some(k) => Ok(Some(KeyDer { format: KeyFormat::Pkcs8, der: k.secret_der().to_vec() })),
        None => Ok(None),
    }
}

/// `rustls::RootCertStore::add` on a certificate: the text of the error, if there is one. Which
/// certificates are refused is left to the name `anchor_refusal`.
#[verifier::external_body]
fn refuse_anchor(der: &Vec<u8>) -> (r: Option<String>)
    ensures
        text_view(r) == anchor_refusal(der@),
{
    rustls::RootCertStore::empty()
        .add(rustls::pki_types::CertificateDer::from(der.clone()))
        .err()
        .map(|e| e.to_string())
}

/// `rustls::sign::CertifiedKey::from_der` on a chain and a key, with the *ring* provider: the text of
/// the error, if there is one. Which pairs are refused is left to the name `identity_refusal`.
#[verifier::external_body]
fn refuse_identity(chain: &Vec<Vec<u8>>, key: &KeyDer) -> (r: Option<String>)
    ensures
        text_view(r) == identity_refusal(ders(chain@), key.format, key.der@),
{
    let certs = chain.iter().map(|c| rustls::pki_types::CertificateDer::from(c.clone())).collect();
    let der = key.der.clone();
    let secret = match key.format {
        KeyFormat::Pkcs1 => rustls::pki_types::PrivatePkcs1KeyDer::from(der).into(),
        KeyFormat::Sec1 => rustls::pki_types::PrivateSec1KeyDer::from(der).into(),
        KeyFormat::Pkcs8 => rustls::pki_types::PrivatePkcs8KeyDer::from(der).into(),
    };
    let provider = rustls::crypto::ring::default_provider();
    rustls::sign::CertifiedKey::from_der(certs, secret, &provider).err().map(|e| e.to_string())
}

/// `x509_cert::Certificate::from_der` on a certificate: the end of its validity in seconds since 1970,
/// or nothing where it does not parse. The time is left to the name `expiry_of`.
#[verifier::external_body]
pub(crate) fn read_expiry(der: &Vec<u8>) -> (r: Option<u64>)
    ensures
        r == expiry_of(der@),
{
    let cert = x509_cert::Certificate::from_der(der.as_slice()).ok()?;
    Some(cert.tbs_certificate.validity.not_after.to_unix_duration().as_secs())
}

/// `x509_cert::Certificate::from_der` on a certificate: its subject as `Display` writes it, or nothing
/// where either fails. The text is left to the name `subject_in`.
#[verifier::external_body]
fn read_subject(der: &Vec<u8>) -> (r: Option<String>)
    ensures
        text_view(r) == subject_in(der@),
{
    let cert = x509_cert::Certificate::from_der(der.as_slice()).ok()?;
    let mut text = String::new();
    write!(text, "{}", cert.tbs_certificate.subject).ok()?;
    Some(text)
}

/// `x509_cert::Certificate::from_der` on a certificate: its serial number as `Display` writes it, or
/// nothing where the certificate does not parse. The text is left to the name `serial_in`.
#[verifier::external_body]
pub(crate) fn read_serial(der: &Vec<u8>) -> (r: Option<String>)
    ensures
        text_view(r) == serial_in(der@),
{
    let cert = x509_cert::Certificate::from_der(der.as_slice()).ok()?;
    Some(format!("{}", cert.tbs_certificate.serial_number))
}

/// `time::OffsetDateTime::from_unix_timestamp` and `format` with `Rfc3339`: the text, or nothing where
/// either fails. The text is left to the name `rfc3339_of`.
#[verifier::external_body]
fn rfc3339(secs: i64) -> (r: Option<String>)
    ensures
        text_view(r) == rfc3339_of(secs),
{
    let dt = time::OffsetDateTime::from_unix_timestamp(secs).ok()?;
    dt.format(&time::format_description::well_known::Rfc3339).ok()
}

/// `{:?}` on a list of texts. The text is left to the name `quoted`.
#[verifier::external_body]
fn quote(names: &Vec<String>) -> (r: String)
    ensures
        r@ == quoted(texts(names@)),
{
    format!("{names:?}")
}

/// The cipher suites of `rustls::crypto::ring::default_provider`, in its order.
pub open spec fn ring_suites() -> Seq<Seq<char>> {
    seq![
        "TLS13_AES_256_GCM_SHA384"@,
        "TLS13_AES_128_GCM_SHA256"@,
        "TLS13_CHACHA20_POLY1305_SHA256"@,
        "TLS_ECDHE_ECDSA_WITH_AES_256_GCM_SHA384"@,
        "TLS_ECDHE_ECDSA_WITH_AES_128_GCM_SHA256"@,
        "TLS_ECDHE_ECDSA_WITH_CHACHA20_POLY1305_SHA256"@,
        "TLS_ECDHE_RSA_WITH_AES_256_GCM_SHA384"@,
        "TLS_ECDHE_RSA_WITH_AES_128_GCM_SHA256"@,
        "TLS_ECDHE_RSA_WITH_CHACHA20_POLY1305_SHA256"@,
    ]
}

/// `rustls::crypto::ring::default_provider`: the names of its cipher suites, in its order. The list is
/// the one the crate documents for the provider with TLS 1.2 enabled.
#[verifier::external_body]
fn supported_suites() -> (r: Vec<String>)
    ensures
        texts(r@) == ring_suites(),
{
    rustls::crypto::ring::default_provider()
        .cipher_suites
        .iter()
        .map(|cs| format!("{:?}", cs.suite()))
        .collect()
}

/// What reading a PEM text for certificates comes to.
pub open spec fn chain_of(read: Result<Seq<Seq<u8>>, Seq<char>>, what: Seq<char>) -> Result<
    Seq<Seq<u8>>,
    Seq<char>,
> {
    match read {
        Ok(chain) => Ok(chain),
        Err(e) => Err("parsing "@ + what + " PEM: "@ + e),
    }
}

/// What reading a PEM text for certificates comes to.
pub fn chain_or_fault(read: Result<Vec<Vec<u8>>, String>, what: &str) -> (r: Result<
    Vec<Vec<u8>>,
    String,
>)
    ensures
        certs_read(r) == chain_of(certs_read(read), what@),
{
    match read {
        Ok(chain) => Ok(chain),
        Err(e) => Err(join2(join3("parsing ", what, " PEM: ").as_str(), e.as_str())),
    }
}

/// The certificates of a PEM text, in order.
pub fn certs_from_pem(pem: &str, what: &str) -> (r: Result<Vec<Vec<u8>>, String>)
    ensures
        certs_read(r) == chain_of(certificates_in(pem@), what@),
{
    chain_or_fault(read_certs(pem), what)
}

/// What reading a PEM text for a key comes to.
pub open spec fn key_of(read: Result<Option<(KeyFormat, Seq<u8>)>, Seq<char>>) -> Result<
    (KeyFormat, Seq<u8>),
    Seq<char>,
> {
    match read {
        Ok(Some(k)) => Ok(k),
        Ok(None) => Err("no private key found in key PEM"@),
        Err(e) => Err("parsing private key PEM: "@ + e),
    }
}

/// What reading a PEM text for a key comes to.
pub fn key_or_fault(read: Result<Option<KeyDer>, String>) -> (r: Result<KeyDer, String>)
    ensures
        outcome(r) == key_of(key_read(read)),
{
    match read {
        Ok(Some(k)) => Ok(k),
        Ok(None) => Err(owned("no private key found in key PEM")),
        Err(e) => Err(join2("parsing private key PEM: ", e.as_str())),
    }
}

/// The first private key of a PEM text.
pub fn key_from_pem(pem: &str) -> (r: Result<KeyDer, String>)
    ensures
        outcome(r) == key_of(private_key_in(pem@)),
{
    key_or_fault(read_key(pem))
}

/// The RFC 3339 text of an end of validity, when there is one and it can be written.
pub open spec fn expiry_text_of(secs: Option<u64>) -> Option<Seq<char>> {
    match secs {
        Some(s) => if s <= i64::MAX {
            rfc3339_of(s as i64)
        } else {
            None
        },
        None => None,
    }
}

/// The end of a certificate's validity as an RFC 3339 text, if it can be had.
pub fn cert_not_after(der: &Vec<u8>) -> (r: Option<String>)
    ensures
        text_view(r) == expiry_text_of(expiry_of(der@)),
{
    match read_expiry(der) {
        Some(s) => {
            if s <= i64::MAX as u64 {
                rfc3339(s as i64)
            } else {
                None
            }
        },
        None => None,
    }
}

/// A subject, unless it is empty.
pub open spec fn shown_subject(text: Option<Seq<char>>) -> Option<Seq<char>> {
    match text {
        Some(s) => if s.len() == 0 {
            None
        } else {
            Some(s)
        },
        None => None,
    }
}

/// A subject, unless it is empty.
pub fn subject_or_none(text: Option<String>) -> (r: Option<String>)
    ensures
        text_view(r) == shown_subject(text_view(text)),
{
    match text {
        Some(s) => {
            if s.as_str().unicode_len() == 0 {
                None
            } else {
                Some(s)
            }
        },
        None => None,
    }
}

/// A certificate's subject, if it has one that can be read.
pub fn cert_subject(der: &Vec<u8>) -> (r: Option<String>)
    ensures
        text_view(r) == shown_subject(subject_in(der@)),
{
    subject_or_none(read_subject(der))
}

// ---- the plan of a session ----

/// Whether a suite is among the wanted ones, up to the case of letters.
pub open spec fn is_wanted(names: Seq<Seq<char>>, suite: Seq<char>) -> bool {
    exists|i: int| 0 <= i < names.len() && same_letters(#[trigger] names[i], suite)
}

/// Those of the first `n` supported suites that are wanted, in their order.
pub open spec fn wanted_among(
    names: Seq<Seq<char>>,
    supported: Seq<Seq<char>>,
    n: nat,
) -> Seq<Seq<char>>
    decreases n,
{
    if n == 0 {
        Seq::empty()
    } else {
        let before = wanted_among(names, supported, (n - 1) as nat);
        if is_wanted(names, supported[n - 1]) {
            before.push(supported[n - 1])
        } else {
            before
        }
    }
}

/// The suites a session may use: all supported ones, or those of them that are named.
pub open spec fn suites_of(
    names: Option<Seq<Seq<char>>>,
    supported: Seq<Seq<char>>,
) -> Result<Seq<Seq<char>>, Seq<char>> {
    match names {
        None => Ok(supported),
        Some(names) => {
            let chosen = wanted_among(names, supported, supported.len());
            if chosen.len() == 0 {
                Err(
                    "security.cipherSuites "@ + quoted(names)
                        + " matched no supported suite — rustls speaks the GCM/TLS1.3 suites (e.g. TLS_ECDHE_ECDSA_WITH_AES_128_GCM_SHA256, TLS13_AES_128_GCM_SHA256), not CBC/NULL/PSK"@,
                )
            } else {
                Ok(chosen)
            }
        },
    }
}

/// The texts of an optional list.
pub open spec fn names_view(names: Option<Vec<String>>) -> Option<Seq<Seq<char>>> {
    match names {
        Some(v) => Some(texts(v@)),
        None => None,
    }
}

fn wants(names: &Vec<String>, suite: &str) -> (r: bool)
    ensures
        r == is_wanted(texts(names@), suite@),
{
    let mut i: usize = 0;
    while i < names.len()
        invariant
            i <= names@.len(),
            forall|j: int| 0 <= j < i ==> !same_letters(#[trigger] texts(names@)[j], suite@),
        decreases names@.len() - i,
    {
        if same_ignoring_case(names[i].as_str(), suite) {
            assert(same_letters(texts(names@)[i as int], suite@));
            return true;
        }
        i = i + 1;
    }
    false
}

/// The suites a session may use, out of `supported`: all of them, or those that are named.
pub fn choose_suites(names: &Option<Vec<String>>, supported: Vec<String>) -> (r: Result<
    Vec<String>,
    String,
>)
    ensures
        match r {
            Ok(v) => suites_of(names_view(*names), texts(supported@)) == Ok::<
                Seq<Seq<char>>,
                Seq<char>,
            >(texts(v@)),
            Err(m) => suites_of(names_view(*names), texts(supported@)) == Err::<
                Seq<Seq<char>>,
                Seq<char>,
            >(m@),
        },
{
    match names {
        None => Ok(supported),
        Some(wanted) => {
            let mut chosen: Vec<String> = Vec::new();
            let mut i: usize = 0;
            assert(texts(chosen@) =~= Seq::empty());
            while i < supported.len()
                invariant
                    i <= supported@.len(),
                    texts(chosen@) == wanted_among(texts(wanted@), texts(supported@), i as nat),
                decreases supported@.len() - i,
            {
                if wants(wanted, supported[i].as_str()) {
                    let ghost had = chosen@;
                    chosen.push(supported[i].clone());
                    assert(texts(chosen@) =~= texts(had).push(texts(supported@)[i as int]));
                }
                i = i + 1;
            }
            assert(texts(chosen@).len() == chosen@.len());
            if chosen.len() == 0 {
                Err(
                    join3(
                        "security.cipherSuites ",
                        quote(wanted).as_str(),
                        " matched no supported suite — rustls speaks the GCM/TLS1.3 suites (e.g. TLS_ECDHE_ECDSA_WITH_AES_128_GCM_SHA256, TLS13_AES_128_GCM_SHA256), not CBC/NULL/PSK",
                    ),
                )
            } else {
                Ok(chosen)
            }
        },
    }
}

/// How a device certificate is verified.
#[derive(Clone, Copy, Debug, PartialEq, Eq, Structural)]
pub enum Verification {
    /// Against the trust anchors, the name and the time.
    Full,
    /// As `Full`, but an expired or not yet valid certificate is tolerated.
    TolerateExpiry,
    /// Not at all; only possession of the key is proved.
    AcceptAny,
}

impl SecurityConfig {
    /// How the device certificate is to be verified, with or without trust anchors at hand.
    pub open spec fn policy(self, no_anchors: bool) -> Result<Verification, Seq<char>> {
        if !self.verify_peer {
            Ok(Verification::AcceptAny)
        } else if no_anchors {
            Err(
                "verifyPeer is on but no CA certificates were sourced (ca.secret/ca.file or a certSecret bundle with caPem)"@,
            )
        } else if self.check_expiration {
            Ok(Verification::Full)
        } else {
            Ok(Verification::TolerateExpiry)
        }
    }

    /// How the device certificate is to be verified, with or without trust anchors at hand.
    pub fn verification(&self, no_anchors: bool) -> (r: Result<Verification, String>)
        ensures
            match r {
                Ok(v) => self.policy(no_anchors) == Ok::<Verification, Seq<char>>(v),
                Err(m) => self.policy(no_anchors) == Err::<Verification, Seq<char>>(m@),
            },
    {
        if !self.verify_peer {
            Ok(Verification::AcceptAny)
        } else if no_anchors {
            Err(
                owned(
                    "verifyPeer is on but no CA certificates were sourced (ca.secret/ca.file or a certSecret bundle with caPem)",
                ),
            )
        } else if self.check_expiration {
            Ok(Verification::Full)
        } else {
            Ok(Verification::TolerateExpiry)
        }
    }
}

/// The first of the first `n` certificates that is refused as a trust anchor.
pub open spec fn first_refusal(certs: Seq<Seq<u8>>, n: nat) -> Option<Seq<char>>
    decreases n,
{
    if n == 0 {
        None
    } else {
        match first_refusal(certs, (n - 1) as nat) {
            Some(e) => Some(e),
            None => anchor_refusal(certs[n - 1]),
        }
    }
}

/// The trust anchors of the first `n` PEM texts, in order.
pub open spec fn anchors_of(pems: Seq<Seq<char>>, n: nat) -> Result<Seq<Seq<u8>>, Seq<char>>
    decreases n,
{
    if n == 0 {
        Ok(Seq::empty())
    } else {
        match anchors_of(pems, (n - 1) as nat) {
            Err(e) => Err(e),
            Ok(before) => match chain_of(certificates_in(pems[n - 1]), "CA"@) {
                Err(e) => Err(e),
                Ok(certs) => match first_refusal(certs, certs.len()) {
                    Some(e) => Err("adding CA certificate to the trust store: "@ + e),
                    None => Ok(before + certs),
                },
            },
        }
    }
}

fn add_anchors(roots: &mut Vec<Vec<u8>>, certs: Vec<Vec<u8>>) -> (r: Result<(), String>)
    ensures
        match first_refusal(ders(certs@), certs@.len()) {
            Some(e) => fault(r) == Some("adding CA certificate to the trust store: "@ + e),
            None => r is Ok && ders(final(roots)@) == ders(old(roots)@) + ders(certs@),
        },
{
    let ghost had = roots@;
    let mut i: usize = 0;
    while i < certs.len()
        invariant
            i <= certs@.len(),
            ders(roots@) == ders(had) + ders(certs@).take(i as int),
            first_refusal(ders(certs@), i as nat) is None,
        decreases certs@.len() - i,
    {
        match refuse_anchor(&certs[i]) {
            Some(e) => {
                proof {
                    assert(first_refusal(ders(certs@), (i + 1) as nat) == Some(e@));
                    lemma_refusal_stays(ders(certs@), (i + 1) as nat, certs@.len());
                }
                return Err(join2("adding CA certificate to the trust store: ", e.as_str()));
            },
            None => {
                let ghost sofar = roots@;
                let cert = certs[i].clone();
                roots.push(cert);
                assert(ders(roots@) =~= ders(sofar).push(ders(certs@)[i as int]));
                assert(ders(certs@).take(i + 1) =~= ders(certs@).take(i as int).push(
                    ders(certs@)[i as int],
                ));
                assert(ders(roots@) =~= ders(had) + ders(certs@).take(i + 1));
                i = i + 1;
            },
        }
    }
    assert(ders(certs@).take(i as int) =~= ders(certs@));
    Ok(())
}

proof fn lemma_refusal_stays(certs: Seq<Seq<u8>>, n: nat, m: nat)
    requires
        n <= m,
        first_refusal(certs, n) is Some,
    ensures
        first_refusal(certs, m) == first_refusal(certs, n),
    decreases m - n,
{
    if n < m {
        lemma_refusal_stays(certs, n, (m - 1) as nat);
    }
}

proof fn lemma_anchor_fault_stays(pems: Seq<Seq<char>>, n: nat, m: nat)
    requires
        n <= m,
        anchors_of(pems, n) is Err,
    ensures
        anchors_of(pems, m) == anchors_of(pems, n),
    decreases m - n,
{
    if n < m {
        lemma_anchor_fault_stays(pems, n, (m - 1) as nat);
    }
}

fn trust_anchors(pems: &Vec<String>) -> (r: Result<Vec<Vec<u8>>, String>)
    ensures
        certs_read(r) == anchors_of(texts(pems@), pems@.len()),
{
    let mut roots: Vec<Vec<u8>> = Vec::new();
    assert(ders(roots@) =~= Seq::empty());
    let mut i: usize = 0;
    while i < pems.len()
        invariant
            i <= pems@.len(),
            anchors_of(texts(pems@), i as nat) == Ok::<Seq<Seq<u8>>, Seq<char>>(ders(roots@)),
        decreases pems@.len() - i,
    {
        let ghost pem = texts(pems@)[i as int];
        match certs_from_pem(pems[i].as_str(), "CA") {
            Err(e) => {
                proof {
                    lemma_anchor_fault_stays(texts(pems@), (i + 1) as nat, pems@.len());
                }
                return Err(e);
            },
            Ok(certs) => match add_anchors(&mut roots, certs) {
                Err(e) => {
                    proof {
                        lemma_anchor_fault_stays(texts(pems@), (i + 1) as nat, pems@.len());
                    }
                    return Err(e);
                },
                Ok(()) => {},
            },
        }
        i = i + 1;
    }
    Ok(roots)
}

/// A certificate chain and its key.
#[derive(Clone)]
pub struct ChainAndKey {
    pub chain: Vec<Vec<u8>>,
    pub key: KeyDer,
}

/// A certificate chain and its key.
pub struct ChainAndKeyV {
    pub chain: Seq<Seq<u8>>,
    pub key: (KeyFormat, Seq<u8>),
}

impl View for ChainAndKey {
    type V = ChainAndKeyV;

    open spec fn view(&self) -> ChainAndKeyV {
        ChainAndKeyV { chain: ders(self.chain@), key: self.key@ }
    }
}

/// The client identity of two PEM texts.
pub open spec fn identity_of(cert_pem: Seq<char>, key_pem: Seq<char>) -> Result<
    ChainAndKeyV,
    Seq<char>,
> {
    match chain_of(certificates_in(cert_pem), "client certificate"@) {
        Err(e) => Err(e),
        Ok(chain) => if chain.len() == 0 {
            Err("client certificate PEM held no certificates"@)
        } else {
            match key_of(private_key_in(key_pem)) {
                Err(e) => Err(e),
                Ok(key) => Ok(ChainAndKeyV { chain, key }),
            }
        },
    }
}

fn client_identity(cert_pem: &str, key_pem: &str) -> (r: Result<ChainAndKey, String>)
    ensures
        outcome(r) == identity_of(cert_pem@, key_pem@),
{
    match certs_from_pem(cert_pem, "client certificate") {
        Err(e) => Err(e),
        Ok(chain) => {
            assert(ders(chain@).len() == chain@.len());
            if chain.len() == 0 {
                return Err(owned("client certificate PEM held no certificates"));
            }
            match key_from_pem(key_pem) {
                Err(e) => Err(e),
                Ok(key) => Ok(ChainAndKey { chain, key }),
            }
        },
    }
}

/// What a TLS session is opened with.
pub struct TlsOptions {
    /// What the device certificate is verified against.
    pub roots: Vec<Vec<u8>>,
    pub identity: Option<ChainAndKey>,
    /// The cipher suites to offer.
    pub suites: Vec<String>,
    pub verification: Verification,
    pub server_name: ServerIdentity,
}

/// What a TLS session is opened with.
pub struct TlsOptionsV {
    pub roots: Seq<Seq<u8>>,
    pub identity: Option<ChainAndKeyV>,
    pub suites: Seq<Seq<char>>,
    pub verification: Verification,
    pub server_name: ServerIdentityV,
}

impl View for TlsOptions {
    type V = TlsOptionsV;

    open spec fn view(&self) -> TlsOptionsV {
        TlsOptionsV {
            roots: ders(self.roots@),
            identity: match self.identity {
                Some(i) => Some(i@),
                None => None,
            },
            suites: texts(self.suites@),
            verification: self.verification,
            server_name: self.server_name@,
        }
    }
}

/// The client identity of what was sourced, if there is one.
pub open spec fn identity_in(m: MaterialV) -> Result<Option<ChainAndKeyV>, Seq<char>> {
    match m.identity {
        None => Ok(None),
        Some((cert, key)) => match identity_of(cert, key) {
            Ok(i) => Ok(Some(i)),
            Err(e) => Err(e),
        },
    }
}

/// Why the client identity cannot be installed, if it cannot.
pub open spec fn install_fault(identity: Option<ChainAndKeyV>) -> Option<Seq<char>> {
    match identity {
        Some(i) => match identity_refusal(i.chain, i.key.0, i.key.1) {
            Some(e) => Some("installing the client certificate/key: "@ + e),
            None => None,
        },
        None => None,
    }
}

/// The end of validity of the first certificate of the client identity.
pub open spec fn own_expiry(identity: Option<ChainAndKeyV>) -> Option<Seq<char>> {
    match identity {
        Some(i) => expiry_text_of(expiry_of(i.chain[0])),
        None => None,
    }
}

impl SecurityConfig {
    /// What a session is opened with, or the first thing that stands in its way: the material, the
    /// trust anchors, the identity, the suites, the policy, the pairing of chain and key, the name.
    pub open spec fn planned(self, endpoint: Seq<char>, f: Fetched) -> Result<TlsOptionsV, Seq<char>> {
        match self.sourced(f) {
            Err(e) => Err(e),
            Ok(m) => match anchors_of(m.roots, m.roots.len()) {
                Err(e) => Err(e),
                Ok(roots) => match identity_in(m) {
                    Err(e) => Err(e),
                    Ok(identity) => match suites_of(names_view(self.cipher_suites), ring_suites()) {
                        Err(e) => Err(e),
                        Ok(suites) => match self.policy(roots.len() == 0) {
                            Err(e) => Err(e),
                            Ok(verification) => match install_fault(identity) {
                                Some(e) => Err(e),
                                None => {
                                    let name = self.name_to_verify(endpoint);
                                    match identity_behind(
                                        name,
                                        ip_literal(name),
                                        server_name_syntax(name),
                                    ) {
                                        Err(e) => Err(e),
                                        Ok(server_name) => Ok(
                                            TlsOptionsV {
                                                roots,
                                                identity,
                                                suites,
                                                verification,
                                                server_name,
                                            },
                                        ),
                                    }
                                },
                            },
                        },
                    },
                },
            },
        }
    }
}

/// What a TLS session is opened with, from the block, the endpoint and what was fetched, together with
/// what the status surface is to say of it.
pub fn build_client_config(sec: &SecurityConfig, endpoint: &str, fetched: &Fetched) -> (r: Result<
    (TlsOptions, TlsMeta),
    String,
>)
    ensures
        match r {
            Ok((options, meta)) => {
                &&& sec.planned(endpoint@, *fetched) == Ok::<TlsOptionsV, Seq<char>>(options@)
                &&& text_view(meta.client_cert_not_after) == own_expiry(options@.identity)
                &&& meta.verify_peer == sec.verify_peer
            },
            Err(m) => sec.planned(endpoint@, *fetched) == Err::<TlsOptionsV, Seq<char>>(m@),
        },
{
    let material = match sec.source(fetched) {
        Ok(m) => m,
        Err(e) => {
            return Err(e);
        },
    };
    assert(material@.roots.len() == material.roots@.len());
    let roots = match trust_anchors(&material.roots) {
        Ok(v) => v,
        Err(e) => {
            return Err(e);
        },
    };
    let identity: Option<ChainAndKey> = match &material.identity {
        Some((cert, key)) => match client_identity(cert.as_str(), key.as_str()) {
            Ok(i) => Some(i),
            Err(e) => {
                return Err(e);
            },
        },
        None => None,
    };
    let client_cert_not_after = match &identity {
        Some(i) => {
            assert(ders(i.chain@).len() == i.chain@.len());
            cert_not_after(&i.chain[0])
        },
        None => None,
    };
    let suites = match choose_suites(&sec.cipher_suites, supported_suites()) {
        Ok(v) => v,
        Err(e) => {
            return Err(e);
        },
    };
    assert(ders(roots@).len() == roots@.len());
    let verification = match sec.verification(roots.len() == 0) {
        Ok(v) => v,
        Err(e) => {
            return Err(e);
        },
    };
    if let Some(i) = &identity {
        if let Some(e) = refuse_identity(&i.chain, &i.key) {
            return Err(join2("installing the client certificate/key: ", e.as_str()));
        }
    }
    let server_name = match resolve_server_name(sec, endpoint) {
        Ok(n) => n,
        Err(e) => {
            return Err(e);
        },
    };
    Ok(
        (
            TlsOptions { roots, identity, suites, verification, server_name },
            TlsMeta { client_cert_not_after, verify_peer: sec.verify_peer },
        ),
    )
}

/// A session whose peer is to be verified is opened only with trust anchors at hand, and no other
/// verification is put in its place.
pub proof fn a_verified_session_has_anchors(s: SecurityConfig, endpoint: Seq<char>, f: Fetched)
    requires
        s.planned(endpoint, f) is Ok,
    ensures
        s.verify_peer ==> s.planned(endpoint, f)->Ok_0.roots.len() > 0
            && s.planned(endpoint, f)->Ok_0.verification != Verification::AcceptAny,
        s.verify_peer && s.check_expiration ==> s.planned(endpoint, f)->Ok_0.verification
            == Verification::Full,
        !s.verify_peer ==> s.planned(endpoint, f)->Ok_0.verification == Verification::AcceptAny,
{
}

/// A session offers at least one cipher suite, and only suites that are supported; with an allow-list,
/// only suites that it names.
pub proof fn a_session_offers_allowed_suites(s: SecurityConfig, endpoint: Seq<char>, f: Fetched)
    requires
        s.planned(endpoint, f) is Ok,
    ensures
        s.planned(endpoint, f)->Ok_0.suites.len() > 0,
        forall|i: int|
            0 <= i < s.planned(endpoint, f)->Ok_0.suites.len() ==> {
                &&& ring_suites().contains(#[trigger] s.planned(endpoint, f)->Ok_0.suites[i])
                &&& s.cipher_suites matches Some(names) ==> is_wanted(
                    texts(names@),
                    s.planned(endpoint, f)->Ok_0.suites[i],
                )
            },
{
    if let Some(names) = s.cipher_suites {
        lemma_wanted_among(texts(names@), ring_suites(), ring_suites().len());
    }
}

proof fn lemma_wanted_among(names: Seq<Seq<char>>, supported: Seq<Seq<char>>, n: nat)
    requires
        n <= supported.len(),
    ensures
        forall|i: int|
            0 <= i < wanted_among(names, supported, n).len() ==> supported.contains(
                #[trigger] wanted_among(names, supported, n)[i],
            ) && is_wanted(names, wanted_among(names, supported, n)[i]),
    decreases n,
{
    if n > 0 {
        lemma_wanted_among(names, supported, (n - 1) as nat);
        assert(supported.contains(supported[n - 1]));
        let before = wanted_among(names, supported, (n - 1) as nat);
        let now = wanted_among(names, supported, n);
        assert forall|i: int| 0 <= i < now.len() implies supported.contains(#[trigger] now[i])
            && is_wanted(names, now[i]) by {
            if i < before.len() {
                assert(now[i] == before[i]);
            }
        }
    }
}

// ---- the status of a session ----

/// What was negotiated on a session.
#[derive(Clone, Debug)]
pub struct TlsSessionInfo {
    pub protocol_version: Option<String>,
    pub cipher_suite: Option<String>,
    pub peer_cert_der: Option<Vec<u8>>,
}

/// The subject of the device certificate, if it was presented and has one.
pub open spec fn peer_subject(info: Option<TlsSessionInfo>) -> Option<Seq<char>> {
    match info {
        Some(i) => match i.peer_cert_der {
            Some(der) => shown_subject(subject_in(der@)),
            None => None,
        },
        None => None,
    }
}

/// What is known of a session's security: what was negotiated, what was configured, and the subject of
/// the device certificate or, without one, the endpoint host.
pub open spec fn status_of(
    info: Option<TlsSessionInfo>,
    subject: Option<Seq<char>>,
    meta: TlsMeta,
    endpoint: Seq<char>,
) -> SecurityStatusV {
    SecurityStatusV {
        tls: true,
        tls_version: match info {
            Some(i) => text_view(i.protocol_version),
            None => None,
        },
        cipher_suite: match info {
            Some(i) => text_view(i.cipher_suite),
            None => None,
        },
        peer_verified: meta.verify_peer,
        peer: match subject {
            Some(s) => Some(s),
            None => Some(host(endpoint)),
        },
        client_cert_not_after: text_view(meta.client_cert_not_after),
        client_cert_expiry_days: None,
        target: None,
    }
}

/// What is known of a session's security, given the subject of the device certificate.
pub fn security_status_with(
    info: &Option<TlsSessionInfo>,
    subject: Option<String>,
    meta: &TlsMeta,
    endpoint: &str,
) -> (r: SecurityStatus)
    ensures
        r@ == status_of(*info, text_view(subject), *meta, endpoint@),
{
    let tls_version = match info {
        Some(i) => copy_text(&i.protocol_version),
        None => None,
    };
    let cipher_suite = match info {
        Some(i) => copy_text(&i.cipher_suite),
        None => None,
    };
    let peer = match subject {
        Some(s) => s,
        None => host_of(endpoint),
    };
    SecurityStatus {
        tls: true,
        tls_version,
        cipher_suite,
        peer_verified: meta.verify_peer,
        peer: Some(peer),
        client_cert_not_after: copy_text(&meta.client_cert_not_after),
        client_cert_expiry_days: None,
        target: None,
    }
}

/// What is known of a session's security.
pub fn security_status(info: &Option<TlsSessionInfo>, meta: &TlsMeta, endpoint: &str) -> (r:
    SecurityStatus)
    ensures
        r@ == status_of(*info, peer_subject(*info), *meta, endpoint@),
{
    let subject: Option<String> = match info {
        Some(i) => match &i.peer_cert_der {
            Some(der) => cert_subject(der),
            None => None,
        },
        None => None,
    };
    security_status_with(info, subject, meta, endpoint)
}

// ---- what holds of every block, host, material and plan ----

/// A TLS block on a polled device passes exactly when it names an identity, in the vault or by both files,
/// and, to verify the peer, something to verify it against: anchors of its own, or a bundle that may bring
/// some. What it is refused for names the device.
pub proof fn a_polled_tls_block_needs_an_identity_and_anchors(s: SecurityConfig, id: Seq<char>)
    requires
        s.mode is Tls,
    ensures
        s.refusal(id, false) is None <==> {
            &&& s.client is Some
            &&& s.client->0.cert_secret is Some || (s.client->0.cert_file is Some
                && s.client->0.key_file is Some)
            &&& s.verify_peer ==> s.client->0.cert_secret is Some || (s.ca is Some && (
            s.ca->0.secret is Some || s.ca->0.file is Some))
        },
        s.refusal(id, false) matches Some(why) ==> ("device `"@ + id).is_prefix_of(why),
        s.refusal(id, true) matches Some(why) ==> ("device `"@ + id).is_prefix_of(why),
        s.refusal(id, true) is Some,
{
    let device = "device `"@ + id;
    if let Some(why) = s.refusal(id, false) {
        assert(why.take(device.len() as int) =~= device);
    }
    if let Some(why) = s.refusal(id, true) {
        assert(why.take(device.len() as int) =~= device);
    }
}

/// The host of a bracketed endpoint is what stands in the brackets, whatever follows them.
pub proof fn a_bracketed_host_is_what_the_brackets_hold(inside: Seq<char>, rest: Seq<char>)
    requires
        forall|i: int| 0 <= i < inside.len() ==> #[trigger] inside[i] != ']',
    ensures
        host(seq!['['] + inside + seq![']'] + rest) == inside,
{
    let e = seq!['['] + inside + seq![']'] + rest;
    e.index_of_first_ensures(']');
    let at = inside.len() + 1;
    assert(e[at as int] == ']');
    assert(e.contains(']'));
    let k = e.index_of_first(']')->0;
    if k < at {
        if k > 0 {
            assert(e[k] == inside[k - 1]);
        }
        assert(false);
    }
    assert(k == at) by {
        if k > at {
            assert(e[at as int] != ']');
        }
    }
    assert(e.subrange(1, k) =~= inside);
}

/// The host of an endpoint without brackets is what stands before its port: the digits behind the last
/// colon. An endpoint without a colon, or with something else than digits behind the last one, is its own
/// host.
pub proof fn a_port_is_no_part_of_a_host(name: Seq<char>, tail: Seq<char>)
    requires
        name.len() == 0 || name[0] != '[',
        forall|i: int| 0 <= i < tail.len() ==> #[trigger] tail[i] != ':',
    ensures
        ({
            let digits = tail.len() > 0 && forall|i: int|
                0 <= i < tail.len() ==> '0' <= #[trigger] tail[i] <= '9';
            &&& digits ==> host(name + seq![':'] + tail) == name
            &&& !digits ==> host(name + seq![':'] + tail) == name + seq![':'] + tail
        }),
        (tail.len() == 0 || tail[0] != '[') ==> host(tail) == tail,
{
    let e = name + seq![':'] + tail;
    e.index_of_last_ensures(':');
    let at = name.len();
    assert(e[at as int] == ':');
    assert(e.contains(':'));
    let k = e.index_of_last(':')->0;
    if k > at {
        assert(e[k] == tail[k - at - 1]);
        assert(false);
    }
    assert(k == at) by {
        if k < at {
            assert(e[at as int] != ':');
        }
    }
    assert(e.subrange(k + 1, e.len() as int) =~= tail);
    assert(e.subrange(0, k) =~= name);
    assert(e[0] == if name.len() > 0 {
        name[0]
    } else {
        ':'
    });
    tail.index_of_last_ensures(':');
}

/// The name to verify is the configured one; without one it is the endpoint's host. It is verified as what
/// it is: an IP address as an address, anything else as a DNS name, and nothing that is neither.
pub proof fn a_peer_is_verified_under_its_name(
    s: SecurityConfig,
    endpoint: Seq<char>,
    raw: Seq<char>,
    ip: bool,
    well_formed: bool,
)
    ensures
        s.server_name matches Some(n) ==> s.name_to_verify(endpoint) == n@,
        s.server_name is None ==> s.name_to_verify(endpoint) == host(endpoint),
        identity_behind(raw, ip, well_formed) is Ok <==> ip || well_formed,
        ip ==> identity_behind(raw, ip, well_formed) == Ok::<ServerIdentityV, Seq<char>>(
            ServerIdentityV::IpAddress(raw),
        ),
        !ip && well_formed ==> identity_behind(raw, ip, well_formed) == Ok::<
            ServerIdentityV,
            Seq<char>,
        >(ServerIdentityV::DnsName(raw)),
        !ip && !well_formed ==> identity_behind(raw, ip, well_formed) == Err::<
            ServerIdentityV,
            Seq<char>,
        >("invalid serverName `"@ + raw + "`: invalid dns name"@),
{
}

/// The identity of a session is that of the bundle the block names, and of the files only where it names no
/// bundle; a bundle that cannot be had is never replaced by anything.
pub proof fn the_identity_is_the_one_the_block_names(s: SecurityConfig, f: Fetched, m: MaterialV)
    requires
        s.sourced(f) == Ok::<MaterialV, Seq<char>>(m),
    ensures
        s.client is None ==> m.identity is None,
        s.client is Some && s.client->0.cert_secret is Some ==> {
            &&& f.vault
            &&& f.bundle matches Ok(Some(b)) && m.identity == Some((b.cert_pem@, b.key_pem@))
        },
        s.client is Some && s.client->0.cert_secret is None && s.client->0.cert_file is Some
            && s.client->0.key_file is Some ==> {
            &&& f.cert_file is Ok
            &&& f.key_file is Ok
            &&& m.identity == Some((f.cert_file->Ok_0@, f.key_file->Ok_0@))
        },
        s.client is Some && !s.client->0.usable() ==> m.identity is None,
{
}

/// What a session trusts is what came along in the bundle, then the secret the block names, or the file
/// where it names no secret; nothing that was named is left out and nothing else is taken in.
pub proof fn the_anchors_are_those_the_block_names(s: SecurityConfig, f: Fetched, m: MaterialV)
    requires
        s.sourced(f) == Ok::<MaterialV, Seq<char>>(m),
    ensures
        ({
            let brought = s.client is Some && s.client->0.cert_secret is Some
                && f.bundle->Ok_0->0.ca_pem is Some;
            let named = s.ca is Some && (s.ca->0.secret is Some || s.ca->0.file is Some);
            &&& m.roots.len() == (if brought {
                1int
            } else {
                0
            }) + (if named {
                1int
            } else {
                0
            })
            &&& brought ==> m.roots[0] == f.bundle->Ok_0->0.ca_pem->0@
            &&& named && s.ca->0.secret is Some ==> f.vault && m.roots.last()
                == f.ca_secret->Ok_0->0@
            &&& named && s.ca->0.secret is None ==> m.roots.last() == f.ca_file->Ok_0@
        }),
{
}

/// What a block names and what cannot be had is always an error that names it: nothing is opened without
/// it.
pub proof fn what_cannot_be_had_is_an_error(s: SecurityConfig, f: Fetched)
    ensures
        s.client is Some && s.client->0.cert_secret is Some && (!f.vault || f.bundle is Err
            || f.bundle->Ok_0 is None) ==> s.sourced(f) is Err,
        s.client is Some && s.client->0.cert_secret is None && s.client->0.cert_file is Some
            && s.client->0.key_file is Some && (f.cert_file is Err || f.key_file is Err)
            ==> s.sourced(f) is Err,
        s.ca is Some && s.ca->0.secret is Some && (!f.vault || f.ca_secret is Err
            || f.ca_secret->Ok_0 is None) ==> s.sourced(f) is Err,
        s.ca is Some && s.ca->0.secret is None && s.ca->0.file is Some && f.ca_file is Err
            ==> s.sourced(f) is Err,
        s.client is Some && s.client->0.cert_secret is Some && !f.vault ==> s.sourced(f) == Err::<
            MaterialV,
            Seq<char>,
        >(
            "client.certSecret `"@ + s.client->0.cert_secret->0@
                + "` is set but no credentials vault is configured"@,
        ),
{
}

/// And everything that was named and could be had makes the material complete.
pub proof fn what_can_be_had_is_enough(s: SecurityConfig, f: Fetched)
    requires
        s.client is Some && s.client->0.cert_secret is Some ==> f.vault && f.bundle is Ok
            && f.bundle->Ok_0 is Some,
        s.client is Some && s.client->0.cert_secret is None && s.client->0.cert_file is Some
            && s.client->0.key_file is Some ==> f.cert_file is Ok && f.key_file is Ok,
        s.ca is Some && s.ca->0.secret is Some ==> f.vault && f.ca_secret is Ok
            && f.ca_secret->Ok_0 is Some,
        s.ca is Some && s.ca->0.secret is None && s.ca->0.file is Some ==> f.ca_file is Ok,
    ensures
        s.sourced(f) is Ok,
{
}

/// A reader's verdict is handed on as it is: what was read, or an error that says what was being read.
pub proof fn a_reader_is_believed(
    certs: Result<Seq<Seq<u8>>, Seq<char>>,
    what: Seq<char>,
    key: Result<Option<(KeyFormat, Seq<u8>)>, Seq<char>>,
    secs: Option<u64>,
    subject: Option<Seq<char>>,
)
    ensures
        certs matches Ok(c) ==> chain_of(certs, what) == Ok::<Seq<Seq<u8>>, Seq<char>>(c),
        certs matches Err(e) ==> chain_of(certs, what) == Err::<Seq<Seq<u8>>, Seq<char>>(
            "parsing "@ + what + " PEM: "@ + e,
        ),
        key_of(key) is Ok <==> key is Ok && key->Ok_0 is Some,
        key_of(key) matches Ok(k) ==> key == Ok::<Option<(KeyFormat, Seq<u8>)>, Seq<char>>(Some(k)),
        key matches Err(e) ==> key_of(key) == Err::<(KeyFormat, Seq<u8>), Seq<char>>(
            "parsing private key PEM: "@ + e,
        ),
        secs is None ==> expiry_text_of(secs) is None,
        secs matches Some(n) ==> (if n <= i64::MAX {
            expiry_text_of(secs) == rfc3339_of(n as i64)
        } else {
            expiry_text_of(secs) is None
        }),
        shown_subject(subject) is Some <==> subject is Some && subject->0.len() > 0,
        shown_subject(subject) matches Some(t) ==> subject == Some(t),
{
}

/// An allow-list picks, of the supported suites and in their order, exactly those that it names, whatever
/// the case of its letters.
pub proof fn an_allow_list_picks_what_it_names(
    names: Seq<Seq<char>>,
    supported: Seq<Seq<char>>,
    n: nat,
) -> (places: Seq<int>)
    requires
        n <= supported.len(),
    ensures
        ({
            let picked = wanted_among(names, supported, n);
            &&& places.len() == picked.len()
            &&& forall|a: int, b: int| 0 <= a < b < places.len() ==> places[a] < places[b]
            &&& forall|k: int|
                0 <= k < places.len() ==> 0 <= #[trigger] places[k] < n && picked[k]
                    == supported[places[k]]
            &&& forall|i: int|
                0 <= i < n ==> (#[trigger] places.contains(i) <==> exists|j: int|
                    0 <= j < names.len() && same_letters(#[trigger] names[j], supported[i]))
        }),
    decreases n,
{
    if n == 0 {
        Seq::empty()
    } else {
        let before = an_allow_list_picks_what_it_names(names, supported, (n - 1) as nat);
        let places = if is_wanted(names, supported[n - 1]) {
            before.push(n - 1)
        } else {
            before
        };
        assert forall|i: int| 0 <= i < n implies (#[trigger] places.contains(i) <==> exists|j: int|
            0 <= j < names.len() && same_letters(#[trigger] names[j], supported[i])) by {
            crate::engine::lemma_int_push(before, n - 1, i);
            if i == n - 1 && before.contains(i) {
                let k = choose|k: int| 0 <= k < before.len() && before[k] == i;
                assert(before[k] < n - 1);
            }
        }
        places
    }
}

/// Without an allow-list every supported suite is offered; with one, those it picks, and it is refused
/// exactly when it picks none.
pub proof fn suites_are_all_or_the_picked(names: Option<Seq<Seq<char>>>, supported: Seq<Seq<char>>)
    ensures
        names is None ==> suites_of(names, supported) == Ok::<Seq<Seq<char>>, Seq<char>>(supported),
        names matches Some(list) ==> ({
            let picked = wanted_among(list, supported, supported.len());
            &&& suites_of(names, supported) is Ok <==> picked.len() > 0
            &&& picked.len() > 0 ==> suites_of(names, supported) == Ok::<Seq<Seq<char>>, Seq<char>>(
                picked,
            )
        }),
{
}

/// A peer is verified in full, without its dates, or not at all, as the block says; with anchors missing it
/// is an error, unless the peer is not verified.
pub proof fn a_peer_is_verified_as_the_block_says(s: SecurityConfig, no_anchors: bool)
    ensures
        !s.verify_peer ==> s.policy(no_anchors) == Ok::<Verification, Seq<char>>(
            Verification::AcceptAny,
        ),
        s.verify_peer && no_anchors ==> s.policy(no_anchors) is Err,
        s.verify_peer && !no_anchors && s.check_expiration ==> s.policy(no_anchors) == Ok::<
            Verification,
            Seq<char>,
        >(Verification::Full),
        s.verify_peer && !no_anchors && !s.check_expiration ==> s.policy(no_anchors) == Ok::<
            Verification,
            Seq<char>,
        >(Verification::TolerateExpiry),
{
}

/// The first certificate that is refused as an anchor is the one that is told of; none is only where none
/// is refused.
pub proof fn the_first_refused_anchor_is_told(certs: Seq<Seq<u8>>, n: nat) -> (at: int)
    requires
        n <= certs.len(),
    ensures
        match first_refusal(certs, n) {
            None => forall|i: int| 0 <= i < n ==> anchor_refusal(#[trigger] certs[i]) is None,
            Some(e) => {
                &&& 0 <= at < n
                &&& anchor_refusal(certs[at]) == Some(e)
                &&& forall|i: int| 0 <= i < at ==> anchor_refusal(#[trigger] certs[i]) is None
            },
        },
    decreases n,
{
    if n == 0 {
        0
    } else {
        let before = the_first_refused_anchor_is_told(certs, (n - 1) as nat);
        if first_refusal(certs, (n - 1) as nat) is Some {
            before
        } else {
            n - 1
        }
    }
}

/// Anchors are trusted all or none: where they are, every certificate of every text is among them, each was
/// accepted, and there is no other.
pub proof fn every_anchor_of_every_text_is_trusted(pems: Seq<Seq<char>>, n: nat, roots: Seq<Seq<u8>>)
    requires
        n <= pems.len(),
        anchors_of(pems, n) == Ok::<Seq<Seq<u8>>, Seq<char>>(roots),
    ensures
        forall|k: int|
            0 <= k < n ==> certificates_in(#[trigger] pems[k]) is Ok && forall|i: int|
                0 <= i < certificates_in(pems[k])->Ok_0.len() ==> roots.contains(
                    #[trigger] certificates_in(pems[k])->Ok_0[i],
                ),
        forall|r: int|
            0 <= r < roots.len() ==> anchor_refusal(#[trigger] roots[r]) is None && exists|k: int|
                0 <= k < n && certificates_in(#[trigger] pems[k])->Ok_0.contains(roots[r]),
        n == 0 ==> roots.len() == 0,
        n > 0 ==> roots.len() == anchors_of(pems, (n - 1) as nat)->Ok_0.len() + certificates_in(
            pems[n - 1],
        )->Ok_0.len(),
    decreases n,
{
    if n > 0 {
        let had = anchors_of(pems, (n - 1) as nat)->Ok_0;
        every_anchor_of_every_text_is_trusted(pems, (n - 1) as nat, had);
        let certs = certificates_in(pems[n - 1])->Ok_0;
        let at = the_first_refused_anchor_is_told(certs, certs.len());
        assert(roots == had + certs);
        assert forall|k: int| 0 <= k < n implies certificates_in(#[trigger] pems[k]) is Ok
            && forall|i: int|
            0 <= i < certificates_in(pems[k])->Ok_0.len() ==> roots.contains(
                #[trigger] certificates_in(pems[k])->Ok_0[i],
            ) by {
            let these = certificates_in(pems[k])->Ok_0;
            assert forall|i: int| 0 <= i < these.len() implies roots.contains(
                #[trigger] these[i],
            ) by {
                if k < n - 1 {
                    assert(had.contains(these[i]));
                    let j = choose|j: int| 0 <= j < had.len() && had[j] == these[i];
                    assert(roots[j] == these[i]);
                } else {
                    assert(roots[had.len() + i] == these[i]);
                }
            }
        }
        assert forall|r: int| 0 <= r < roots.len() implies anchor_refusal(#[trigger] roots[r]) is None
            && exists|k: int|
            0 <= k < n && certificates_in(#[trigger] pems[k])->Ok_0.contains(roots[r]) by {
            if r < had.len() {
                assert(roots[r] == had[r]);
                let k = choose|k: int|
                    0 <= k < n - 1 && certificates_in(#[trigger] pems[k])->Ok_0.contains(had[r]);
                assert(certificates_in(pems[k])->Ok_0.contains(roots[r]));
            } else {
                assert(roots[r] == certs[r - had.len()]);
                assert(certificates_in(pems[n - 1])->Ok_0.contains(roots[r]));
            }
        }
    }
}

/// A client identity is the whole chain of the certificate text and the key of the key text, and there is
/// none without a certificate or without a key.
pub proof fn an_identity_is_its_chain_and_its_key(cert_pem: Seq<char>, key_pem: Seq<char>)
    ensures
        identity_of(cert_pem, key_pem) is Ok <==> {
            &&& certificates_in(cert_pem) is Ok
            &&& certificates_in(cert_pem)->Ok_0.len() > 0
            &&& private_key_in(key_pem) is Ok
            &&& private_key_in(key_pem)->Ok_0 is Some
        },
        identity_of(cert_pem, key_pem) matches Ok(i) ==> i.chain == certificates_in(cert_pem)->Ok_0
            && Some(i.key) == private_key_in(key_pem)->Ok_0,
{
}

/// A session is opened with what was sourced for it and with nothing else: the anchors of its texts, its
/// own chain and key, which belong together, the suites the block allows, and the name it verifies.
pub proof fn a_session_is_opened_with_what_was_sourced(
    s: SecurityConfig,
    endpoint: Seq<char>,
    f: Fetched,
    o: TlsOptionsV,
)
    requires
        s.planned(endpoint, f) == Ok::<TlsOptionsV, Seq<char>>(o),
    ensures
        s.sourced(f) is Ok,
        ({
            let m = s.sourced(f)->Ok_0;
            &&& anchors_of(m.roots, m.roots.len()) == Ok::<Seq<Seq<u8>>, Seq<char>>(o.roots)
            &&& m.identity is None ==> o.identity is None
            &&& m.identity matches Some(pair) ==> o.identity is Some && (o.identity->0).chain
                == certificates_in(pair.0)->Ok_0 && Some((o.identity->0).key) == private_key_in(
                pair.1,
            )->Ok_0
        }),
        o.identity matches Some(i) ==> identity_refusal(i.chain, i.key.0, i.key.1) is None
            && own_expiry(o.identity) == expiry_text_of(expiry_of(i.chain[0])),
        o.identity is None ==> own_expiry(o.identity) is None,
        match o.server_name {
            ServerIdentityV::IpAddress(t) => t == s.name_to_verify(endpoint) && ip_literal(t),
            ServerIdentityV::DnsName(t) => t == s.name_to_verify(endpoint) && !ip_literal(t)
                && server_name_syntax(t),
        },
        s.cipher_suites is None ==> o.suites == ring_suites(),
        s.verify_peer && !s.check_expiration ==> o.verification is TolerateExpiry,
{
}

/// Whatever is wrong stands in the way of a session; nothing that is wrong is passed over.
pub proof fn nothing_wrong_is_passed_over(s: SecurityConfig, endpoint: Seq<char>, f: Fetched)
    ensures
        s.sourced(f) is Err ==> s.planned(endpoint, f) is Err,
        s.sourced(f) matches Ok(m) ==> ({
            let name = s.name_to_verify(endpoint);
            s.planned(endpoint, f) is Ok <==> {
                &&& anchors_of(m.roots, m.roots.len()) is Ok
                &&& m.identity is Some ==> identity_of((m.identity->0).0, (m.identity->0).1) is Ok
                &&& suites_of(names_view(s.cipher_suites), ring_suites()) is Ok
                &&& s.verify_peer ==> anchors_of(m.roots, m.roots.len())->Ok_0.len() > 0
                &&& m.identity is Some ==> ({
                    let i = identity_of((m.identity->0).0, (m.identity->0).1)->Ok_0;
                    identity_refusal(i.chain, i.key.0, i.key.1) is None
                })
                &&& ip_literal(name) || server_name_syntax(name)
            }
        }),
{
}

/// The status of a session says what was negotiated and configured, and names the peer by its subject, or
/// by the host where it has none.
pub proof fn a_status_says_what_was_negotiated(
    info: Option<TlsSessionInfo>,
    subject: Option<Seq<char>>,
    meta: TlsMeta,
    endpoint: Seq<char>,
)
    ensures
        ({
            let s = status_of(info, subject, meta, endpoint);
            &&& s.tls
            &&& info matches Some(i) ==> s.tls_version == text_view(i.protocol_version)
                && s.cipher_suite == text_view(i.cipher_suite)
            &&& info is None ==> s.tls_version is None && s.cipher_suite is None
            &&& s.peer_verified == meta.verify_peer
            &&& subject is Some ==> s.peer == subject
            &&& subject is None ==> s.peer == Some(host(endpoint))
            &&& s.client_cert_not_after == text_view(meta.client_cert_not_after)
            &&& s.client_cert_expiry_days is None
            &&& s.target is None
        }),
        info is None ==> peer_subject(info) is None,
        info matches Some(i) ==> (match i.peer_cert_der {
            Some(der) => peer_subject(info) == shown_subject(subject_in(der@)),
            None => peer_subject(info) is None,
        }),
{
}

} // verus!
