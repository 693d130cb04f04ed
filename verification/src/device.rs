//! What a device session hands over.

use vstd::prelude::*;

use crate::clock::Instant;
use crate::json::{Json, JsonV, Object};
use crate::text::{append_decimal, append_hex, decimal_nat, hex_nat, texts};

verus! {

/// How far a reading can be trusted.
#[derive(Clone, Copy, Debug, PartialEq, Eq, Structural)]
pub enum Quality {
    Good,
    Bad,
    Uncertain,
}

/// One signal as a session read it.
#[derive(Debug)]
pub struct Reading {
    /// The stable id of the signal.
    pub signal_id: String,
    pub name: Option<String>,
    pub value: Json,
    pub quality: Quality,
    /// The native quality text.
    pub quality_raw: Option<String>,
    /// The type the reply declared.
    pub observed_type: Option<String>,
}

/// The characters of an optional text.
pub open spec fn text_view(s: Option<String>) -> Option<Seq<char>> {
    match s {
        Some(t) => Some(t@),
        None => None,
    }
}

/// A copy of an optional text.
pub fn copy_text(s: &Option<String>) -> (r: Option<String>)
    ensures
        text_view(r) == text_view(*s),
{
    match s {
        Some(t) => Some(t.clone()),
        None => None,
    }
}

/// A reading, with its value and texts as what they mean.
pub struct ReadingV {
    pub signal_id: Seq<char>,
    pub name: Option<Seq<char>>,
    pub value: JsonV,
    pub quality: Quality,
    pub quality_raw: Option<Seq<char>>,
    pub observed_type: Option<Seq<char>>,
}

impl View for Reading {
    type V = ReadingV;

    open spec fn view(&self) -> ReadingV {
        ReadingV {
            signal_id: self.signal_id@,
            name: text_view(self.name),
            value: self.value@,
            quality: self.quality,
            quality_raw: text_view(self.quality_raw),
            observed_type: text_view(self.observed_type),
        }
    }
}

/// Readings, in order.
pub open spec fn readings(s: Seq<Reading>) -> Seq<ReadingV> {
    Seq::new(s.len(), |i: int| s[i]@)
}

/// A copy of readings.
pub fn copy_readings(list: &Vec<Reading>) -> (r: Vec<Reading>)
    ensures
        readings(r@) == readings(list@),
{
    let mut out: Vec<Reading> = Vec::new();
    let mut i: usize = 0;
    while i < list.len()
        invariant
            i <= list@.len(),
            out@.len() == i,
            forall|k: int| 0 <= k < i ==> #[trigger] out@[k]@ == list@[k]@,
        decreases list@.len() - i,
    {
        let one = &list[i];
        out.push(
            Reading {
                signal_id: one.signal_id.clone(),
                name: copy_text(&one.name),
                value: one.value.copy(),
                quality: one.quality,
                quality_raw: copy_text(&one.quality_raw),
                observed_type: copy_text(&one.observed_type),
            },
        );
        i = i + 1;
    }
    assert(readings(out@) =~= readings(list@));
    out
}

/// The last consumed frame of a connection.
#[derive(Debug)]
pub struct InputSnapshot {
    pub readings: Vec<Reading>,
    pub received_at: Instant,
    pub run_mode: bool,
}

/// What a class-1 session says.
#[derive(Debug)]
pub enum IoUpdate {
    /// The connection is up, at these negotiated intervals.
    Up { o2t_api_ms: u32, t2o_api_ms: u32 },
    /// A frame came in: one reading for each input field.
    Data { readings: Vec<Reading>, sequence: u16, run_mode: bool, received_at: Instant },
    /// The connection was lost.
    Lost,
}

// ---- the security posture of a session ----

/// The device's own certificate, as far as it is exposed.
#[derive(Clone, Debug)]
pub struct TargetCertificateSummary {
    pub push_supported: Option<bool>,
    pub pull_supported: Option<bool>,
    pub name: Option<String>,
    pub state: Option<String>,
    pub encoding: Option<String>,
}

/// The decoded security objects of a device. A device need not expose every attribute.
#[derive(Clone, Debug)]
pub struct TargetSecurityPosture {
    pub state: Option<String>,
    pub profiles: Vec<String>,
    pub allowed_cipher_suites: Vec<String>,
    pub available_cipher_suites: Vec<String>,
    pub verify_client: Option<bool>,
    pub send_certificate_chain: Option<bool>,
    pub check_expiration: Option<bool>,
    pub certificate: Option<TargetCertificateSummary>,
}

/// What is known of a session's security once it is up.
#[derive(Clone, Debug)]
pub struct SecurityStatus {
    pub tls: bool,
    pub tls_version: Option<String>,
    pub cipher_suite: Option<String>,
    pub peer_verified: bool,
    pub peer: Option<String>,
    pub client_cert_not_after: Option<String>,
    /// Days to the end of validity of the adapter's own certificate.
    pub client_cert_expiry_days: Option<i64>,
    /// The posture of a device that implements the security objects.
    pub target: Option<TargetSecurityPosture>,
}

/// The device's own certificate.
pub struct TargetCertificateV {
    pub push_supported: Option<bool>,
    pub pull_supported: Option<bool>,
    pub name: Option<Seq<char>>,
    pub state: Option<Seq<char>>,
    pub encoding: Option<Seq<char>>,
}

/// The decoded security objects of a device.
pub struct TargetPostureV {
    pub state: Option<Seq<char>>,
    pub profiles: Seq<Seq<char>>,
    pub allowed_cipher_suites: Seq<Seq<char>>,
    pub available_cipher_suites: Seq<Seq<char>>,
    pub verify_client: Option<bool>,
    pub send_certificate_chain: Option<bool>,
    pub check_expiration: Option<bool>,
    pub certificate: Option<TargetCertificateV>,
}

/// What is known of a session's security once it is up.
pub struct SecurityStatusV {
    pub tls: bool,
    pub tls_version: Option<Seq<char>>,
    pub cipher_suite: Option<Seq<char>>,
    pub peer_verified: bool,
    pub peer: Option<Seq<char>>,
    pub client_cert_not_after: Option<Seq<char>>,
    pub client_cert_expiry_days: Option<i64>,
    pub target: Option<TargetPostureV>,
}

impl View for TargetCertificateSummary {
    type V = TargetCertificateV;

    open spec fn view(&self) -> TargetCertificateV {
        TargetCertificateV {
            push_supported: self.push_supported,
            pull_supported: self.pull_supported,
            name: text_view(self.name),
            state: text_view(self.state),
            encoding: text_view(self.encoding),
        }
    }
}

impl View for TargetSecurityPosture {
    type V = TargetPostureV;

    open spec fn view(&self) -> TargetPostureV {
        TargetPostureV {
            state: text_view(self.state),
            profiles: texts(self.profiles@),
            allowed_cipher_suites: texts(self.allowed_cipher_suites@),
            available_cipher_suites: texts(self.available_cipher_suites@),
            verify_client: self.verify_client,
            send_certificate_chain: self.send_certificate_chain,
            check_expiration: self.check_expiration,
            certificate: match self.certificate {
                Some(c) => Some(c@),
                None => None,
            },
        }
    }
}

impl View for SecurityStatus {
    type V = SecurityStatusV;

    open spec fn view(&self) -> SecurityStatusV {
        SecurityStatusV {
            tls: self.tls,
            tls_version: text_view(self.tls_version),
            cipher_suite: text_view(self.cipher_suite),
            peer_verified: self.peer_verified,
            peer: text_view(self.peer),
            client_cert_not_after: text_view(self.client_cert_not_after),
            client_cert_expiry_days: self.client_cert_expiry_days,
            target: match self.target {
                Some(t) => Some(t@),
                None => None,
            },
        }
    }
}

impl Default for TargetSecurityPosture {
    /// Nothing decoded.
    fn default() -> (r: TargetSecurityPosture)
        ensures
            r@ == (TargetPostureV {
                state: None,
                profiles: Seq::empty(),
                allowed_cipher_suites: Seq::empty(),
                available_cipher_suites: Seq::empty(),
                verify_client: None,
                send_certificate_chain: None,
                check_expiration: None,
                certificate: None,
            }),
    {
        let r = TargetSecurityPosture {
            state: None,
            profiles: Vec::new(),
            allowed_cipher_suites: Vec::new(),
            available_cipher_suites: Vec::new(),
            verify_client: None,
            send_certificate_chain: None,
            check_expiration: None,
            certificate: None,
        };
        assert(texts(r.profiles@) =~= Seq::empty());
        assert(texts(r.allowed_cipher_suites@) =~= Seq::empty());
        assert(texts(r.available_cipher_suites@) =~= Seq::empty());
        r
    }
}

impl Default for SecurityStatus {
    /// A plaintext session of which nothing else is known.
    fn default() -> (r: SecurityStatus)
        ensures
            r@ == (SecurityStatusV {
                tls: false,
                tls_version: None,
                cipher_suite: None,
                peer_verified: false,
                peer: None,
                client_cert_not_after: None,
                client_cert_expiry_days: None,
                target: None,
            }),
    {
        SecurityStatus {
            tls: false,
            tls_version: None,
            cipher_suite: None,
            peer_verified: false,
            peer: None,
            client_cert_not_after: None,
            client_cert_expiry_days: None,
            target: None,
        }
    }
}

// ---- the nameplate ----

/// What a device says it is.
#[derive(Clone, Debug)]
pub struct DeviceIdentity {
    pub vendor_id: u16,
    pub vendor_name: Option<String>,
    pub device_type: u16,
    pub device_type_name: Option<String>,
    pub product_code: u16,
    pub revision_major: u8,
    pub revision_minor: u8,
    pub serial_number: u32,
    pub product_name: String,
}

impl DeviceIdentity {
    /// The revision as `major.minor`.
    pub open spec fn revision_text(self) -> Seq<char> {
        decimal_nat(self.revision_major as nat) + "."@ + decimal_nat(self.revision_minor as nat)
    }

    /// The product name and the revision.
    pub open spec fn summary_text(self) -> Seq<char> {
        self.product_name@ + " rev "@ + self.revision_text()
    }

    /// The revision as `major.minor`.
    pub fn revision(&self) -> (r: String)
        ensures
            r@ == self.revision_text(),
    {
        let mut r = String::new();
        append_decimal(&mut r, self.revision_major as u128);
        r.append(".");
        append_decimal(&mut r, self.revision_minor as u128);
        assert(r@ =~= self.revision_text());
        r
    }

    /// The product name and the revision.
    pub fn summary(&self) -> (r: String)
        ensures
            r@ == self.summary_text(),
    {
        let mut r = self.product_name.clone();
        r.append(" rev ");
        let revision = self.revision();
        r.append(revision.as_str());
        r
    }

    /// The nameplate as the surfaces show it: the serial number as the label an operator reads.
    pub open spec fn members(self) -> Map<Seq<char>, JsonV> {
        Map::empty().insert("vendorId"@, JsonV::Int(self.vendor_id as int)).insert(
            "productName"@,
            JsonV::Text(self.product_name@),
        ).insert("revision"@, JsonV::Text(self.revision_text())).insert(
            "serialNumber"@,
            JsonV::Text("0x"@ + hex_nat(self.serial_number as nat, 8)),
        )
    }
}

/// The nameplate as the surfaces show it.
pub fn identity_json(id: &DeviceIdentity) -> (j: Json)
    ensures
        j@ == JsonV::Object(id.members()),
{
    let mut serial = "0x".to_owned();
    append_hex(&mut serial, id.serial_number, 8);
    let mut o = Object::new();
    o.insert("vendorId", Json::of_u64(id.vendor_id as u64));
    o.insert("productName", Json::of_text(id.product_name.as_str()));
    o.insert("revision", Json::of_text(id.revision().as_str()));
    o.insert("serialNumber", Json::of_text(serial.as_str()));
    Json::of_object(o)
}

/// A context with the nameplate of a device, if it has one.
pub open spec fn with_identity(
    m: Map<Seq<char>, JsonV>,
    identity: Option<DeviceIdentity>,
) -> Map<Seq<char>, JsonV> {
    match identity {
        Some(id) => m.insert("identity"@, JsonV::Object(id.members())),
        None => m,
    }
}

/// Add the nameplate of a device, if it has one.
pub fn put_identity(o: &mut Object, identity: &Option<DeviceIdentity>)
    ensures
        final(o)@ == with_identity(old(o)@, *identity),
{
    if let Some(id) = identity {
        o.insert("identity", identity_json(id));
    }
}

// ---- what a session refuses ----

/// Why a session did not do what it was asked.
#[derive(Clone, Debug)]
pub enum DeviceError {
    /// It may do it when it is asked again.
    Transient(String),
    /// Asking again never helps.
    Permanent(String),
    /// It is not something this session does.
    Unsupported(String),
}

impl DeviceError {
    pub open spec fn text(self) -> Seq<char> {
        match self {
            DeviceError::Transient(s) => s@,
            DeviceError::Permanent(s) => s@,
            DeviceError::Unsupported(s) => s@,
        }
    }

    /// The message.
    pub fn message(&self) -> (r: String)
        ensures
            r@ == self.text(),
    {
        match self {
            DeviceError::Transient(s) => s.clone(),
            DeviceError::Permanent(s) => s.clone(),
            DeviceError::Unsupported(s) => s.clone(),
        }
    }

    /// Whether asking again may help.
    pub fn is_transient(&self) -> (r: bool)
        ensures
            r == (self is Transient),
    {
        match self {
            DeviceError::Transient(_) => true,
            _ => false,
        }
    }
}

/// A nameplate shows its vendor, its product, its revision as both its parts, and its serial number in
/// eight hexadecimal digits.
pub proof fn a_nameplate_shows_what_the_device_says(id: DeviceIdentity)
    ensures
        id.members()["vendorId"@] == JsonV::Int(id.vendor_id as int),
        id.members()["productName"@] == JsonV::Text(id.product_name@),
        id.members()["revision"@] == JsonV::Text(
            decimal_nat(id.revision_major as nat) + "."@ + decimal_nat(id.revision_minor as nat),
        ),
        id.members()["serialNumber"@] == JsonV::Text("0x"@ + hex_nat(id.serial_number as nat, 8)),
        id.summary_text() == id.product_name@ + " rev "@ + (decimal_nat(id.revision_major as nat)
            + "."@ + decimal_nat(id.revision_minor as nat)),
{
    reveal_strlit("vendorId");
    reveal_strlit("productName");
    reveal_strlit("revision");
    reveal_strlit("serialNumber");
    assert("vendorId"@.len() == 8 && "productName"@.len() == 11 && "revision"@.len() == 8);
    assert("serialNumber"@.len() == 12 && "vendorId"@[0] != "revision"@[0]);
}

/// A context gets the nameplate of a device that has one, and keeps everything else it says.
pub proof fn a_nameplate_is_added_where_there_is_one(
    m: Map<Seq<char>, JsonV>,
    identity: Option<DeviceIdentity>,
    key: Seq<char>,
)
    ensures
        identity is None ==> with_identity(m, identity) == m,
        identity matches Some(id) ==> with_identity(m, identity)["identity"@] == JsonV::Object(
            id.members(),
        ),
        key != "identity"@ ==> (with_identity(m, identity).dom().contains(key) <==> m.dom().contains(
            key,
        )),
        key != "identity"@ && m.dom().contains(key) ==> with_identity(m, identity)[key] == m[key],
{
}

/// An error says what the session said, whatever kind it is of.
pub proof fn an_error_says_what_the_session_said(s: String)
    ensures
        DeviceError::Transient(s).text() == s@,
        DeviceError::Permanent(s).text() == s@,
        DeviceError::Unsupported(s).text() == s@,
{
}

} // verus!
