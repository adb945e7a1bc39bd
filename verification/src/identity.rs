//! Identities of devices and servers: what may be certified, what a certificate
//! says, and certificates as text.

use vstd::prelude::*;

use rcgen::string::Ia5String;
use rcgen::BasicConstraints;
use rcgen::CertificateParams;
use rcgen::CertificateSigningRequestParams;
use rcgen::DistinguishedName;
use rcgen::DnType;
use rcgen::ExtendedKeyUsagePurpose;
use rcgen::IsCa;
use rcgen::Issuer;
use rcgen::KeyPair;
use rcgen::KeyUsagePurpose;
use rcgen::PublicKey;
use rcgen::SanType;
use time::OffsetDateTime;

use crate::codec;
use crate::passages;
use crate::text;

verus! {

pub const DEVICE_CERT_DAYS: u32 = 90;

pub const SERVER_CERT_DAYS: u32 = 30;

pub const CA_CERT_DAYS: u32 = 3_650;

/// How long before now a certificate is already valid.
pub const BACKDATED_MINUTES: u32 = 5;

#[derive(Debug, Clone, PartialEq, Eq)]
pub struct DeviceEnrollment {
    pub device_id: String,
    pub csr_der: Vec<u8>,
}

/// A certificate with the private key that belongs to it.
pub struct IssuedCertificate {
    pub certificate_der: Vec<u8>,
    pub private_key_der: Vec<u8>,
}

#[derive(Debug, Clone, Copy, PartialEq, Eq, Structural)]
pub enum IdentityError {
    InvalidDeviceId,
    InvalidLabel,
    KeyAlreadyExists,
    Clock,
    Rcgen,
    Tls,
}

/// What a key may be used for.
#[derive(Debug, Clone, Copy, PartialEq, Eq, Structural)]
pub enum KeyUsage {
    DigitalSignature,
    KeyCertSign,
    CrlSign,
}

/// Which side of a connection a certificate is for.
#[derive(Debug, Clone, Copy, PartialEq, Eq, Structural)]
pub enum Purpose {
    ClientAuth,
    ServerAuth,
}

/// A name that a certificate holds besides its subject.
#[derive(Debug, PartialEq, Eq)]
pub enum AlternativeName {
    Dns(String),
    Uri(String),
}

/// What a certificate is to say.
#[derive(Debug)]
pub struct CertificateProfile {
    pub common_name: String,
    pub organization: String,
    pub alternative_name: Option<AlternativeName>,
    pub is_ca: bool,
    pub key_usages: Vec<KeyUsage>,
    pub purpose: Option<Purpose>,
    pub names_its_issuer: bool,
    pub days: u32,
}

// ---------------------------------------------------------------------------
// Names

pub open spec fn is_device_id_char(c: char) -> bool {
    text::is_ascii_letter(c) || text::is_ascii_digit(c) || c == '-' || c == '_' || c == '.'
}

/// A name that a device can have.
pub open spec fn is_device_id(value: Seq<char>) -> bool {
    0 < value.len() <= 128 && forall|i: int|
        0 <= i < value.len() ==> is_device_id_char(#[trigger] value[i])
}

/// A name that an authority or a server can have.
pub open spec fn is_label(value: Seq<char>) -> bool {
    !text::is_blank(value) && text::byte_len(value) <= 253 && !value.contains('\0')
}

pub fn validate_device_id(value: &str) -> (r: Result<(), IdentityError>)
    ensures
        r is Ok == is_device_id(value@),
        r is Err ==> r->Err_0 == IdentityError::InvalidDeviceId,
{
    let chars = text::chars_of(value);
    if chars.len() == 0 || chars.len() > 128 {
        return Err(IdentityError::InvalidDeviceId);
    }
    let mut i: usize = 0;
    while i < chars.len()
        invariant
            chars@ == value@,
            i <= chars@.len(),
            forall|k: int| 0 <= k < i ==> is_device_id_char(#[trigger] chars@[k]),
        decreases chars@.len() - i,
    {
        let c = chars[i];
        if !(text::ascii_letter(c) || text::ascii_digit(c) || c == '-' || c == '_' || c == '.') {
            assert(!is_device_id_char(value@[i as int]));
            return Err(IdentityError::InvalidDeviceId);
        }
        i = i + 1;
    }
    Ok(())
}

pub fn validate_label(value: &str) -> (r: Result<(), IdentityError>)
    ensures
        r is Ok == is_label(value@),
        r is Err ==> r->Err_0 == IdentityError::InvalidLabel,
{
    let chars = text::chars_of(value);
    if text::blank(value) || text::text_bytes(value) > 253 || text::contains_char(
        chars.as_slice(),
        '\0',
    ) {
        return Err(IdentityError::InvalidLabel);
    }
    Ok(())
}

// ---------------------------------------------------------------------------
// What certificates say

pub open spec fn device_uri(device_id: Seq<char>) -> Seq<char> {
    "urn:vor:device:"@ + device_id
}

/// The profile is for a subject of this project, with these uses.
pub open spec fn profile_of(
    profile: CertificateProfile,
    common_name: Seq<char>,
    usages: Seq<KeyUsage>,
    days: u32,
) -> bool {
    &&& profile.common_name@ == common_name
    &&& profile.organization@ == "V\u{f6}r Commander"@
    &&& profile.key_usages@ == usages
    &&& profile.days == days
}

/// The profile is that of an authority.
pub open spec fn is_ca_profile(profile: CertificateProfile, common_name: Seq<char>) -> bool {
    &&& profile_of(
        profile,
        common_name,
        seq![KeyUsage::DigitalSignature, KeyUsage::KeyCertSign, KeyUsage::CrlSign],
        CA_CERT_DAYS,
    )
    &&& profile.alternative_name is None
    &&& profile.is_ca
    &&& profile.purpose is None
    &&& !profile.names_its_issuer
}

/// The profile is that of a device: whatever a request asks for, the certificate
/// says this and nothing else.
pub open spec fn is_device_profile(profile: CertificateProfile, device_id: Seq<char>) -> bool {
    &&& profile_of(profile, device_id, seq![KeyUsage::DigitalSignature], DEVICE_CERT_DAYS)
    &&& profile.alternative_name matches Some(AlternativeName::Uri(uri)) && uri@ == device_uri(
        device_id,
    )
    &&& !profile.is_ca
    &&& profile.purpose == Some(Purpose::ClientAuth)
    &&& profile.names_its_issuer
}

/// The profile is that of a server.
pub open spec fn is_server_profile(profile: CertificateProfile, dns_name: Seq<char>) -> bool {
    &&& profile_of(profile, dns_name, seq![KeyUsage::DigitalSignature], SERVER_CERT_DAYS)
    &&& profile.alternative_name matches Some(AlternativeName::Dns(name)) && name@ == dns_name
    &&& !profile.is_ca
    &&& profile.purpose == Some(Purpose::ServerAuth)
    &&& profile.names_its_issuer
}

fn signature_only() -> (r: Vec<KeyUsage>)
    ensures
        r@ == seq![KeyUsage::DigitalSignature],
{
    let mut r: Vec<KeyUsage> = Vec::new();
    r.push(KeyUsage::DigitalSignature);
    proof {
        assert(r@ =~= seq![KeyUsage::DigitalSignature]);
    }
    r
}

/// What the certificate of an authority says.
pub fn ca_profile(common_name: &str) -> (r: Result<CertificateProfile, IdentityError>)
    ensures
        r is Ok == is_label(common_name@),
        r is Err ==> r->Err_0 == IdentityError::InvalidLabel,
        r is Ok ==> is_ca_profile(r->Ok_0, common_name@),
{
    if let Err(error) = validate_label(common_name) {
        return Err(error);
    }
    let mut key_usages: Vec<KeyUsage> = Vec::new();
    key_usages.push(KeyUsage::DigitalSignature);
    key_usages.push(KeyUsage::KeyCertSign);
    key_usages.push(KeyUsage::CrlSign);
    proof {
        assert(key_usages@ =~= seq![
            KeyUsage::DigitalSignature,
            KeyUsage::KeyCertSign,
            KeyUsage::CrlSign,
        ]);
    }
    Ok(
        CertificateProfile {
            common_name: text::copied(common_name),
            organization: text::copied("V\u{f6}r Commander"),
            alternative_name: None,
            is_ca: true,
            key_usages,
            purpose: None,
            names_its_issuer: false,
            days: CA_CERT_DAYS,
        },
    )
}

/// What the certificate of a device says.
pub fn device_profile(device_id: &str) -> (r: Result<CertificateProfile, IdentityError>)
    ensures
        r is Ok == is_device_id(device_id@),
        r is Err ==> r->Err_0 == IdentityError::InvalidDeviceId,
        r is Ok ==> is_device_profile(r->Ok_0, device_id@),
{
    if let Err(error) = validate_device_id(device_id) {
        return Err(error);
    }
    let mut uri = text::chars_of("urn:vor:device:");
    text::push_text(&mut uri, device_id);
    Ok(
        CertificateProfile {
            common_name: text::copied(device_id),
            organization: text::copied("V\u{f6}r Commander"),
            alternative_name: Some(AlternativeName::Uri(text::string_of(uri.as_slice()))),
            is_ca: false,
            key_usages: signature_only(),
            purpose: Some(Purpose::ClientAuth),
            names_its_issuer: true,
            days: DEVICE_CERT_DAYS,
        },
    )
}

/// What the certificate of a server says.
pub fn server_profile(dns_name: &str) -> (r: Result<CertificateProfile, IdentityError>)
    ensures
        r is Ok == is_label(dns_name@),
        r is Err ==> r->Err_0 == IdentityError::InvalidLabel,
        r is Ok ==> is_server_profile(r->Ok_0, dns_name@),
{
    if let Err(error) = validate_label(dns_name) {
        return Err(error);
    }
    Ok(
        CertificateProfile {
            common_name: text::copied(dns_name),
            organization: text::copied("V\u{f6}r Commander"),
            alternative_name: Some(AlternativeName::Dns(text::copied(dns_name))),
            is_ca: false,
            key_usages: signature_only(),
            purpose: Some(Purpose::ServerAuth),
            names_its_issuer: true,
            days: SERVER_CERT_DAYS,
        },
    )
}

/// The profile is that of a request of a device, which says what a device may
/// be certified as.
pub open spec fn is_request_profile(profile: CertificateProfile, device_id: Seq<char>) -> bool {
    is_device_profile(CertificateProfile { names_its_issuer: true, ..profile }, device_id)
        && !profile.names_its_issuer
}

/// What the request of a device says.
pub fn request_profile(device_id: &str) -> (r: Result<CertificateProfile, IdentityError>)
    ensures
        r is Ok == is_device_id(device_id@),
        r is Err ==> r->Err_0 == IdentityError::InvalidDeviceId,
        r is Ok ==> is_request_profile(r->Ok_0, device_id@),
{
    match device_profile(device_id) {
        Err(error) => Err(error),
        Ok(profile) => {
            let mut profile = profile;
            profile.names_its_issuer = false;
            Ok(profile)
        },
    }
}

// ---------------------------------------------------------------------------
// When certificates are valid

/// The last second that a moment can name.
pub const LAST_SECOND: i64 = 253_402_300_799;

/// The seconds since the epoch between which a certificate is valid.
#[derive(Debug, Clone, Copy, PartialEq, Eq, Structural)]
pub struct Validity {
    pub not_before: i64,
    pub not_after: i64,
}

/// From a little before now, for so many days, if there are so many.
pub open spec fn validity_from(now_unix_seconds: u64, days: u32) -> Option<Validity> {
    if now_unix_seconds + days * 86_400 > LAST_SECOND {
        None
    } else {
        Some(
            Validity {
                not_before: (now_unix_seconds - BACKDATED_MINUTES * 60) as i64,
                not_after: (now_unix_seconds + days * 86_400) as i64,
            },
        )
    }
}

/// When a certificate is valid that is made now.
pub fn validity(now_unix_seconds: u64, days: u32) -> (r: Result<Validity, IdentityError>)
    ensures
        r is Err == validity_from(now_unix_seconds, days) is None,
        r is Err ==> r->Err_0 == IdentityError::Clock,
        r is Ok ==> r->Ok_0 == validity_from(now_unix_seconds, days)->0,
{
    if now_unix_seconds > LAST_SECOND as u64 {
        return Err(IdentityError::Clock);
    }
    let now: i64 = now_unix_seconds as i64;
    let not_after: i64 = now + days as i64 * 86_400;
    if not_after > LAST_SECOND {
        return Err(IdentityError::Clock);
    }
    Ok(Validity { not_before: now - BACKDATED_MINUTES as i64 * 60, not_after })
}

// ---------------------------------------------------------------------------
// Making certificates

#[verifier::external_type_specification]
#[verifier::external_body]
pub struct ExCertificateParams(rcgen::CertificateParams);

#[verifier::external_type_specification]
#[verifier::external_body]
pub struct ExKeyPair(rcgen::KeyPair);

#[verifier::external_type_specification]
#[verifier::external_body]
pub struct ExPublicKey(rcgen::PublicKey);

#[verifier::external_type_specification]
#[verifier::external_body]
#[verifier::reject_recursive_types(S)]
pub struct ExIssuer<'a, S>(rcgen::Issuer<'a, S>);

#[verifier::external_type_specification]
#[verifier::external_body]
pub struct ExRcgenError(rcgen::Error);

#[verifier::external_type_specification]
#[verifier::external_body]
pub struct ExComponentRange(time::error::ComponentRange);

pub open spec fn is_ascii(s: Seq<char>) -> bool {
    forall|i: int| 0 <= i < s.len() ==> (#[trigger] s[i] as u32) < 128
}

/// One thing that a certificate, or a request for one, says.
pub enum Statement {
    CommonName(Seq<char>),
    Organization(Seq<char>),
    OtherSubject(Seq<u8>),
    Host(Seq<char>),
    Uri(Seq<char>),
    OtherName(Seq<u8>),
    IsAuthority,
    NamesItsIssuer,
    Use(KeyUsage),
    For(Purpose),
    OtherUse(Seq<u8>),
    NotBefore(i64),
    NotAfter(i64),
}

impl Statement {
    /// It is about whose key is certified.
    pub open spec fn of_subject(self) -> bool {
        self is CommonName || self is Organization || self is OtherSubject
    }

    /// It is about what else the subject is called.
    pub open spec fn of_name(self) -> bool {
        self is Host || self is Uri || self is OtherName
    }

    /// It is about what the key may be used for.
    pub open spec fn of_use(self) -> bool {
        self is IsAuthority || self is NamesItsIssuer || self is Use || self is For
            || self is OtherUse
    }

    /// It is about when that holds.
    pub open spec fn of_time(self) -> bool {
        self is NotBefore || self is NotAfter
    }
}

/// What the parameters of a certificate hold.
pub uninterp spec fn statements(params: CertificateParams) -> Set<Statement>;

/// What the bytes of a certificate say, as `rcgen::CertificateParams` writes them.
pub uninterp spec fn certified(der: Seq<u8>) -> Set<Statement>;

/// What the bytes of a request say, as
/// `rcgen::CertificateParams::serialize_request` writes them.
pub uninterp spec fn requested(der: Seq<u8>) -> Set<Statement>;

/// The private key of a pair, as bytes.
pub uninterp spec fn private_key(key: KeyPair) -> Seq<u8>;

/// The key that a request names.
pub uninterp spec fn public_key(key: PublicKey) -> Seq<u8>;

/// The private key that an issuer signs with.
pub uninterp spec fn issuing_key(issuer: Issuer<'static, KeyPair>) -> Seq<u8>;

/// The public key that belongs to a private key.
pub uninterp spec fn public_part(private_key: Seq<u8>) -> Seq<u8>;

/// The public key that the bytes of a certificate are for.
pub uninterp spec fn certified_key(der: Seq<u8>) -> Seq<u8>;

/// The public key that the bytes of a request are for.
pub uninterp spec fn requested_key(der: Seq<u8>) -> Seq<u8>;

/// The bytes of a certificate are signed with the private key of this public key.
pub uninterp spec fn is_signed_with(der: Seq<u8>, public_key: Seq<u8>) -> bool;

/// The bytes of a certificate say what its parameters hold. A host may be said in
/// more than one way, if it is an address.
pub open spec fn writes_down(said: Set<Statement>, held: Set<Statement>) -> bool {
    forall|s: Statement|
        {
            &&& held.contains(s) ==> #[trigger] said.contains(s)
            &&& said.contains(s) && !(s is Host) ==> held.contains(s)
        }
}

/// `rcgen::KeyPair::generate`: a new key. Nothing is claimed of it, nor that there
/// is one: it rests on chance.
#[verifier::external_body]
fn generate_key() -> (key: Result<KeyPair, rcgen::Error>) {
    KeyPair::generate()
}

/// `rcgen::KeyPair::serialize_der`: the private key as bytes.
#[verifier::external_body]
fn key_der(key: &KeyPair) -> (der: Vec<u8>)
    ensures
        der@ == private_key(*key),
{
    key.serialize_der()
}

/// `rcgen::CertificateParams::new`: what a certificate says unless told
/// otherwise, with alternative names. It is claimed that names are accepted if
/// and only if each of them is ASCII, that each of them is then held as a host, that
/// there is no name of another kind, and no host where none was given, and that no
/// use is allowed yet. A name that is an address is held as that address, so other
/// ways to write the same address are held with it: which ones is not said.
#[verifier::external_body]
fn new_params(names: Vec<String>) -> (params: Result<CertificateParams, rcgen::Error>)
    ensures
        params is Ok == forall|i: int| 0 <= i < names@.len() ==> is_ascii(#[trigger] names@[i]@),
        params is Ok ==> forall|i: int|
            0 <= i < names@.len() ==> statements(params->Ok_0).contains(
                Statement::Host(#[trigger] names@[i]@),
            ),
        params is Ok ==> forall|s: Statement|
            s.of_name() && (!(s is Host) || names@.len() == 0) ==> !#[trigger] statements(
                params->Ok_0,
            ).contains(s),
        params is Ok ==> forall|s: Statement|
            s.of_use() ==> !#[trigger] statements(params->Ok_0).contains(s),
{
    CertificateParams::new(names)
}

/// `rcgen::string::Ia5String::try_from`: takes a URI as the one alternative name.
/// It is claimed that a URI is accepted if and only if it is ASCII, and that no
/// other name is left then.
#[verifier::external_body]
fn name_uri(params: &mut CertificateParams, uri: String) -> (r: Result<(), rcgen::Error>)
    ensures
        r is Ok == is_ascii(uri@),
        r is Ok ==> forall|s: Statement| #[trigger]
            statements(*final(params)).contains(s) == (if s.of_name() {
                s == Statement::Uri(uri@)
            } else {
                statements(*old(params)).contains(s)
            }),
{
    params.subject_alt_names = vec![SanType::URI(Ia5String::try_from(uri)?)];
    Ok(())
}

/// `rcgen::DistinguishedName::push`: names the subject. It is claimed that nothing
/// else is said of it then.
#[verifier::external_body]
fn name_subject(params: &mut CertificateParams, common_name: &str, organization: &str)
    ensures
        forall|s: Statement| #[trigger]
            statements(*final(params)).contains(s) == (if s.of_subject() {
                s == Statement::CommonName(common_name@) || s == Statement::Organization(
                    organization@,
                )
            } else {
                statements(*old(params)).contains(s)
            }),
{
    params.distinguished_name = DistinguishedName::new();
    params.distinguished_name.push(DnType::CommonName, common_name);
    params.distinguished_name.push(DnType::OrganizationName, organization);
}

/// Sets what `rcgen` is to write of authorities, and takes all uses back.
#[verifier::external_body]
fn set_authority(params: &mut CertificateParams, is_ca: bool, names_its_issuer: bool)
    ensures
        forall|s: Statement| #[trigger]
            statements(*final(params)).contains(s) == (if s.of_use() {
                (s is IsAuthority && is_ca) || (s is NamesItsIssuer && names_its_issuer)
            } else {
                statements(*old(params)).contains(s)
            }),
{
    params.is_ca = if is_ca {
        IsCa::Ca(BasicConstraints::Unconstrained)
    } else {
        IsCa::NoCa
    };
    params.use_authority_key_identifier_extension = names_its_issuer;
    params.key_usages = Vec::new();
    params.extended_key_usages = Vec::new();
}

/// Adds a use that `rcgen` is to write of the key.
#[verifier::external_body]
fn allow_use(params: &mut CertificateParams, usage: KeyUsage)
    ensures
        statements(*final(params)) == statements(*old(params)).insert(Statement::Use(usage)),
{
    params.key_usages.push(match usage {
        KeyUsage::DigitalSignature => KeyUsagePurpose::DigitalSignature,
        KeyUsage::KeyCertSign => KeyUsagePurpose::KeyCertSign,
        KeyUsage::CrlSign => KeyUsagePurpose::CrlSign,
    });
}

/// Adds a purpose that `rcgen` is to write of the certificate.
#[verifier::external_body]
fn allow_purpose(params: &mut CertificateParams, purpose: Purpose)
    ensures
        statements(*final(params)) == statements(*old(params)).insert(Statement::For(purpose)),
{
    params.extended_key_usages.push(match purpose {
        Purpose::ClientAuth => ExtendedKeyUsagePurpose::ClientAuth,
        Purpose::ServerAuth => ExtendedKeyUsagePurpose::ServerAuth,
    });
}

/// `time::OffsetDateTime::from_unix_timestamp`: sets from when to when a
/// certificate is valid. It is claimed that every second from the day before the
/// epoch to the last of the year 9999 is a moment; `rcgen` writes no certificate
/// that is valid beyond that year.
#[verifier::external_body]
fn set_validity(params: &mut CertificateParams, validity: Validity) -> (done: Result<
    (),
    time::error::ComponentRange,
>)
    requires
        -86_400 <= validity.not_before <= LAST_SECOND,
        -86_400 <= validity.not_after <= LAST_SECOND,
    ensures
        done is Ok,
        forall|s: Statement| #[trigger]
            statements(*final(params)).contains(s) == (if s.of_time() {
                s == Statement::NotBefore(validity.not_before) || s == Statement::NotAfter(
                    validity.not_after,
                )
            } else {
                statements(*old(params)).contains(s)
            }),
{
    params.not_before = OffsetDateTime::from_unix_timestamp(validity.not_before)?;
    params.not_after = OffsetDateTime::from_unix_timestamp(validity.not_after)?;
    Ok(())
}

/// Whether `rcgen::CertificateSigningRequestParams::from_der` reads these bytes:
/// as a request that is signed with the key it names, and asks for nothing that
/// it does not know.
pub uninterp spec fn is_signing_request(csr_der: Seq<u8>) -> bool;

/// `rcgen::CertificateSigningRequestParams::from_der`: what a request asks for,
/// and the key that it is for. It is claimed that whether it can be read is a
/// function of its bytes, and so is the key.
#[verifier::external_body]
fn read_request(csr_der: &[u8]) -> (request: Result<(CertificateParams, PublicKey), rcgen::Error>)
    ensures
        request is Ok == is_signing_request(csr_der@),
        request is Ok ==> public_key(request->Ok_0.1) == requested_key(csr_der@),
{
    let request = CertificateSigningRequestParams::from_der(&csr_der.to_vec().into())?;
    Ok((request.params, request.public_key))
}

/// `rcgen::CertificateParams::self_signed`: a certificate of a key, signed with
/// that key. It is claimed that it says what the parameters hold, of this key;
/// which bytes it has is not, as the signature rests on chance.
#[verifier::external_body]
fn self_signed(params: &CertificateParams, key: &KeyPair) -> (der: Result<Vec<u8>, rcgen::Error>)
    ensures
        der is Ok ==> writes_down(certified(der->Ok_0@), statements(*params)),
        der is Ok ==> certified_key(der->Ok_0@) == public_part(private_key(*key)),
        der is Ok ==> is_signed_with(der->Ok_0@, public_part(private_key(*key))),
{
    Ok(params.self_signed(key)?.der().to_vec())
}

/// `rcgen::Issuer::new`: who signs certificates, and with which key.
#[verifier::external_body]
fn new_issuer(params: CertificateParams, key: KeyPair) -> (issuer: Issuer<'static, KeyPair>)
    ensures
        issuing_key(issuer) == private_key(key),
{
    Issuer::new(params, key)
}

/// `rcgen::CertificateParams::signed_by`: a certificate of a key, signed by an
/// issuer. It is claimed that it says what the parameters hold, of this key; which
/// bytes it has is not, as the signature rests on chance.
#[verifier::external_body]
fn signed_by(
    params: &CertificateParams,
    key: &KeyPair,
    issuer: &Issuer<'static, KeyPair>,
) -> (der: Result<Vec<u8>, rcgen::Error>)
    ensures
        der is Ok ==> writes_down(certified(der->Ok_0@), statements(*params)),
        der is Ok ==> certified_key(der->Ok_0@) == public_part(private_key(*key)),
        der is Ok ==> is_signed_with(der->Ok_0@, public_part(issuing_key(*issuer))),
{
    Ok(params.signed_by(key, issuer)?.der().to_vec())
}

/// `rcgen::CertificateSigningRequestParams::signed_by`: a certificate of the key of
/// a request, signed by an issuer. It is claimed that it says what the parameters
/// hold, of that key; which bytes it has is not, as the signature rests on chance.
#[verifier::external_body]
fn request_signed_by(
    params: CertificateParams,
    public_key: PublicKey,
    issuer: &Issuer<'static, KeyPair>,
) -> (der: Result<Vec<u8>, rcgen::Error>)
    ensures
        der is Ok ==> writes_down(certified(der->Ok_0@), statements(params)),
        der is Ok ==> certified_key(der->Ok_0@) == self::public_key(public_key),
        der is Ok ==> is_signed_with(der->Ok_0@, public_part(issuing_key(*issuer))),
{
    let request = CertificateSigningRequestParams { params, public_key };
    Ok(request.signed_by(issuer)?.der().to_vec())
}

/// `rcgen::CertificateParams::serialize_request`: a request to certify a key,
/// signed with that key. It is claimed that it says what the parameters hold, of
/// this key, but for the time; which bytes it has is not, as the signature rests on chance.
#[verifier::external_body]
fn serialize_request(params: &CertificateParams, key: &KeyPair) -> (der: Result<
    Vec<u8>,
    rcgen::Error,
>)
    ensures
        der is Ok ==> writes_down(
            requested(der->Ok_0@),
            statements(*params).filter(|s: Statement| !s.of_time()),
        ),
        der is Ok ==> requested_key(der->Ok_0@) == public_part(private_key(*key)),
{
    Ok(params.serialize_request(key)?.der().to_vec())
}

/// A profile says this, the time apart.
pub open spec fn tells(profile: CertificateProfile, s: Statement) -> bool {
    match s {
        Statement::CommonName(name) => name == profile.common_name@,
        Statement::Organization(name) => name == profile.organization@,
        Statement::Host(host) => profile.alternative_name matches Some(AlternativeName::Dns(name))
            && name@ == host,
        Statement::Uri(uri) => profile.alternative_name matches Some(AlternativeName::Uri(name))
            && name@ == uri,
        Statement::IsAuthority => profile.is_ca,
        Statement::NamesItsIssuer => profile.names_its_issuer,
        Statement::Use(usage) => profile.key_usages@.contains(usage),
        Statement::For(purpose) => profile.purpose == Some(purpose),
        _ => false,
    }
}

/// What was said is what a profile says, for a time; a host may have been said in
/// more than one way.
pub open spec fn carries(
    said: Set<Statement>,
    profile: CertificateProfile,
    validity: Validity,
) -> bool {
    forall|s: Statement|
        {
            let told = if s.of_time() {
                s == Statement::NotBefore(validity.not_before) || s == Statement::NotAfter(
                    validity.not_after,
                )
            } else {
                tells(profile, s)
            };
            &&& told ==> #[trigger] said.contains(s)
            &&& said.contains(s) && !(s is Host) ==> told
        }
}

/// What was asked for is what a profile says; a host may have been said in more
/// than one way.
pub open spec fn asks(said: Set<Statement>, profile: CertificateProfile) -> bool {
    forall|s: Statement|
        {
            &&& tells(profile, s) ==> #[trigger] said.contains(s)
            &&& said.contains(s) && !(s is Host) ==> tells(profile, s)
        }
}

/// Has the parameters of a certificate say what a profile says, hosts apart.
fn apply_profile(params: &mut CertificateParams, profile: &CertificateProfile) -> (r: Result<
    (),
    IdentityError,
>)
    ensures
        r is Err == (profile.alternative_name matches Some(AlternativeName::Uri(uri)) && !is_ascii(
            uri@,
        )),
        r is Err ==> r->Err_0 == IdentityError::InvalidDeviceId,
        r is Ok ==> forall|s: Statement| #[trigger]
            statements(*final(params)).contains(s) == (if s.of_time() || (s.of_name() && !(
            profile.alternative_name matches Some(AlternativeName::Uri(_))) ) {
                statements(*old(params)).contains(s)
            } else {
                tells(*profile, s)
            }),
{
    name_subject(params, profile.common_name.as_str(), profile.organization.as_str());
    if let Some(AlternativeName::Uri(uri)) = &profile.alternative_name {
        if name_uri(params, text::copied(uri.as_str())).is_err() {
            return Err(IdentityError::InvalidDeviceId);
        }
    }
    set_authority(params, profile.is_ca, profile.names_its_issuer);
    let ghost bare = statements(*params);
    let mut i: usize = 0;
    while i < profile.key_usages.len()
        invariant
            i <= profile.key_usages@.len(),
            forall|s: Statement| #[trigger]
                statements(*params).contains(s) == (bare.contains(s) || (s matches Statement::Use(
                    usage,
                ) && profile.key_usages@.take(i as int).contains(usage))),
        decreases profile.key_usages@.len() - i,
    {
        allow_use(params, profile.key_usages[i]);
        proof {
            let uses = profile.key_usages@;
            assert(uses.take(i + 1) =~= uses.take(i as int).push(uses[i as int]));
            assert forall|s: Statement| #[trigger] statements(*params).contains(s) == (
            bare.contains(s) || (s matches Statement::Use(usage) && uses.take(i + 1).contains(
                usage,
            ))) by {
                if let Statement::Use(usage) = s {
                    lemma_push_contains(uses.take(i as int), uses[i as int], usage);
                }
            }
        }
        i = i + 1;
    }
    proof {
        assert(profile.key_usages@.take(i as int) =~= profile.key_usages@);
    }
    if let Some(purpose) = profile.purpose {
        allow_purpose(params, purpose);
    }
    Ok(())
}

proof fn lemma_push_contains(uses: Seq<KeyUsage>, last: KeyUsage, usage: KeyUsage)
    ensures
        uses.push(last).contains(usage) == (uses.contains(usage) || usage == last),
{
    let more = uses.push(last);
    if uses.contains(usage) {
        let i = choose|i: int| 0 <= i < uses.len() && uses[i] == usage;
        assert(more[i] == usage);
    }
    if usage == last {
        assert(more[uses.len() as int] == usage);
    }
    if more.contains(usage) && usage != last {
        let i = choose|i: int| 0 <= i < more.len() && more[i] == usage;
        assert(uses[i] == usage);
    }
}

/// Whether the host names that a profile asks for can be written.
pub open spec fn names_are_ascii(profile: CertificateProfile) -> bool {
    profile.alternative_name matches Some(AlternativeName::Dns(name)) ==> is_ascii(name@)
}

/// Has the parameters of a certificate say how long it is valid.
fn apply_validity(params: &mut CertificateParams, now_unix_seconds: u64, days: u32) -> (r: Result<
    Validity,
    IdentityError,
>)
    ensures
        r is Err == validity_from(now_unix_seconds, days) is None,
        r is Err ==> r->Err_0 == IdentityError::Clock,
        r is Ok ==> r->Ok_0 == validity_from(now_unix_seconds, days)->0,
        r is Ok ==> forall|s: Statement| #[trigger]
            statements(*final(params)).contains(s) == (if s.of_time() {
                s == Statement::NotBefore(r->Ok_0.not_before) || s == Statement::NotAfter(
                    r->Ok_0.not_after,
                )
            } else {
                statements(*old(params)).contains(s)
            }),
{
    match validity(now_unix_seconds, days) {
        Err(error) => Err(error),
        Ok(validity) => match set_validity(params, validity) {
            Err(_) => Err(IdentityError::Clock),
            Ok(_) => Ok(validity),
        },
    }
}

/// The parameters of a certificate that says what a profile says from now on, and
/// when it is valid.
fn params_for(profile: &CertificateProfile, now_unix_seconds: u64) -> (r: Result<
    (CertificateParams, Validity),
    IdentityError,
>)
    requires
        profile.alternative_name matches Some(AlternativeName::Uri(uri)) ==> is_ascii(uri@),
    ensures
        r is Err == (!names_are_ascii(*profile) || validity_from(now_unix_seconds, profile.days)
            is None),
        r is Err ==> r->Err_0 == (if !names_are_ascii(*profile) {
            IdentityError::Rcgen
        } else {
            IdentityError::Clock
        }),
        r is Ok ==> Some(r->Ok_0.1) == validity_from(now_unix_seconds, profile.days),
        r is Ok ==> carries(statements(r->Ok_0.0), *profile, r->Ok_0.1),
{
    let mut names: Vec<String> = Vec::new();
    if let Some(AlternativeName::Dns(name)) = &profile.alternative_name {
        names.push(text::copied(name.as_str()));
        proof {
            assert(names@[0]@ == name@);
        }
    }
    let mut params = match new_params(names) {
        Err(_) => {
            return Err(IdentityError::Rcgen);
        },
        Ok(params) => params,
    };
    if let Err(error) = apply_profile(&mut params, profile) {
        return Err(error);
    }
    match apply_validity(&mut params, now_unix_seconds, profile.days) {
        Err(error) => Err(error),
        Ok(validity) => Ok((params, validity)),
    }
}

proof fn lemma_device_uri_is_ascii(device_id: Seq<char>)
    requires
        is_device_id(device_id),
    ensures
        is_ascii(device_uri(device_id)),
{
    reveal_strlit("urn:vor:device:");
    let uri = device_uri(device_id);
    let n = "urn:vor:device:"@.len() as int;
    assert forall|i: int| 0 <= i < uri.len() implies (#[trigger] uri[i] as u32) < 128 by {
        if i >= n {
            assert(uri[i] == device_id[i - n]);
            assert(is_device_id_char(device_id[i - n]));
        } else {
            assert(uri[i] == "urn:vor:device:"@[i]);
        }
    }
}

/// Who certifies devices and servers.
pub struct CertificateAuthority {
    profile: CertificateProfile,
    validity: Validity,
    certificate_der: Vec<u8>,
    issuer: Issuer<'static, KeyPair>,
}

impl CertificateAuthority {
    /// What the certificate of the authority says.
    pub closed spec fn says(&self) -> CertificateProfile {
        self.profile
    }

    /// When the certificate of the authority is valid.
    pub closed spec fn lasts(&self) -> Validity {
        self.validity
    }

    pub closed spec fn certificate(&self) -> Seq<u8> {
        self.certificate_der@
    }

    /// The public key of the authority.
    pub closed spec fn key(&self) -> Seq<u8> {
        public_part(issuing_key(self.issuer))
    }

    /// A new authority. That its key can be made and its certificate be signed is
    /// not promised: both rest on chance.
    pub fn new(common_name: &str, now_unix_seconds: u64) -> (r: Result<Self, IdentityError>)
        ensures
            !is_label(common_name@) ==> r is Err && r->Err_0 == IdentityError::InvalidLabel,
            is_label(common_name@) && validity_from(now_unix_seconds, CA_CERT_DAYS) is None ==> r
                is Err && r->Err_0 == IdentityError::Clock,
            is_label(common_name@) && validity_from(now_unix_seconds, CA_CERT_DAYS) is Some && r
                is Err ==> r->Err_0 == IdentityError::Rcgen,
            r is Ok ==> is_ca_profile(r->Ok_0.says(), common_name@),
            r is Ok ==> Some(r->Ok_0.lasts()) == validity_from(now_unix_seconds, CA_CERT_DAYS),
            r is Ok ==> carries(
                certified(r->Ok_0.certificate()),
                r->Ok_0.says(),
                r->Ok_0.lasts(),
            ),
            r is Ok ==> certified_key(r->Ok_0.certificate()) == r->Ok_0.key(),
            r is Ok ==> is_signed_with(r->Ok_0.certificate(), r->Ok_0.key()),
    {
        let profile = match ca_profile(common_name) {
            Err(error) => {
                return Err(error);
            },
            Ok(profile) => profile,
        };
        let (params, validity) = match params_for(&profile, now_unix_seconds) {
            Err(error) => {
                return Err(error);
            },
            Ok(made) => made,
        };
        let key = match generate_key() {
            Err(_) => {
                return Err(IdentityError::Rcgen);
            },
            Ok(key) => key,
        };
        match self_signed(&params, &key) {
            Err(_) => Err(IdentityError::Rcgen),
            Ok(certificate_der) => Ok(
                CertificateAuthority {
                    profile,
                    validity,
                    certificate_der,
                    issuer: new_issuer(params, key),
                },
            ),
        }
    }

    pub fn certificate_der(&self) -> (der: Vec<u8>)
        ensures
            der@ == self.certificate(),
    {
        let der = self.certificate_der.clone();
        proof {
            assert(der@ =~= self.certificate_der@);
        }
        der
    }

    /// Certifies the key of a request for a device. Whatever the request asks for,
    /// the certificate says what the profile of the device says. That it can be
    /// signed is not promised: a signature rests on chance.
    pub fn sign_device_csr(
        &self,
        authorized_device_id: &str,
        csr_der: &[u8],
        now_unix_seconds: u64,
    ) -> (r: Result<Vec<u8>, IdentityError>)
        ensures
            !is_device_id(authorized_device_id@) ==> r is Err && r->Err_0
                == IdentityError::InvalidDeviceId,
            is_device_id(authorized_device_id@) && !is_signing_request(csr_der@) ==> r is Err
                && r->Err_0 == IdentityError::Rcgen,
            is_device_id(authorized_device_id@) && is_signing_request(csr_der@) && validity_from(
                now_unix_seconds,
                DEVICE_CERT_DAYS,
            ) is None ==> r is Err && r->Err_0 == IdentityError::Clock,
            is_device_id(authorized_device_id@) && validity_from(
                now_unix_seconds,
                DEVICE_CERT_DAYS,
            ) is Some && r is Err ==> r->Err_0 == IdentityError::Rcgen,
            r is Ok ==> exists|profile: CertificateProfile| #[trigger]
                is_device_profile(profile, authorized_device_id@) && carries(
                    certified(r->Ok_0@),
                    profile,
                    validity_from(now_unix_seconds, DEVICE_CERT_DAYS)->0,
                ),
            r is Ok ==> certified_key(r->Ok_0@) == requested_key(csr_der@),
            r is Ok ==> is_signed_with(r->Ok_0@, self.key()),
    {
        let profile = match device_profile(authorized_device_id) {
            Err(error) => {
                return Err(error);
            },
            Ok(profile) => profile,
        };
        let (params, public_key) = match read_request(csr_der) {
            Err(_) => {
                return Err(IdentityError::Rcgen);
            },
            Ok(request) => request,
        };
        let mut params = params;
        proof {
            lemma_device_uri_is_ascii(authorized_device_id@);
        }
        if let Err(error) = apply_profile(&mut params, &profile) {
            return Err(error);
        }
        if let Err(error) = apply_validity(&mut params, now_unix_seconds, profile.days) {
            return Err(error);
        }
        match request_signed_by(params, public_key, &self.issuer) {
            Err(_) => Err(IdentityError::Rcgen),
            Ok(der) => Ok(der),
        }
    }

    /// Certifies a new key for a server. That the key can be made and the
    /// certificate be signed is not promised: both rest on chance.
    pub fn issue_server_certificate(&self, dns_name: &str, now_unix_seconds: u64) -> (r: Result<
        IssuedCertificate,
        IdentityError,
    >)
        ensures
            !is_label(dns_name@) ==> r is Err && r->Err_0 == IdentityError::InvalidLabel,
            is_label(dns_name@) && !is_ascii(dns_name@) ==> r is Err && r->Err_0
                == IdentityError::Rcgen,
            is_label(dns_name@) && is_ascii(dns_name@) && validity_from(
                now_unix_seconds,
                SERVER_CERT_DAYS,
            ) is None ==> r is Err && r->Err_0 == IdentityError::Clock,
            is_label(dns_name@) && validity_from(now_unix_seconds, SERVER_CERT_DAYS) is Some && r
                is Err ==> r->Err_0 == IdentityError::Rcgen,
            r is Ok ==> exists|profile: CertificateProfile| #[trigger]
                is_server_profile(profile, dns_name@) && carries(
                    certified(r->Ok_0.certificate_der@),
                    profile,
                    validity_from(now_unix_seconds, SERVER_CERT_DAYS)->0,
                ),
            r is Ok ==> certified_key(r->Ok_0.certificate_der@) == public_part(
                r->Ok_0.private_key_der@,
            ),
            r is Ok ==> is_signed_with(r->Ok_0.certificate_der@, self.key()),
    {
        let profile = match server_profile(dns_name) {
            Err(error) => {
                return Err(error);
            },
            Ok(profile) => profile,
        };
        let (params, _validity) = match params_for(&profile, now_unix_seconds) {
            Err(error) => {
                return Err(error);
            },
            Ok(made) => made,
        };
        let key = match generate_key() {
            Err(_) => {
                return Err(IdentityError::Rcgen);
            },
            Ok(key) => key,
        };
        match signed_by(&params, &key, &self.issuer) {
            Err(_) => Err(IdentityError::Rcgen),
            Ok(certificate_der) => Ok(
                IssuedCertificate { certificate_der, private_key_der: key_der(&key) },
            ),
        }
    }
}

/// Enrolls a device that has no key yet: a request to certify a new key, and that
/// key, to be kept. That the key can be made and the request be signed is not
/// promised: both rest on chance.
pub fn create_device_enrollment(device_id: &str, key_exists: bool) -> (r: Result<
    (DeviceEnrollment, Vec<u8>),
    IdentityError,
>)
    ensures
        !is_device_id(device_id@) ==> r is Err && r->Err_0 == IdentityError::InvalidDeviceId,
        is_device_id(device_id@) && key_exists ==> r is Err && r->Err_0
            == IdentityError::KeyAlreadyExists,
        is_device_id(device_id@) && !key_exists && r is Err ==> r->Err_0 == IdentityError::Rcgen,
        r is Ok ==> r->Ok_0.0.device_id@ == device_id@,
        r is Ok ==> exists|profile: CertificateProfile| #[trigger]
            is_request_profile(profile, device_id@) && asks(
                requested(r->Ok_0.0.csr_der@),
                profile,
            ),
        r is Ok ==> requested_key(r->Ok_0.0.csr_der@) == public_part(r->Ok_0.1@),
{
    let profile = match request_profile(device_id) {
        Err(error) => {
            return Err(error);
        },
        Ok(profile) => profile,
    };
    if key_exists {
        return Err(IdentityError::KeyAlreadyExists);
    }
    let key = match generate_key() {
        Err(_) => {
            return Err(IdentityError::Rcgen);
        },
        Ok(key) => key,
    };
    let mut params = match new_params(Vec::new()) {
        Err(_) => {
            return Err(IdentityError::Rcgen);
        },
        Ok(params) => params,
    };
    proof {
        lemma_device_uri_is_ascii(device_id@);
    }
    if let Err(error) = apply_profile(&mut params, &profile) {
        return Err(error);
    }
    match serialize_request(&params, &key) {
        Err(_) => Err(IdentityError::Rcgen),
        Ok(csr_der) => Ok(
            (DeviceEnrollment { device_id: text::copied(device_id), csr_der }, key_der(&key)),
        ),
    }
}

impl IssuedCertificate {
    pub fn private_key_der(&self) -> (key: &[u8])
        ensures
            key@ == self.private_key_der@,
    {
        self.private_key_der.as_slice()
    }

    pub fn into_parts(self) -> (parts: (Vec<u8>, Vec<u8>))
        ensures
            parts.0 == self.certificate_der,
            parts.1 == self.private_key_der,
    {
        (self.certificate_der, self.private_key_der)
    }

    /// The certificate for a log: the key is left out.
    pub fn redacted(&self) -> (line: String)
        ensures
            line@ == "IssuedCertificate { certificate_der_bytes: "@ + text::decimal_text(
                self.certificate_der@.len(),
            ) + ", private_key_der: \"<redacted>\" }"@,
    {
        let mut line = text::chars_of("IssuedCertificate { certificate_der_bytes: ");
        let digits = text::decimal(self.certificate_der.len() as u64);
        text::push_all(&mut line, digits.as_slice());
        text::push_text(&mut line, ", private_key_der: \"<redacted>\" }");
        text::string_of(line.as_slice())
    }
}

// ---------------------------------------------------------------------------
// Certificates as text

/// A text in lines of sixty-four characters, from `i` on.
pub open spec fn lines_of_64(s: Seq<char>, i: int) -> Seq<char>
    decreases s.len() - i,
{
    if i < 0 || i >= s.len() {
        Seq::empty()
    } else if i + 64 < s.len() {
        s.subrange(i, i + 64) + seq!['\n'] + lines_of_64(s, i + 64)
    } else {
        s.subrange(i, s.len() as int) + seq!['\n']
    }
}

/// Bytes as text between two lines that say what they are.
pub open spec fn pem_text(label: Seq<char>, der: Seq<u8>) -> Seq<char> {
    "-----BEGIN "@ + label + "-----\n"@ + lines_of_64(codec::standard_base64(der), 0)
        + "-----END "@ + label + "-----\n"@
}

fn pem_encode(label: &str, der: &[u8]) -> (pem: String)
    ensures
        pem@ == pem_text(label@, der@),
{
    let encoded = codec::to_standard_base64(der);
    let chars = text::chars_of(encoded.as_str());
    let mut out = text::chars_of("-----BEGIN ");
    text::push_text(&mut out, label);
    text::push_text(&mut out, "-----\n");
    let ghost head = out@;
    let n: usize = chars.len();
    let mut i: usize = 0;
    proof {
        assert(head + lines_of_64(chars@, 0) =~= out@ + lines_of_64(chars@, 0));
    }
    while i < n
        invariant
            n == chars@.len(),
            i <= n,
            head + lines_of_64(chars@, 0) == out@ + lines_of_64(chars@, i as int),
        decreases n - i,
    {
        let ghost before = out@;
        let end: usize = if n - i > 64 {
            i + 64
        } else {
            n
        };
        let line = passages::part(chars.as_slice(), i, end);
        text::push_all(&mut out, line.as_slice());
        out.push('\n');
        proof {
            assert(out@ + lines_of_64(chars@, end as int) =~= before + (line@ + seq!['\n']
                + lines_of_64(chars@, end as int)));
            if n - i <= 64 {
                assert(line@ + seq!['\n'] + lines_of_64(chars@, end as int) =~= lines_of_64(
                    chars@,
                    i as int,
                ));
            }
        }
        i = end;
    }
    proof {
        assert(out@ + lines_of_64(chars@, i as int) =~= out@);
    }
    text::push_text(&mut out, "-----END ");
    text::push_text(&mut out, label);
    text::push_text(&mut out, "-----\n");
    text::string_of(out.as_slice())
}

pub fn certificate_der_to_pem(certificate_der: &[u8]) -> (pem: String)
    ensures
        pem@ == pem_text("CERTIFICATE"@, certificate_der@),
{
    pem_encode("CERTIFICATE", certificate_der)
}

pub fn private_key_der_to_pem(private_key_der: &[u8]) -> (pem: String)
    ensures
        pem@ == pem_text("PRIVATE KEY"@, private_key_der@),
{
    pem_encode("PRIVATE KEY", private_key_der)
}

// ---------------------------------------------------------------------------
// Laws

/// Whatever a request asked for, the certificate that comes of it names the device
/// that was authorized and no other, and makes it no authority.
pub proof fn certificates_name_the_authorized_device(
    said: Set<Statement>,
    profile: CertificateProfile,
    device_id: Seq<char>,
    validity: Validity,
)
    requires
        is_device_profile(profile, device_id),
        carries(said, profile, validity),
    ensures
        forall|name: Seq<char>| #[trigger]
            said.contains(Statement::CommonName(name)) == (name == device_id),
        forall|uri: Seq<char>| #[trigger]
            said.contains(Statement::Uri(uri)) == (uri == device_uri(device_id)),
        !said.contains(Statement::IsAuthority),
        !said.contains(Statement::Use(KeyUsage::KeyCertSign)),
        !said.contains(Statement::For(Purpose::ServerAuth)),
{
    device_certificates_sign_for_nobody(profile, device_id);
}

/// A device that was enrolled holds the private key of the certificate that comes
/// of its request.
pub proof fn enrolled_devices_hold_their_key(csr_der: Seq<u8>, private_key: Seq<u8>, der: Seq<u8>)
    requires
        requested_key(csr_der) == public_part(private_key),
        certified_key(der) == requested_key(csr_der),
    ensures
        certified_key(der) == public_part(private_key),
{
}

/// A certificate for a device lets it be a client, and neither a server nor an
/// authority, whatever its name.
pub proof fn device_certificates_sign_for_nobody(profile: CertificateProfile, device_id: Seq<char>)
    requires
        is_device_profile(profile, device_id),
    ensures
        !profile.is_ca,
        !profile.key_usages@.contains(KeyUsage::KeyCertSign),
        !is_server_profile(profile, device_id),
        !is_ca_profile(profile, device_id),
{
    if profile.key_usages@.contains(KeyUsage::KeyCertSign) {
        let i = choose|i: int|
            0 <= i < profile.key_usages@.len() && profile.key_usages@[i] == KeyUsage::KeyCertSign;
        assert(profile.key_usages@[i] == KeyUsage::DigitalSignature);
    }
}

pub open spec fn no_feed() -> spec_fn(char) -> bool {
    |c: char| c != '\n'
}

/// What stands between the first line and the last is the encoded bytes, with
/// line feeds.
pub proof fn pem_lines_hold_the_bytes(s: Seq<char>, i: int)
    requires
        0 <= i <= s.len(),
        !s.contains('\n'),
    ensures
        lines_of_64(s, i).filter(no_feed()) == s.skip(i),
    decreases s.len() - i,
{
    if i < s.len() {
        let end = if i + 64 < s.len() {
            i + 64
        } else {
            s.len() as int
        };
        let line = s.subrange(i, end);
        pem_lines_hold_the_bytes(s, end);
        assert forall|k: int| 0 <= k < line.len() implies #[trigger] line[k] != '\n' by {
            assert(s[i + k] == line[k]);
            assert(s.contains(s[i + k]));
        }
        lemma_line(line, lines_of_64(s, end));
        assert(lines_of_64(s, i) =~= line + seq!['\n'] + lines_of_64(s, end));
        assert(s.skip(i) =~= line + s.skip(end));
    } else {
        assert(s.skip(i) =~= Seq::<char>::empty());
        reveal(Seq::filter);
    }
}

proof fn lemma_line(line: Seq<char>, rest: Seq<char>)
    requires
        forall|k: int| 0 <= k < line.len() ==> #[trigger] line[k] != '\n',
    ensures
        (line + seq!['\n'] + rest).filter(no_feed()) == line + rest.filter(no_feed()),
    decreases rest.len(),
{
    let all = line + seq!['\n'] + rest;
    reveal(Seq::filter);
    if rest.len() == 0 {
        assert(all.drop_last() =~= line);
        assert(all.last() == '\n');
        lemma_filter_all(line);
        assert(line + rest.filter(no_feed()) =~= line);
    } else {
        assert(all.drop_last() =~= line + seq!['\n'] + rest.drop_last());
        assert(all.last() == rest.last());
        lemma_line(line, rest.drop_last());
        assert(line + rest.filter(no_feed()) =~= (if rest.last() != '\n' {
            (line + rest.drop_last().filter(no_feed())).push(rest.last())
        } else {
            line + rest.drop_last().filter(no_feed())
        }));
    }
}

proof fn lemma_filter_all(s: Seq<char>)
    requires
        forall|k: int| 0 <= k < s.len() ==> #[trigger] s[k] != '\n',
    ensures
        s.filter(no_feed()) == s,
    decreases s.len(),
{
    reveal(Seq::filter);
    if s.len() > 0 {
        let fewer = s.drop_last();
        assert forall|k: int| 0 <= k < fewer.len() implies #[trigger] fewer[k] != '\n' by {
            assert(fewer[k] == s[k]);
        }
        lemma_filter_all(fewer);
        assert(s[s.len() - 1] != '\n');
        assert(s =~= fewer.push(s.last()));
    }
}

/// A device is named by 1 to 128 letters, digits, hyphens, underscores and dots; a label is
/// some text of at most 253 bytes without a zero that is not blank.
pub proof fn devices_and_labels_are_named_plainly(value: Seq<char>)
    ensures
        is_device_id(value) <==> 1 <= value.len() <= 128 && forall|i: int|
            0 <= i < value.len() ==> ('a' <= #[trigger] value[i] <= 'z' || 'A' <= value[i] <= 'Z'
                || '0' <= value[i] <= '9' || value[i] == '-' || value[i] == '_' || value[i] == '.'),
        is_label(value) <==> {
            &&& exists|i: int| 0 <= i < value.len() && !text::is_white_space(#[trigger] value[i])
            &&& vstd::utf8::encode_utf8(value).len() <= 253
            &&& !value.contains('\0')
        },
{
    if is_device_id(value) {
        assert forall|i: int| 0 <= i < value.len() implies ('a' <= #[trigger] value[i] <= 'z' || 'A'
            <= value[i] <= 'Z' || '0' <= value[i] <= '9' || value[i] == '-' || value[i] == '_'
            || value[i] == '.') by {
            assert(is_device_id_char(value[i]));
        }
    }
    if 1 <= value.len() <= 128 && forall|i: int|
        0 <= i < value.len() ==> ('a' <= #[trigger] value[i] <= 'z' || 'A' <= value[i] <= 'Z' || '0'
            <= value[i] <= '9' || value[i] == '-' || value[i] == '_' || value[i] == '.') {
        assert forall|i: int| 0 <= i < value.len() implies is_device_id_char(#[trigger] value[i]) by {}
    }
}

/// An authority signs for ten years of 365 days and signs other certificates; a device signs
/// as a client for 90 days and a server as a server for 30, each under its own name; all of
/// them belong to the same organization.
pub proof fn certificates_say_what_they_are_for(profile: CertificateProfile, name: Seq<char>)
    ensures
        is_ca_profile(profile, name) ==> {
            &&& profile.common_name@ == name
            &&& profile.organization@ == "V\u{f6}r Commander"@
            &&& profile.days == 3650
            &&& profile.is_ca
            &&& profile.alternative_name is None
            &&& profile.purpose is None
            &&& !profile.names_its_issuer
            &&& profile.key_usages@ == seq![
                KeyUsage::DigitalSignature,
                KeyUsage::KeyCertSign,
                KeyUsage::CrlSign,
            ]
        },
        is_device_profile(profile, name) ==> {
            &&& profile.common_name@ == name
            &&& profile.organization@ == "V\u{f6}r Commander"@
            &&& profile.days == 90
            &&& !profile.is_ca
            &&& profile.alternative_name is Some
            &&& profile.alternative_name->0 is Uri
            &&& profile.alternative_name->0->Uri_0@ == "urn:vor:device:"@ + name
            &&& profile.purpose == Some(Purpose::ClientAuth)
            &&& profile.names_its_issuer
            &&& profile.key_usages@ == seq![KeyUsage::DigitalSignature]
        },
        is_server_profile(profile, name) ==> {
            &&& profile.common_name@ == name
            &&& profile.organization@ == "V\u{f6}r Commander"@
            &&& profile.days == 30
            &&& !profile.is_ca
            &&& profile.alternative_name is Some
            &&& profile.alternative_name->0 is Dns
            &&& profile.alternative_name->0->Dns_0@ == name
            &&& profile.purpose == Some(Purpose::ServerAuth)
            &&& profile.names_its_issuer
            &&& profile.key_usages@ == seq![KeyUsage::DigitalSignature]
        },
        is_request_profile(profile, name) ==> !profile.names_its_issuer && profile.common_name@
            == name && profile.days == 90 && profile.purpose == Some(Purpose::ClientAuth),
{
}

/// A certificate holds from five minutes before now to so many days after it, unless that is
/// beyond the year 9999.
pub proof fn certificates_hold_from_just_before(now: u64, days: u32)
    ensures
        validity_from(now, days) is Some <==> now + days * 86_400 <= 253_402_300_799,
        validity_from(now, days) matches Some(v) ==> v.not_before == now - 300 && v.not_after - now
            == days * 86_400,
{
}

/// What a certificate says is what its profile says, no more and no less.
pub proof fn certificates_say_what_their_profile_says(profile: CertificateProfile, name: Seq<char>)
    ensures
        tells(profile, Statement::CommonName(name)) <==> profile.common_name@ == name,
        tells(profile, Statement::Organization(name)) <==> profile.organization@ == name,
        tells(profile, Statement::Uri(name)) <==> (profile.alternative_name is Some
            && profile.alternative_name->0 is Uri && profile.alternative_name->0->Uri_0@ == name),
        tells(profile, Statement::Host(name)) <==> (profile.alternative_name is Some
            && profile.alternative_name->0 is Dns && profile.alternative_name->0->Dns_0@ == name),
        tells(profile, Statement::IsAuthority) <==> profile.is_ca,
        tells(profile, Statement::NamesItsIssuer) <==> profile.names_its_issuer,
        tells(profile, Statement::For(Purpose::ClientAuth)) <==> profile.purpose == Some(
            Purpose::ClientAuth,
        ),
        tells(profile, Statement::For(Purpose::ServerAuth)) <==> profile.purpose == Some(
            Purpose::ServerAuth,
        ),
        forall|usage: KeyUsage| #[trigger]
            tells(profile, Statement::Use(usage)) <==> profile.key_usages@.contains(usage),
        forall|b: Seq<u8>| !#[trigger] tells(profile, Statement::OtherSubject(b)),
        forall|b: Seq<u8>| !#[trigger] tells(profile, Statement::OtherName(b)),
        forall|b: Seq<u8>| !#[trigger] tells(profile, Statement::OtherUse(b)),
{
}

/// The text of a certificate stands in lines of 64 characters between its two marks: a feed
/// follows each 64th character and the last.
pub proof fn certificates_stand_in_lines(label: Seq<char>, der: Seq<u8>, s: Seq<char>, j: int)
    requires
        0 <= j < s.len(),
    ensures
        ({
            let lines = lines_of_64(s, 0);
            &&& lines.len() == s.len() + (s.len() + 63) / 64
            &&& lines[j + j / 64] == s[j]
            &&& (j + 1) % 64 == 0 || j + 1 == s.len() ==> lines[j + j / 64 + 1] == '\n'
        }),
        pem_text(label, der) == "-----BEGIN "@ + label + "-----\n"@ + lines_of_64(
            codec::standard_base64(der),
            0,
        ) + "-----END "@ + label + "-----\n"@,
{
    lemma_lines(s, 0, j);
}

proof fn lemma_lines(s: Seq<char>, i: int, j: int)
    requires
        0 <= i <= j < s.len(),
    ensures
        ({
            let lines = lines_of_64(s, i);
            let k = j - i;
            &&& lines.len() == (s.len() - i) + (s.len() - i + 63) / 64
            &&& lines[k + k / 64] == s[j]
            &&& (k + 1) % 64 == 0 || j + 1 == s.len() ==> lines[k + k / 64 + 1] == '\n'
        }),
    decreases s.len() - i,
{
    let lines = lines_of_64(s, i);
    let k = j - i;
    if i + 64 < s.len() {
        let rest = lines_of_64(s, i + 64);
        let m = if j >= i + 64 {
            j
        } else {
            i + 64
        };
        lemma_lines(s, i + 64, m);
        assert(rest.len() == (s.len() - i - 64) + (s.len() - i - 64 + 63) / 64);
        assert((s.len() - i + 63) / 64 == (s.len() - i - 64 + 63) / 64 + 1);
        if j >= i + 64 {
            let q = j - (i + 64);
            assert(k == q + 64);
            assert(k / 64 == q / 64 + 1);
            assert((k + 1) % 64 == (q + 1) % 64);
            assert(lines[k + k / 64] == rest[q + q / 64]);
            if (k + 1) % 64 == 0 || j + 1 == s.len() {
                assert(rest[q + q / 64 + 1] == '\n');
                assert(q + q / 64 + 1 < rest.len()) by {
                    assert(q / 64 + 1 <= (s.len() - i - 64 + 63) / 64);
                }
                assert(lines[k + k / 64 + 1] == rest[q + q / 64 + 1]);
            }
        } else {
            assert(k / 64 == 0);
        }
    } else {
        assert(k / 64 == 0);
        assert((s.len() - i + 63) / 64 == 1);
    }
}

} // verus!
