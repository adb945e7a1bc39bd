//! The settings of the tunnel between a device and its gateway: each side trusts
//! one authority, and shows a certificate of its own.

use std::sync::Arc;

use vstd::prelude::*;

use rustls::crypto::ring::default_provider;
use rustls::pki_types::CertificateDer;
use rustls::pki_types::PrivatePkcs8KeyDer;
use rustls::server::WebPkiClientVerifier;
use rustls::ClientConfig;
use rustls::RootCertStore;
use rustls::ServerConfig;

use crate::identity::IdentityError;

verus! {

#[verifier::external_type_specification]
#[verifier::external_body]
pub struct ExRootCertStore(rustls::RootCertStore);

#[verifier::external_type_specification]
#[verifier::external_body]
pub struct ExClientConfig(rustls::ClientConfig);

#[verifier::external_type_specification]
#[verifier::external_body]
pub struct ExServerConfig(rustls::ServerConfig);

#[verifier::external_type_specification]
#[verifier::external_body]
pub struct ExTlsError(rustls::Error);

/// The bytes are a certificate that can be trusted as a root.
pub uninterp spec fn is_trust_anchor(ca_der: Seq<u8>) -> bool;

/// What is trusted with a root certificate: whose it is, its key, and for which
/// names it may certify. Certificates that agree in these are trusted alike.
pub uninterp spec fn anchor_of(ca_der: Seq<u8>) -> Seq<u8>;

/// The bytes of a private key can be read, and the key is that of the certificate.
pub uninterp spec fn is_identity(cert_der: Seq<u8>, key_der: Seq<u8>) -> bool;

/// What is trusted with the roots of a store.
pub uninterp spec fn trusted_roots(roots: RootCertStore) -> Set<Seq<u8>>;

/// From which roots the certificate of a server must come that a client talks to.
pub uninterp spec fn server_roots(config: ClientConfig) -> Set<Seq<u8>>;

/// The certificates that a client shows of itself, its own first.
pub uninterp spec fn client_chain(config: ClientConfig) -> Seq<Seq<u8>>;

/// From which roots the certificate of a client must come that a server talks to.
pub uninterp spec fn client_roots(config: ServerConfig) -> Set<Seq<u8>>;

/// A server talks to no client that shows no certificate.
pub uninterp spec fn demands_certificate(config: ServerConfig) -> bool;

/// The certificates that a server shows of itself, its own first.
pub uninterp spec fn server_chain(config: ServerConfig) -> Seq<Seq<u8>>;

/// `rustls::RootCertStore::add`, to an empty store: what of a certificate is kept
/// is its anchor, and nothing else is in the store.
#[verifier::external_body]
fn roots_of(ca_der: &[u8]) -> (r: Result<RootCertStore, rustls::Error>)
    ensures
        r is Ok == is_trust_anchor(ca_der@),
        r is Ok ==> trusted_roots(r->Ok_0) == set![anchor_of(ca_der@)],
{
    let mut roots = RootCertStore::empty();
    roots.add(CertificateDer::from(ca_der.to_vec()))?;
    Ok(roots)
}

/// `with_client_auth_cert` of `rustls::ConfigBuilder`, with the cryptography of
/// `ring` and the default versions of the protocol: the settings trust the roots,
/// show the certificate, and can be made if and only if the key, in PKCS#8, can be
/// read and belongs to it.
#[verifier::external_body]
fn client_config(roots: RootCertStore, cert_der: &[u8], key_der: &[u8]) -> (r: Result<
    ClientConfig,
    rustls::Error,
>)
    ensures
        r is Ok == is_identity(cert_der@, key_der@),
        r is Ok ==> server_roots(r->Ok_0) == trusted_roots(roots),
        r is Ok ==> client_chain(r->Ok_0) == seq![cert_der@],
{
    let chain = vec![CertificateDer::from(cert_der.to_vec())];
    let key = PrivatePkcs8KeyDer::from(key_der.to_vec());
    ClientConfig::builder_with_provider(Arc::new(default_provider()))
        .with_safe_default_protocol_versions()?
        .with_root_certificates(roots)
        .with_client_auth_cert(chain, key.into())
}

/// `WebPkiClientVerifier::builder_with_provider` and `with_single_cert` of
/// `rustls::ConfigBuilder`, in the same way: clients must show a certificate that
/// comes from the roots, of which there must be one, and the server shows its own.
#[verifier::external_body]
fn server_config(roots: RootCertStore, cert_der: &[u8], key_der: &[u8]) -> (r: Result<
    ServerConfig,
    rustls::Error,
>)
    ensures
        r is Ok == (trusted_roots(roots) != Set::<Seq<u8>>::empty() && is_identity(
            cert_der@,
            key_der@,
        )),
        r is Ok ==> client_roots(r->Ok_0) == trusted_roots(roots),
        r is Ok ==> demands_certificate(r->Ok_0),
        r is Ok ==> server_chain(r->Ok_0) == seq![cert_der@],
{
    let provider = Arc::new(default_provider());
    let chain = vec![CertificateDer::from(cert_der.to_vec())];
    let key = PrivatePkcs8KeyDer::from(key_der.to_vec());
    let verifier = WebPkiClientVerifier::builder_with_provider(Arc::new(roots), provider.clone())
        .build()
        .map_err(|error| rustls::Error::General(error.to_string()))?;
    ServerConfig::builder_with_provider(provider)
        .with_safe_default_protocol_versions()?
        .with_client_cert_verifier(verifier)
        .with_single_cert(chain, key.into())
}

/// The settings of a device that talks to its gateway: it trusts servers of the
/// authority alone, and shows its certificate. The key is in PKCS#8.
pub fn client_tls_config(ca_der: &[u8], device_cert_der: &[u8], device_key_der: &[u8]) -> (r: Result<
    Arc<ClientConfig>,
    IdentityError,
>)
    ensures
        r is Ok == (is_trust_anchor(ca_der@) && is_identity(device_cert_der@, device_key_der@)),
        r is Err ==> r->Err_0 == IdentityError::Tls,
        r is Ok ==> server_roots(*r->Ok_0) == set![anchor_of(ca_der@)],
        r is Ok ==> client_chain(*r->Ok_0) == seq![device_cert_der@],
{
    let roots = match roots_of(ca_der) {
        Err(_) => {
            return Err(IdentityError::Tls);
        },
        Ok(roots) => roots,
    };
    match client_config(roots, device_cert_der, device_key_der) {
        Err(_) => Err(IdentityError::Tls),
        Ok(config) => Ok(Arc::new(config)),
    }
}

/// The settings of a gateway that devices talk to: it demands a certificate of the
/// authority of each, and shows its own. The key is in PKCS#8.
pub fn server_tls_config(ca_der: &[u8], server_cert_der: &[u8], server_key_der: &[u8]) -> (r: Result<
    Arc<ServerConfig>,
    IdentityError,
>)
    ensures
        r is Ok == (is_trust_anchor(ca_der@) && is_identity(server_cert_der@, server_key_der@)),
        r is Err ==> r->Err_0 == IdentityError::Tls,
        r is Ok ==> client_roots(*r->Ok_0) == set![anchor_of(ca_der@)],
        r is Ok ==> demands_certificate(*r->Ok_0),
        r is Ok ==> server_chain(*r->Ok_0) == seq![server_cert_der@],
{
    let roots = match roots_of(ca_der) {
        Err(_) => {
            return Err(IdentityError::Tls);
        },
        Ok(roots) => roots,
    };
    proof {
        assert(set![anchor_of(ca_der@)].contains(anchor_of(ca_der@)));
    }
    match server_config(roots, server_cert_der, server_key_der) {
        Err(_) => Err(IdentityError::Tls),
        Ok(config) => Ok(Arc::new(config)),
    }
}

// ---------------------------------------------------------------------------
// Laws

/// The two ends of a tunnel under one authority trust the same, and neither talks
/// to an end that shows no certificate of that authority.
pub proof fn both_ends_trust_the_authority(
    ca_der: Seq<u8>,
    client: ClientConfig,
    server: ServerConfig,
)
    requires
        server_roots(client) == set![anchor_of(ca_der)],
        client_roots(server) == set![anchor_of(ca_der)],
        demands_certificate(server),
    ensures
        server_roots(client) == client_roots(server),
        forall|root: Seq<u8>|
            server_roots(client).contains(root) ==> root == anchor_of(ca_der),
        forall|root: Seq<u8>|
            client_roots(server).contains(root) ==> root == anchor_of(ca_der),
{
}

} // verus!
