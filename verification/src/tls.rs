//! The identities that are shown and checked on encrypted connections.

use vstd::prelude::*;

verus! {

/// Why PEM text could not be read.
#[verifier::external_type_specification]
#[verifier::external_body]
pub struct ExIoError(std::io::Error);

/// Why there is no identity.
#[derive(Clone, Copy, Debug, PartialEq, Eq, Structural)]
pub enum IdentityError {
    /// The address is no name of a server, though it may well resolve.
    InvalidDomain,
    /// The certificate chain is no PEM text.
    InvalidChain,
    /// The private key is no PEM text.
    InvalidKey,
    /// There is no private key of the expected kind.
    NoKey,
}

/// Whether `rustls` takes a text as the name of a server.
pub uninterp spec fn is_server_name(addr: Seq<char>) -> bool;

/// `ServerName::try_from` of `rustls`, of which only the success is kept. It is
/// claimed that it depends on the text alone.
#[verifier::external_body]
fn parses_as_server_name(addr: &str) -> (r: bool)
    ensures
        r == is_server_name(addr@),
{
    tokio_rustls::rustls::ServerName::try_from(addr).is_ok()
}

/// Whether the certificate of a server at `addr` could be checked at all: the
/// address has to be the name of a server.
pub fn check_server_name(addr: &str) -> (r: Result<(), IdentityError>)
    ensures
        r is Ok <==> is_server_name(addr@),
        r matches Err(e) ==> e == IdentityError::InvalidDomain,
{
    if parses_as_server_name(addr) {
        Ok(())
    } else {
        Err(IdentityError::InvalidDomain)
    }
}

/// The certificates in PEM text, if it is PEM text.
pub uninterp spec fn pem_certs(pem: Seq<u8>) -> Option<Seq<Seq<u8>>>;

/// The private keys in the form of PKCS #8 in PEM text, if it is PEM text.
pub uninterp spec fn pem_keys(pem: Seq<u8>) -> Option<Seq<Seq<u8>>>;

/// The views of byte vectors.
pub open spec fn blocks(v: Seq<Vec<u8>>) -> Seq<Seq<u8>> {
    v.map_values(|b: Vec<u8>| b@)
}

/// The view of what a reader of PEM text returns.
pub open spec fn pem_view(r: Result<Vec<Vec<u8>>, std::io::Error>) -> Option<Seq<Seq<u8>>> {
    match r {
        Ok(v) => Some(blocks(v@)),
        Err(_) => None,
    }
}

/// `rustls_pemfile::certs` of bytes in memory. It is claimed that the result
/// depends on the bytes alone.
#[verifier::external_body]
fn read_certs(pem: &[u8]) -> (r: Result<Vec<Vec<u8>>, std::io::Error>)
    ensures
        pem_view(r) == pem_certs(pem@),
{
    let mut rest: &[u8] = pem;
    rustls_pemfile::certs(&mut rest)
}

/// `rustls_pemfile::pkcs8_private_keys` of bytes in memory. It is claimed that
/// the result depends on the bytes alone.
#[verifier::external_body]
fn read_keys(pem: &[u8]) -> (r: Result<Vec<Vec<u8>>, std::io::Error>)
    ensures
        pem_view(r) == pem_keys(pem@),
{
    let mut rest: &[u8] = pem;
    rustls_pemfile::pkcs8_private_keys(&mut rest)
}

/// What a server shows: its chain of certificates, and its private key.
#[derive(Debug)]
pub struct Identity {
    pub chain: Vec<Vec<u8>>,
    pub key: Vec<u8>,
}

/// The identity in two PEM texts, of which the second may hold several keys: the
/// first one counts.
pub open spec fn identity_in(
    certs: Option<Seq<Seq<u8>>>,
    keys: Option<Seq<Seq<u8>>>,
) -> Result<(Seq<Seq<u8>>, Seq<u8>), IdentityError> {
    match (certs, keys) {
        (None, _) => Err(IdentityError::InvalidChain),
        (Some(_), None) => Err(IdentityError::InvalidKey),
        (Some(chain), Some(keys)) => if keys.len() == 0 {
            Err(IdentityError::NoKey)
        } else {
            Ok((chain, keys[0]))
        },
    }
}

/// The view of an identity.
pub open spec fn identity_view(r: Result<Identity, IdentityError>) -> Result<
    (Seq<Seq<u8>>, Seq<u8>),
    IdentityError,
> {
    match r {
        Ok(identity) => Ok((blocks(identity.chain@), identity.key@)),
        Err(e) => Err(e),
    }
}

/// The identity that certificates and keys make, where they could be read.
pub fn identity_of(certs: Option<Vec<Vec<u8>>>, keys: Option<Vec<Vec<u8>>>) -> (r: Result<
    Identity,
    IdentityError,
>)
    ensures
        identity_view(r) == identity_in(
            match certs {
                Some(v) => Some(blocks(v@)),
                None => None,
            },
            match keys {
                Some(v) => Some(blocks(v@)),
                None => None,
            },
        ),
        match r {
            Ok(identity) => {
                &&& certs matches Some(chain) && identity.chain == chain
                &&& keys matches Some(list) && list@.len() > 0 && identity.key == list@[0]
            },
            Err(IdentityError::InvalidChain) => certs is None,
            Err(IdentityError::InvalidKey) => certs is Some && keys is None,
            Err(IdentityError::NoKey) => certs is Some && (keys matches Some(list)
                && list@.len() == 0),
            Err(IdentityError::InvalidDomain) => false,
        },
{
    let chain: Vec<Vec<u8>> = match certs {
        Some(chain) => chain,
        None => return Err(IdentityError::InvalidChain),
    };
    let mut keys: Vec<Vec<u8>> = match keys {
        Some(keys) => keys,
        None => return Err(IdentityError::InvalidKey),
    };
    if keys.len() == 0 {
        return Err(IdentityError::NoKey);
    }
    let key: Vec<u8> = keys.swap_remove(0);
    Ok(Identity { chain, key })
}

/// The identity of a server whose chain of certificates and private key are PEM
/// texts.
pub fn server_identity(chain_pem: &[u8], key_pem: &[u8]) -> (r: Result<Identity, IdentityError>)
    ensures
        identity_view(r) == identity_in(pem_certs(chain_pem@), pem_keys(key_pem@)),
{
    identity_of(read_certs(chain_pem).ok(), read_keys(key_pem).ok())
}

} // verus!
