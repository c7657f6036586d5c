//! What identity PEM texts make.

use crate::tls::Identity;
use crate::tls::IdentityError;
use vstd::prelude::*;

verus! {

/// The identity is the whole chain and the first of the keys. Without a chain,
/// without keys that can be read, and without a key there is none, for the first
/// of these reasons that holds.
pub proof fn law_identity(chain: Seq<Seq<u8>>, keys: Seq<Seq<u8>>, any: Option<Seq<Seq<u8>>>)
    ensures
        keys.len() > 0 ==> crate::tls::identity_in(Some(chain), Some(keys)) == Ok::<
            (Seq<Seq<u8>>, Seq<u8>),
            IdentityError,
        >((chain, keys[0])),
        keys.len() == 0 ==> crate::tls::identity_in(Some(chain), Some(keys)) == Err::<
            (Seq<Seq<u8>>, Seq<u8>),
            IdentityError,
        >(IdentityError::NoKey),
        crate::tls::identity_in(Some(chain), None) == Err::<
            (Seq<Seq<u8>>, Seq<u8>),
            IdentityError,
        >(IdentityError::InvalidKey),
        crate::tls::identity_in(None, any) == Err::<(Seq<Seq<u8>>, Seq<u8>), IdentityError>(
            IdentityError::InvalidChain,
        ),
{
}

/// The view of an identity keeps every certificate and the key, byte by byte.
pub proof fn law_identity_view(identity: Identity, e: IdentityError)
    ensures
        crate::tls::blocks(identity.chain@).len() == identity.chain@.len(),
        forall|i: int|
            0 <= i < identity.chain@.len() ==> #[trigger] crate::tls::blocks(identity.chain@)[i]
                == identity.chain@[i]@,
        crate::tls::identity_view(Ok(identity)) == Ok::<(Seq<Seq<u8>>, Seq<u8>), IdentityError>(
            (crate::tls::blocks(identity.chain@), identity.key@),
        ),
        crate::tls::identity_view(Err(e)) == Err::<(Seq<Seq<u8>>, Seq<u8>), IdentityError>(e),
{
}

} // verus!
