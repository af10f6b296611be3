//! The certificate of an AirDrop receiver.
//!
//! A receiver shows a fresh self-signed certificate. A sender checks that the
//! peer holds the key of the certificate that it shows, and asks no authority.

use crate::crypto::sha256_of;
use crate::error::Result;
use crate::native::tls::{
    generate_identity_for, holds_bytes, host_entry, is_letters, key_fits, IdentityCert,
};
use vstd::prelude::*;

verus! {

/// The name in the certificate.
pub const SERVER_NAME: &'static str = "AirDrop";

/// A new identity of an AirDrop receiver, under [`SERVER_NAME`].
pub fn server_identity() -> (identity: Result<IdentityCert>)
    ensures
        match identity {
            Ok(identity) => {
                &&& holds_bytes(identity.cert_der@, host_entry(SERVER_NAME@))
                &&& key_fits(identity.cert_der@, identity.key_der@)
                &&& identity.fingerprint@ == sha256_of(identity.cert_der@)
            },
            Err(error) => error@ is Crypto,
        },
{
    proof {
        reveal_strlit("AirDrop");
        assert(is_letters(SERVER_NAME@));
    }
    generate_identity_for(SERVER_NAME)
}

} // verus!
