//! Who signs and seals an AS2 entity, and who does not.
//!
//! RFC 4130 wraps the payload in S/MIME: `multipart/signed` with a
//! `pkcs7-signature` part, or `application/pkcs7-mime` enveloped for the
//! partner's certificate. Both need a certificate and a private key, which
//! whoever implements [`Signer`] holds: it is applied to every message and
//! every receipt. [`Unsigned`] carries the entity as it is.
use vstd::prelude::*;

use crate::error;
use crate::error::{ErrorView, TransportError};

verus! {

/// An entity as it travels: its media type and its bytes.
#[derive(Debug, PartialEq, Eq)]
pub struct Entity {
    pub content_type: String,
    pub body: Vec<u8>,
}

/// An [`Entity`] as a mathematical value.
pub struct EntityView {
    pub content_type: Seq<char>,
    pub body: Seq<u8>,
}

impl View for Entity {
    type V = EntityView;

    open spec fn view(&self) -> EntityView {
        EntityView { content_type: self.content_type@, body: self.body@ }
    }
}

impl Clone for Entity {
    fn clone(&self) -> (copy: Self)
        ensures
            copy@ == self@,
    {
        Entity { content_type: self.content_type.clone(), body: self.body.clone() }
    }
}

impl Entity {
    /// The entity of that media type and those bytes.
    #[must_use]
    pub fn new(content_type: &str, body: Vec<u8>) -> (entity: Self)
        ensures
            entity@ == (EntityView { content_type: content_type@, body: body@ }),
    {
        Entity { content_type: content_type.to_string(), body }
    }
}

/// What wraps an entity on the way out and unwraps it on the way in.
///
/// A signer is applied to every message, and to every receipt as well,
/// whether the partner asked for a signed one or not: RFC 4130 sections 5 and
/// 7. Signing may draw on chance, so what a signer does with an entity is a
/// relation and not a function. One that says nothing of its wrapping and
/// unwrapping may do anything there; the name of its digest is a text that
/// stays unknown until it says which.
pub trait Signer: Send + Sync {
    /// The digest that the signer names.
    open spec fn digest_name(&self) -> Seq<char> {
        arbitrary()
    }

    /// Whether wrapping `entity` may end in `wrapped`.
    open spec fn may_wrap(&self, entity: EntityView, wrapped: Result<EntityView, ErrorView>) -> bool {
        true
    }

    /// Whether unwrapping `entity` may end in `unwrapped`.
    open spec fn may_unwrap(&self, entity: EntityView, unwrapped: Result<EntityView, ErrorView>) -> bool {
        true
    }

    /// The digest the receipt's `Received-Content-MIC` names, as the
    /// `Disposition-Notification-Options` header spells it: `sha-256`.
    fn micalg(&self) -> (name: &'static str)
        ensures
            name@ == self.digest_name(),
    ;

    /// `entity` wrapped for the wire: signed, sealed, or left as it is.
    ///
    /// # Errors
    /// Where the key or the certificate cannot sign.
    fn wrap(&self, entity: Entity) -> (wrapped: Result<Entity, TransportError>)
        ensures
            self.may_wrap(entity@, error::outcome(wrapped)),
    ;

    /// An entity off the wire, its wrapping verified and removed.
    ///
    /// # Errors
    /// Where the signature does not verify or the seal will not open.
    fn unwrap(&self, entity: Entity) -> (unwrapped: Result<Entity, TransportError>)
        ensures
            self.may_unwrap(entity@, error::outcome(unwrapped)),
    ;
}

/// No certificate: the entity travels as it is, and the receipt says which
/// digest it was hashed with all the same.
#[derive(Clone, Copy, Debug, Default)]
pub struct Unsigned;

impl Signer for Unsigned {
    open spec fn digest_name(&self) -> Seq<char> {
        "sha-256"@
    }

    open spec fn may_wrap(&self, entity: EntityView, wrapped: Result<EntityView, ErrorView>) -> bool {
        wrapped == Ok::<EntityView, ErrorView>(entity)
    }

    open spec fn may_unwrap(
        &self,
        entity: EntityView,
        unwrapped: Result<EntityView, ErrorView>,
    ) -> bool {
        unwrapped == Ok::<EntityView, ErrorView>(entity)
    }

    fn micalg(&self) -> &'static str {
        "sha-256"
    }

    fn wrap(&self, entity: Entity) -> Result<Entity, TransportError> {
        Ok(entity)
    }

    fn unwrap(&self, entity: Entity) -> Result<Entity, TransportError> {
        Ok(entity)
    }
}

} // verus!
