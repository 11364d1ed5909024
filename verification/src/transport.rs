//! Both ends of an exchange: what a partner makes of a request, and what it
//! makes of the answer to its own.
use std::time::Duration;

use vstd::prelude::*;

use crate::error::{protocol_error, ErrorView, TransportError};
use crate::http::{Request, RequestView, Response, ResponseView};
use crate::mdn::{Mdn, MdnView};
use crate::message::{mic, next_message_id, Message, MessageView, VERSION};
use crate::numbers::Numbers;
use crate::signer::{Entity, EntityView, Signer, Unsigned};
use crate::text::{after, chars_of, push_decimal, same_bytes, text_of, without_angles};
use crate::{error, http, lemmas, mdn, message, multipart, text};

verus! {

/// `as2://` is `http://` on the wire, and `as2s://` is `https://`.
pub open spec fn wire_url(url: Seq<char>) -> Seq<char> {
    match (text::strip_prefix(url, "as2://"@), text::strip_prefix(url, "as2s://"@)) {
        (Some(rest), _) => "http://"@ + rest,
        (None, Some(rest)) => "https://"@ + rest,
        (None, None) => url,
    }
}

/// `as2://` is `http://` on the wire, and `as2s://` is `https://`.
#[must_use]
pub fn as_http(url: &str) -> (wire: String)
    ensures
        wire@ == wire_url(url@),
{
    let chars = chars_of(url);
    if let Some(rest) = after(&chars, &chars_of("as2://")) {
        let mut wire = "http://".to_string();
        wire.append(&text_of(rest));
        wire
    } else if let Some(rest) = after(&chars, &chars_of("as2s://")) {
        let mut wire = "https://".to_string();
        wire.append(&text_of(rest));
        wire
    } else {
        url.to_string()
    }
}

/// What is on the wire already stays as it is.
pub proof fn law_wire_url_is_final(url: Seq<char>)
    ensures
        wire_url(wire_url(url)) == wire_url(url),
{
    reveal_strlit("as2://");
    reveal_strlit("as2s://");
    reveal_strlit("http://");
    reveal_strlit("https://");
    let wire = wire_url(url);
    if wire != url {
        assert(wire[0] == 'h');
        assert("as2://"@[0] == 'a');
        assert("as2s://"@[0] == 'a');
        if "as2://"@.is_prefix_of(wire) {
            assert(wire[0] == "as2://"@[0]);
        }
        if "as2s://"@.is_prefix_of(wire) {
            assert(wire[0] == "as2s://"@[0]);
        }
    }
}

/// One partner of an exchange.
pub struct As2Transport {
    /// The partner's endpoint to send to, or the address to listen at.
    endpoint: String,
    me: String,
    partner: String,
    signer: Box<dyn Signer>,
    timeout: Option<Duration>,
}

/// What a partner is set up with, its signer apart.
pub struct Setup {
    pub endpoint: Seq<char>,
    pub me: Seq<char>,
    pub partner: Seq<char>,
    pub timeout: Option<Duration>,
}

impl View for As2Transport {
    type V = Setup;

    closed spec fn view(&self) -> Setup {
        Setup {
            endpoint: self.endpoint@,
            me: self.me@,
            partner: self.partner@,
            timeout: self.timeout,
        }
    }
}

impl As2Transport {
    /// The endpoint is kept as the wire has it.
    #[verifier::type_invariant]
    spec fn endpoint_on_the_wire(&self) -> bool {
        wire_url(self.endpoint@) == self.endpoint@
    }

    /// The digest that the signer names.
    pub closed spec fn digest_name(&self) -> Seq<char> {
        self.signer.digest_name()
    }

    /// Whether the signer's wrapping of `entity` may end in `wrapped`.
    pub closed spec fn may_wrap(
        &self,
        entity: EntityView,
        wrapped: Result<EntityView, ErrorView>,
    ) -> bool {
        self.signer.may_wrap(entity, wrapped)
    }

    /// Whether the signer's unwrapping of `entity` may end in `unwrapped`.
    pub closed spec fn may_unwrap(
        &self,
        entity: EntityView,
        unwrapped: Result<EntityView, ErrorView>,
    ) -> bool {
        self.signer.may_unwrap(entity, unwrapped)
    }

    /// Whether the two apply the same signer.
    pub open spec fn signs_like(&self, other: &As2Transport) -> bool {
        &&& self.digest_name() == other.digest_name()
        &&& forall|entity: EntityView, wrapped: Result<EntityView, ErrorView>|
            #[trigger] self.may_wrap(entity, wrapped) <==> other.may_wrap(entity, wrapped)
        &&& forall|entity: EntityView, unwrapped: Result<EntityView, ErrorView>|
            #[trigger] self.may_unwrap(entity, unwrapped) <==> other.may_unwrap(entity, unwrapped)
    }

    /// Whether every entity travels as it is.
    pub open spec fn is_unsigned(&self) -> bool {
        &&& self.digest_name() == "sha-256"@
        &&& forall|entity: EntityView, wrapped: Result<EntityView, ErrorView>|
            #[trigger] self.may_wrap(entity, wrapped) <==> wrapped == Ok::<EntityView, ErrorView>(
                entity,
            )
        &&& forall|entity: EntityView, unwrapped: Result<EntityView, ErrorView>|
            #[trigger] self.may_unwrap(entity, unwrapped) <==> unwrapped == Ok::<
                EntityView,
                ErrorView,
            >(entity)
    }

    /// Speak as partner `me` to `partner` at `endpoint`
    /// (`http://host:port/as2` or `as2://host:port/as2`), unsigned until
    /// [`Self::signing_with`].
    #[must_use]
    pub fn new(endpoint: &str, me: &str, partner: &str) -> (transport: Self)
        ensures
            transport@ == (Setup {
                endpoint: wire_url(endpoint@),
                me: me@,
                partner: partner@,
                timeout: None,
            }),
            transport.is_unsigned(),
    {
        proof {
            law_wire_url_is_final(endpoint@);
        }
        As2Transport {
            endpoint: as_http(endpoint),
            me: me.to_string(),
            partner: partner.to_string(),
            signer: Box::new(Unsigned),
            timeout: None,
        }
    }

    /// Sign and seal with this, and verify with it.
    #[must_use]
    pub fn signing_with(self, signer: Box<dyn Signer>) -> (transport: Self)
        ensures
            transport@ == self@,
            transport.digest_name() == signer.digest_name(),
            forall|entity: EntityView, wrapped: Result<EntityView, ErrorView>|
                #[trigger] transport.may_wrap(entity, wrapped) <==> signer.may_wrap(entity, wrapped),
            forall|entity: EntityView, unwrapped: Result<EntityView, ErrorView>|
                #[trigger] transport.may_unwrap(entity, unwrapped) <==> signer.may_unwrap(
                    entity,
                    unwrapped,
                ),
    {
        proof {
            use_type_invariant(&self);
        }
        let mut transport = self;
        let mut signer = signer;
        std::mem::swap(&mut transport.signer, &mut signer);
        transport
    }

    /// Give up on a partner that stops mid-message.
    #[must_use]
    pub fn timing_out_after(self, timeout: Duration) -> (transport: Self)
        ensures
            transport@ == (Setup { timeout: Some(timeout), ..self@ }),
            transport.signs_like(&self),
    {
        proof {
            use_type_invariant(&self);
        }
        let mut transport = self;
        transport.timeout = Some(timeout);
        transport
    }
}

impl As2Transport {
    /// The name of this transport.
    #[must_use]
    pub fn name(&self) -> (name: &'static str)
        ensures
            name@ == "as2"@,
    {
        "as2"
    }

    /// The endpoint, as the wire has it.
    #[must_use]
    pub fn endpoint(&self) -> (url: &str)
        ensures
            url@ == self@.endpoint,
            wire_url(url@) == url@,
    {
        proof {
            use_type_invariant(self);
        }
        self.endpoint.as_str()
    }

    /// The partner that this one speaks as.
    #[must_use]
    pub fn me(&self) -> (name: &str)
        ensures
            name@ == self@.me,
    {
        self.me.as_str()
    }

    /// The partner that this one speaks to.
    #[must_use]
    pub fn partner(&self) -> (name: &str)
        ensures
            name@ == self@.partner,
    {
        self.partner.as_str()
    }

    /// How long to wait for a partner that stops mid-message.
    #[must_use]
    pub fn timeout(&self) -> (timeout: Option<Duration>)
        ensures
            timeout == self@.timeout,
    {
        self.timeout
    }
}

/// The message that a request carries for the partner `me`, or why it
/// carries none.
pub open spec fn addressed_to(request: RequestView, me: Seq<char>) -> Result<MessageView, ErrorView> {
    match message::received(request) {
        Ok(m) => if m.to == me {
            Ok(m)
        } else {
            Err(error::refused("a message for "@ + m.to + ", and this partner is "@ + me))
        },
        Err(e) => Err(e),
    }
}

/// The digest that the receipt of a message is asked in.
pub open spec fn receipt_micalg(m: MessageView) -> Seq<char> {
    match m.micalg {
        Some(micalg) => micalg,
        None => "sha-256"@,
    }
}

/// The receipt that the partner `me` owes for a message whose entity unwraps
/// to `entity`: none where none was asked for.
pub open spec fn owed_receipt(m: MessageView, entity: EntityView, me: Seq<char>) -> Result<
    Option<MdnView>,
    ErrorView,
> {
    if m.notification_to is None {
        Ok(None)
    } else {
        match message::digested(receipt_micalg(m), entity.body) {
            Ok(digest) => Ok(Some(mdn::receipt(m.message_id, me, digest, receipt_micalg(m)))),
            Err(e) => Err(e),
        }
    }
}

/// The answer of the partner `me` to a message from `from`, carrying its
/// receipt where there is one.
pub open spec fn answered(me: Seq<char>, from: Seq<char>, wrapped: Option<EntityView>) -> ResponseView {
    match wrapped {
        Some(entity) => ResponseView {
            status: 200,
            headers: seq![
                ("AS2-Version"@, VERSION@),
                ("AS2-From"@, me),
                ("AS2-To"@, from),
                ("Content-Type"@, entity.content_type),
            ],
            body: entity.body,
        },
        None => http::bare_response(200),
    }
}

/// A message taken: as its headers describe it, its entity unwrapped, and
/// the answer it earns.
pub type TakenView = (MessageView, EntityView, ResponseView);

/// What taking a message ends in, its entity unwrapped and its receipt, where
/// one is owed, wrapped.
pub open spec fn taken(
    m: MessageView,
    me: Seq<char>,
    entity: EntityView,
    wrapped: Option<EntityView>,
) -> TakenView {
    (m, entity, answered(me, m.from, wrapped))
}

/// What stream a message came as: where from, and under which id.
pub open spec fn origin_of(peer: Seq<char>, path: Seq<char>, m: MessageView) -> Seq<char> {
    "as2://"@ + peer + path + "?from="@ + m.from + "&message-id="@ + text::trim_angles(m.message_id)
}

/// A stream that arrived, and where from.
#[derive(Debug, PartialEq, Eq)]
pub struct Arrived {
    pub origin_uri: String,
    pub bytes: Vec<u8>,
}

/// An [`Arrived`] as a mathematical value.
pub struct ArrivedView {
    pub origin_uri: Seq<char>,
    pub bytes: Seq<u8>,
}

impl View for Arrived {
    type V = ArrivedView;

    open spec fn view(&self) -> ArrivedView {
        ArrivedView { origin_uri: self.origin_uri@, bytes: self.bytes@ }
    }
}

/// What a connection ends in: the answer to write, and what the caller hears.
#[derive(Debug, PartialEq, Eq)]
pub struct Settled {
    pub answer: Option<Response>,
    pub arrived: Result<Arrived, TransportError>,
}

/// A [`Settled`] as a mathematical value.
pub struct SettledView {
    pub answer: Option<ResponseView>,
    pub arrived: Result<ArrivedView, ErrorView>,
}

impl View for Settled {
    type V = SettledView;

    open spec fn view(&self) -> SettledView {
        SettledView {
            answer: match self.answer {
                Some(response) => Some(response@),
                None => None,
            },
            arrived: error::outcome(self.arrived),
        }
    }
}

/// The answer that tells a peer why it was refused.
pub open spec fn refusal_of(e: ErrorView) -> ResponseView {
    ResponseView {
        status: if e.retryable {
            503
        } else {
            400
        },
        headers: seq![],
        body: vstd::utf8::encode_utf8(e.message),
    }
}

/// What a request ends in once it was taken or refused.
pub open spec fn settled(
    peer: Seq<char>,
    path: Seq<char>,
    result: Result<TakenView, ErrorView>,
) -> SettledView {
    match result {
        Ok((m, entity, answer)) => SettledView {
            answer: Some(answer),
            arrived: Ok(ArrivedView { origin_uri: origin_of(peer, path, m), bytes: entity.body }),
        },
        Err(e) => SettledView { answer: Some(refusal_of(e)), arrived: Err(e) },
    }
}

/// What a connection ends in on which nothing was asked: a peer that sent
/// nothing is told so.
pub open spec fn settled_empty() -> SettledView {
    let e = error::refused("a partner that connected and sent nothing"@);
    SettledView { answer: Some(refusal_of(e)), arrived: Err(e) }
}

/// A message as it is sent: the MIC its receipt has to name, and the POST
/// that carries it.
#[derive(Debug, PartialEq, Eq)]
pub struct Outgoing {
    pub message: Message,
    pub mic: Vec<u8>,
    pub request: Request,
}

/// An [`Outgoing`] as a mathematical value.
pub struct OutgoingView {
    pub message: MessageView,
    pub mic: Seq<u8>,
    pub request: RequestView,
}

impl View for Outgoing {
    type V = OutgoingView;

    open spec fn view(&self) -> OutgoingView {
        OutgoingView { message: self.message@, mic: self.mic@, request: self.request@ }
    }
}

/// A payload as an entity, before anything is put around it.
pub open spec fn plain(bytes: Seq<u8>) -> EntityView {
    EntityView { content_type: "application/octet-stream"@, body: bytes }
}

/// A message as it is sent to `path` at `authority`.
pub open spec fn sent_as(m: MessageView, mic: Seq<u8>, authority: Seq<char>, path: Seq<char>) -> OutgoingView {
    OutgoingView { message: m, mic, request: message::posted(m, authority, path) }
}

/// Whether an answer is a success.
pub open spec fn is_success(status: u16) -> bool {
    200 <= status < 300
}

/// The error of an answer that is no success.
pub open spec fn status_error(status: u16, retryable: bool) -> ErrorView {
    ErrorView { message: "the partner answered "@ + text::decimal(status as nat), retryable }
}

/// The entity that an answer carries.
pub open spec fn answer_entity(response: ResponseView) -> EntityView {
    EntityView {
        content_type: match http::header_value(response.headers, "Content-Type"@) {
            Some(content_type) => content_type,
            None => seq![],
        },
        body: response.body,
    }
}

/// Whether a receipt is one for the message sent under `message_id` with that
/// MIC, or what is wrong with it.
pub open spec fn checked(receipt: MdnView, message_id: Seq<char>, mic: Seq<u8>) -> Result<(), ErrorView> {
    if receipt.original_message_id != message_id {
        Err(
            error::refused(
                "a receipt for "@ + receipt.original_message_id + ", not for "@ + message_id,
            ),
        )
    } else if !mdn::says_processed(receipt.disposition) {
        Err(
            error::refused("the partner did not process the message: "@ + receipt.disposition),
        )
    } else {
        match receipt.mic {
            Some((theirs, _)) => if theirs == mic {
                Ok(())
            } else {
                Err(error::refused("the partner's MIC is not the MIC of what was sent"@))
            },
            None => Err(error::refused("a receipt with no MIC in it"@)),
        }
    }
}

/// What the unwrapped entity of an answer says of the message sent under
/// `message_id` with that MIC.
pub open spec fn verified(entity: EntityView, message_id: Seq<char>, mic: Seq<u8>) -> Result<
    (),
    ErrorView,
> {
    match mdn::reported(entity) {
        Ok(receipt) => checked(receipt, message_id, mic),
        Err(e) => Err(e),
    }
}

impl As2Transport {
    /// Whether taking a request, the receipt delimited by `boundary`, may end
    /// in `result`, whatever the signer makes of the entity and of the
    /// receipt.
    pub open spec fn may_take(
        &self,
        request: RequestView,
        boundary: Seq<char>,
        result: Result<TakenView, ErrorView>,
    ) -> bool {
        match addressed_to(request, self@.me) {
            Err(e) => result == Err::<TakenView, ErrorView>(e),
            Ok(m) => exists|unwrapped: Result<EntityView, ErrorView>| #[trigger]
                self.may_unwrap(m.entity, unwrapped) && self.may_answer(
                    m,
                    unwrapped,
                    boundary,
                    result,
                ),
        }
    }

    /// Whether answering a message whose entity ended unwrapped so may end in
    /// `result`.
    pub open spec fn may_answer(
        &self,
        m: MessageView,
        unwrapped: Result<EntityView, ErrorView>,
        boundary: Seq<char>,
        result: Result<TakenView, ErrorView>,
    ) -> bool {
        match unwrapped {
            Err(e) => result == Err::<TakenView, ErrorView>(e),
            Ok(entity) => match owed_receipt(m, entity, self@.me) {
                Err(e) => result == Err::<TakenView, ErrorView>(e),
                Ok(None) => result == Ok::<TakenView, ErrorView>(taken(m, self@.me, entity, None)),
                Ok(Some(receipt)) => exists|wrapped: Result<EntityView, ErrorView>| #[trigger]
                    self.may_wrap(mdn::report(receipt, boundary), wrapped) && result == (
                    match wrapped {
                        Ok(w) => Ok::<TakenView, ErrorView>(taken(m, self@.me, entity, Some(w))),
                        Err(e) => Err::<TakenView, ErrorView>(e),
                    }),
            },
        }
    }

    /// Whether sealing `bytes` may end in `result`, their MIC and their entity
    /// wrapped, whatever the signer makes of the entity.
    pub open spec fn may_seal(
        &self,
        bytes: Seq<u8>,
        result: Result<(Seq<u8>, EntityView), ErrorView>,
    ) -> bool {
        match message::digested(self.digest_name(), bytes) {
            Err(e) => result == Err::<(Seq<u8>, EntityView), ErrorView>(e),
            Ok(mic) => exists|wrapped: Result<EntityView, ErrorView>| #[trigger]
                self.may_wrap(plain(bytes), wrapped) && result == (match wrapped {
                    Ok(w) => Ok::<(Seq<u8>, EntityView), ErrorView>((mic, w)),
                    Err(e) => Err::<(Seq<u8>, EntityView), ErrorView>(e),
                }),
        }
    }

    /// Whether preparing `bytes` as the `n`th message, for `path` at
    /// `authority`, may end in `result`, whatever the signer makes of the
    /// entity and the clock says.
    pub open spec fn may_prepare(
        &self,
        authority: Seq<char>,
        path: Seq<char>,
        bytes: Seq<u8>,
        n: u64,
        result: Result<OutgoingView, ErrorView>,
    ) -> bool {
        match message::digested(self.digest_name(), bytes) {
            Err(e) => result == Err::<OutgoingView, ErrorView>(e),
            Ok(mic) => exists|wrapped: Result<EntityView, ErrorView>| #[trigger]
                self.may_wrap(plain(bytes), wrapped) && match wrapped {
                    Err(e) => result == Err::<OutgoingView, ErrorView>(e),
                    Ok(w) => exists|nanos: u128|
                        result == Ok::<OutgoingView, ErrorView>(
                            sent_as(
                                self.composed(w, #[trigger] message::id_of(nanos, n)),
                                mic,
                                authority,
                                path,
                            ),
                        ),
                },
        }
    }

    /// The message from this partner to the other that carries `wrapped`
    /// under `message_id`.
    pub open spec fn composed(&self, wrapped: EntityView, message_id: Seq<char>) -> MessageView {
        message::composed(self@.me, self@.partner, self.digest_name(), wrapped, message_id)
    }

    /// Whether verifying the receipt in an answer may end in `result`,
    /// whatever the signer makes of the entity.
    pub open spec fn may_verify(
        &self,
        response: ResponseView,
        retryable: bool,
        message_id: Seq<char>,
        mic: Seq<u8>,
        result: Result<(), ErrorView>,
    ) -> bool {
        if !is_success(response.status) {
            result == Err::<(), ErrorView>(status_error(response.status, retryable))
        } else {
            exists|unwrapped: Result<EntityView, ErrorView>| #[trigger]
                self.may_unwrap(answer_entity(response), unwrapped) && result == (
                match unwrapped {
                    Ok(entity) => verified(entity, message_id, mic),
                    Err(e) => Err(e),
                })
        }
    }

    /// The message a request carries for this partner.
    ///
    /// # Errors
    /// Where the request is not an AS2 message, or it was addressed to some
    /// other partner.
    pub fn addressed(&self, request: &Request) -> (m: Result<Message, TransportError>)
        ensures
            error::outcome(m) == addressed_to(request@, self@.me),
    {
        let m = match Message::from_request(request) {
            Ok(m) => m,
            Err(e) => return Err(e),
        };
        if m.to != self.me {
            let mut reason = "a message for ".to_string();
            reason.append(&m.to);
            reason.append(", and this partner is ");
            reason.append(&self.me);
            return Err(protocol_error(reason));
        }
        Ok(m)
    }

    /// The receipt owed for a message whose entity unwraps to `entity`.
    ///
    /// # Errors
    /// Where the receipt is asked in a digest this crate does not compute.
    pub fn receipt_for(&self, m: &Message, entity: &Entity) -> (receipt: Result<
        Option<Mdn>,
        TransportError,
    >)
        ensures
            owed_receipt(m@, entity@, self@.me) == (match receipt {
                Ok(Some(mdn)) => Ok(Some(mdn@)),
                Ok(None) => Ok(None),
                Err(e) => Err(e@),
            }),
    {
        if !m.wants_receipt() {
            return Ok(None);
        }
        let micalg = match &m.micalg {
            Some(micalg) => micalg.clone(),
            None => "sha-256".to_string(),
        };
        match mic(&micalg, &entity.body) {
            Ok(digest) => Ok(Some(Mdn::processed(&m.message_id, &self.me, digest, &micalg))),
            Err(e) => Err(e),
        }
    }

    /// The answer to a message, carrying its receipt where there is one.
    #[must_use]
    pub fn answer(&self, m: &Message, wrapped: Option<&Entity>) -> (response: Response)
        ensures
            response@ == answered(
                self@.me,
                m@.from,
                match wrapped {
                    Some(entity) => Some(entity@),
                    None => None,
                },
            ),
    {
        match wrapped {
            Some(entity) => {
                let response = Response::new(200)
                    .header("AS2-Version", VERSION)
                    .header("AS2-From", &self.me)
                    .header("AS2-To", &m.from)
                    .header("Content-Type", &entity.content_type)
                    .body(&entity.body);
                assert(response@.headers =~= answered(
                    self@.me,
                    m@.from,
                    Some(entity@),
                ).headers);
                response
            },
            None => Response::new(200),
        }
    }

    /// The message a request carries, its entity unwrapped, and the answer
    /// it earns, its receipt delimited by `boundary`.
    ///
    /// # Errors
    /// Where the request carries no message for this partner, the signer
    /// refuses it, or its receipt is asked in a digest this crate does not
    /// compute.
    pub fn take(&self, request: &Request, boundary: &str) -> (result: Result<
        (Message, Entity, Response),
        TransportError,
    >)
        ensures
            self.may_take(request@, boundary@, error::outcome(result)),
    {
        let m = match self.addressed(request) {
            Ok(m) => m,
            Err(e) => return Err(e),
        };
        let unwrapped = self.signer.unwrap(m.entity.clone());
        assert(self.may_unwrap(m@.entity, error::outcome(unwrapped)));
        let entity = match unwrapped {
            Ok(entity) => entity,
            Err(e) => return Err(e),
        };
        let answer = match self.receipt_for(&m, &entity) {
            Ok(Some(receipt)) => {
                let wrapped = self.signer.wrap(receipt.entity(boundary));
                assert(self.may_wrap(mdn::report(receipt@, boundary@), error::outcome(wrapped)));
                match wrapped {
                    Ok(w) => self.answer(&m, Some(&w)),
                    Err(e) => return Err(e),
                }
            },
            Ok(None) => self.answer(&m, None),
            Err(e) => return Err(e),
        };
        Ok((m, entity, answer))
    }

    /// What a connection from `peer` ends in, once `read` says what was read
    /// off it: the answer to write and what the caller hears. Whatever is
    /// refused, a request, a connection that broke or one on which nothing
    /// was sent, is answered with the status that says so.
    #[must_use]
    pub fn respond(
        &self,
        peer: &str,
        read: Result<Option<&Request>, TransportError>,
        boundary: &str,
    ) -> (settling: Settled)
        ensures
            match read {
                Ok(Some(asked)) => exists|result: Result<TakenView, ErrorView>| #[trigger]
                    self.may_take(asked@, boundary@, result) && settling@ == settled(
                        peer@,
                        asked@.path,
                        result,
                    ),
                Ok(None) => settling@ == settled_empty(),
                Err(e) => settling@ == settled(peer@, seq![], Err(e@)),
            },
            settling@.arrived matches Err(e) ==> settling@.answer == Some(refusal_of(e)),
    {
        match read {
            Ok(Some(asked)) => settle(peer, &asked.path, self.take(asked, boundary)),
            Ok(None) => {
                let e = protocol_error("a partner that connected and sent nothing".to_string());
                settle(peer, "", Err(e))
            },
            Err(e) => settle(peer, "", Err(e)),
        }
    }

    /// Where a target names the partner's endpoint itself, or is empty and
    /// means the one configured.
    #[must_use]
    pub fn resolve(&self, target: &str) -> (url: String)
        ensures
            url@ == (if target@.len() == 0 {
                self@.endpoint
            } else {
                wire_url(target@)
            }),
    {
        if target.is_empty() {
            self.endpoint.clone()
        } else {
            as_http(target)
        }
    }

    /// `bytes` as the next message to the other partner, for `path` at
    /// `authority`. The number is drawn only where the message is made.
    ///
    /// # Errors
    /// Where the signer names a digest this crate does not compute, or cannot
    /// sign.
    pub fn prepare(
        &self,
        authority: &str,
        path: &str,
        bytes: &[u8],
        numbers: &mut Numbers,
    ) -> (result: Result<Outgoing, TransportError>)
        ensures
            self.may_prepare(authority@, path@, bytes@, old(numbers)@, error::outcome(result)),
            match result {
                Ok(out) => message::may_draw(old(numbers)@, out@.message.message_id, final(numbers)@),
                Err(_) => final(numbers)@ == old(numbers)@,
            },
    {
        let sealed = self.seal(bytes);
        match sealed {
            Ok((digest, wrapped)) => {
                assert(self.may_wrap(plain(bytes@), Ok(wrapped@)));
                Ok(self.next_outgoing(authority, path, digest, wrapped, numbers))
            },
            Err(e) => Err(e),
        }
    }

    /// The MIC of `bytes` and their entity wrapped for the wire: what of a
    /// message takes the signer, and no number.
    ///
    /// # Errors
    /// Where the signer names a digest this crate does not compute, or cannot
    /// sign.
    pub fn seal(&self, bytes: &[u8]) -> (result: Result<(Vec<u8>, Entity), TransportError>)
        ensures
            self.may_seal(bytes@, error::outcome(result)),
    {
        let entity = Entity::new("application/octet-stream", vstd::slice::slice_to_vec(bytes));
        let digest = match mic(self.signer.micalg(), &entity.body) {
            Ok(digest) => digest,
            Err(e) => return Err(e),
        };
        let wrapped = self.signer.wrap(entity);
        assert(self.may_wrap(plain(bytes@), error::outcome(wrapped)));
        match wrapped {
            Ok(w) => Ok((digest, w)),
            Err(e) => Err(e),
        }
    }

    /// The next message, which carries `wrapped`, for `path` at `authority`,
    /// and the MIC its receipt has to name.
    #[must_use]
    pub fn next_outgoing(
        &self,
        authority: &str,
        path: &str,
        mic: Vec<u8>,
        wrapped: Entity,
        numbers: &mut Numbers,
    ) -> (out: Outgoing)
        ensures
            exists|nanos: u128|
                out@ == sent_as(
                    self.composed(wrapped@, #[trigger] message::id_of(nanos, old(numbers)@)),
                    mic@,
                    authority@,
                    path@,
                ),
            message::may_draw(old(numbers)@, out@.message.message_id, final(numbers)@),
    {
        let message_id = next_message_id(numbers);
        self.outgoing(authority, path, mic, wrapped, message_id)
    }

    /// The message under `message_id` that carries `wrapped`, for `path` at
    /// `authority`, and the MIC its receipt has to name.
    #[must_use]
    pub fn outgoing(
        &self,
        authority: &str,
        path: &str,
        mic: Vec<u8>,
        wrapped: Entity,
        message_id: String,
    ) -> (out: Outgoing)
        ensures
            out@ == sent_as(self.composed(wrapped@, message_id@), mic@, authority@, path@),
    {
        let m = Message::identified(
            &self.me,
            &self.partner,
            self.signer.micalg(),
            wrapped,
            message_id,
        );
        let request = m.request(authority, path);
        Outgoing { message: m, mic, request }
    }

    /// The receipt the partner answered, checked against what was sent.
    /// `retryable` says whether the status of an answer that is no success
    /// is one after which trying again may help.
    ///
    /// # Errors
    /// Where the answer is no success, the signer refuses it, it holds no
    /// receipt, or the receipt is not one for `sent` processed with that MIC.
    pub fn verify_receipt(&self, response: &Response, retryable: bool, sent: &Message, mic: &[u8]) -> (result:
        Result<(), TransportError>)
        ensures
            self.may_verify(
                response@,
                retryable,
                sent@.message_id,
                mic@,
                error::outcome(result),
            ),
    {
        if !(200 <= response.status && response.status < 300) {
            let mut reason = "the partner answered ".to_string();
            push_decimal(&mut reason, response.status as u128);
            return Err(TransportError { message: reason, retryable });
        }
        let content_type = match response.header_value("Content-Type") {
            Some(content_type) => content_type.to_string(),
            None => String::new(),
        };
        let entity = Entity::new(&content_type, response.body.clone());
        let unwrapped = self.signer.unwrap(entity);
        assert(self.may_unwrap(answer_entity(response@), error::outcome(unwrapped)));
        match unwrapped {
            Ok(entity) => verify_entity(&entity, sent, mic),
            Err(e) => Err(e),
        }
    }
}

/// The answer that tells a peer why it was refused.
fn refusal(e: &TransportError) -> (response: Response)
    ensures
        response@ == refusal_of(e@),
{
    let status: u16 = if e.retryable {
        503
    } else {
        400
    };
    Response::new(status).body(e.message.as_str().as_bytes())
}

/// What stream a message came as: where from, and under which id.
#[must_use]
pub fn origin(peer: &str, path: &str, m: &Message) -> (uri: String)
    ensures
        uri@ == origin_of(peer@, path@, m@),
{
    let mut uri = "as2://".to_string();
    uri.append(peer);
    uri.append(path);
    uri.append("?from=");
    uri.append(&m.from);
    uri.append("&message-id=");
    uri.append(&text_of(without_angles(&chars_of(&m.message_id))));
    uri
}

/// What a request ends in once it was taken or refused.
#[must_use]
pub fn settle(peer: &str, path: &str, result: Result<(Message, Entity, Response), TransportError>) -> (settling:
    Settled)
    ensures
        settling@ == settled(peer@, path@, error::outcome(result)),
{
    match result {
        Ok((m, entity, answer)) => Settled {
            answer: Some(answer),
            arrived: Ok(Arrived { origin_uri: origin(peer, path, &m), bytes: entity.body }),
        },
        Err(e) => Settled { answer: Some(refusal(&e)), arrived: Err(e) },
    }
}

/// What the unwrapped entity of an answer says of the message that was sent.
///
/// # Errors
/// Where the entity holds no receipt, or not one for `sent` processed with
/// that MIC.
pub fn verify_entity(entity: &Entity, sent: &Message, mic: &[u8]) -> (result: Result<
    (),
    TransportError,
>)
    ensures
        error::outcome(result) == verified(entity@, sent@.message_id, mic@),
{
    match Mdn::from_entity(entity) {
        Ok(receipt) => check_receipt(&receipt, sent, mic),
        Err(e) => Err(e),
    }
}

/// Whether a receipt is one for `sent` processed with that MIC.
///
/// # Errors
/// Where it answers another message, does not say processed, or names
/// another MIC or none.
pub fn check_receipt(receipt: &Mdn, sent: &Message, mic: &[u8]) -> (result: Result<
    (),
    TransportError,
>)
    ensures
        error::outcome(result) == checked(receipt@, sent@.message_id, mic@),
{
    if receipt.original_message_id != sent.message_id {
        let mut reason = "a receipt for ".to_string();
        reason.append(&receipt.original_message_id);
        reason.append(", not for ");
        reason.append(&sent.message_id);
        return Err(protocol_error(reason));
    }
    if !receipt.is_processed() {
        let mut reason = "the partner did not process the message: ".to_string();
        reason.append(&receipt.disposition);
        return Err(protocol_error(reason));
    }
    match &receipt.mic {
        Some((theirs, _)) => if same_bytes(theirs, mic) {
            Ok(())
        } else {
            Err(
                protocol_error("the partner's MIC is not the MIC of what was sent".to_string()),
            )
        },
        None => Err(protocol_error("a receipt with no MIC in it".to_string())),
    }
}

/// The scheme alone changes on the wire: `as2` to `http`, `as2s` to `https`.
/// Any other URL stays as it is.
pub proof fn law_scheme_alone_changes(rest: Seq<char>, url: Seq<char>)
    ensures
        wire_url("as2://"@ + rest) == "http://"@ + rest,
        wire_url("as2s://"@ + rest) == "https://"@ + rest,
        !"as2://"@.is_prefix_of(url) && !"as2s://"@.is_prefix_of(url) ==> wire_url(url) == url,
{
    reveal_strlit("as2://");
    reveal_strlit("as2s://");
    let (one, two) = ("as2://"@ + rest, "as2s://"@ + rest);
    assert("as2://"@ =~= one.subrange(0, 6));
    assert(one.skip(6) =~= rest);
    assert("as2s://"@ =~= two.subrange(0, 7));
    assert(two.skip(7) =~= rest);
    assert(two[3] == 's' && "as2://"@[3] == ':');
    if "as2://"@.is_prefix_of(two) {
        assert(two[3] == "as2://"@[3]);
    }
}

/// A message is for the partner whose name is exactly the one it was sent to;
/// any other is refused for good, and told both names.
pub proof fn law_message_is_for_one_partner(request: RequestView, me: Seq<char>, m: MessageView)
    ensures
        addressed_to(request, me) == Ok::<MessageView, ErrorView>(m) <==> message::received(request)
            == Ok::<MessageView, ErrorView>(m) && m.to == me,
        message::received(request) == Ok::<MessageView, ErrorView>(m) && m.to != me ==> (
        addressed_to(request, me) matches Err(e) && !e.retryable && e.message == "a message for "@
            + m.to + ", and this partner is "@ + me),
        message::received(request) matches Err(e) ==> addressed_to(request, me) == Err::<
            MessageView,
            ErrorView,
        >(e),
{
}

/// A receipt is owed if and only if the message says where to send it. It is
/// for that message, from the partner that received it, and its MIC is the
/// SHA-256 digest of what the entity holds, under the name that the message
/// asked for, or `sha-256` where it asked for none. A message that asks for
/// another digest is refused for good.
pub proof fn law_receipt_is_owed(m: MessageView, entity: EntityView, me: Seq<char>)
    ensures
        ({
            let micalg: Seq<char> = match m.micalg {
                Some(asked) => asked,
                None => "sha-256"@,
            };
            let spoken = seq!["sha-256"@, "sha256"@].contains(text::lower(micalg));
            &&& owed_receipt(m, entity, me) == Ok::<Option<MdnView>, ErrorView>(None)
                <==> m.notification_to is None
            &&& owed_receipt(m, entity, me) is Err <==> m.notification_to is Some && !spoken
            &&& owed_receipt(m, entity, me) matches Ok(Some(receipt)) ==> {
                &&& receipt.original_message_id == m.message_id
                &&& receipt.recipient == me
                &&& mdn::says_processed(receipt.disposition)
                &&& receipt.mic == Some((message::sha256_digest(entity.body), micalg))
            }
            &&& owed_receipt(m, entity, me) matches Err(e) ==> !e.retryable && e.message
                == "a receipt digest this transport does not compute: "@ + text::lower(micalg)
        }),
{
    message::law_only_sha_256_is_spoken(receipt_micalg(m), entity.body);
    mdn::law_receipt_is_processed(
        m.message_id,
        me,
        message::sha256_digest(entity.body),
        receipt_micalg(m),
    );
}

/// An answer is a success. With a receipt it carries the receipt's entity
/// whole, from the partner that received the message to the one that sent it;
/// without, it carries nothing.
pub proof fn law_answer_carries_the_receipt(
    me: Seq<char>,
    from: Seq<char>,
    wrapped: EntityView,
    name: Seq<char>,
)
    ensures
        ({
            let answer = answered(me, from, Some(wrapped));
            &&& answer.status == 200
            &&& answer.body == wrapped.body
            &&& answer.headers.len() == 4
            &&& http::header_value(answer.headers, "AS2-Version"@) == Some("1.2"@)
            &&& http::header_value(answer.headers, "AS2-From"@) == Some(me)
            &&& http::header_value(answer.headers, "AS2-To"@) == Some(from)
            &&& http::header_value(answer.headers, "Content-Type"@) == Some(wrapped.content_type)
            &&& answer_entity(answer) == wrapped
        }),
        answered(me, from, None).status == 200,
        answered(me, from, None).body.len() == 0,
        http::header_value(answered(me, from, None).headers, name) is None,
{
    reveal_strlit("AS2-Version");
    reveal_strlit("AS2-From");
    reveal_strlit("AS2-To");
    reveal_strlit("Content-Type");
    let headers = answered(me, from, Some(wrapped)).headers;
    http::lemma_header_at(headers, "AS2-Version"@, 0);
    http::lemma_header_at(headers, "AS2-From"@, 1);
    http::lemma_header_at(headers, "AS2-To"@, 2);
    http::lemma_header_at(headers, "Content-Type"@, 3);
}

/// The entity of an answer is its first `Content-Type`, or none, and its whole
/// body.
pub proof fn law_answer_is_read(response: ResponseView)
    ensures
        answer_entity(response).body == response.body,
        http::header_value(response.headers, "Content-Type"@) matches Some(content_type)
            ==> answer_entity(response).content_type == content_type,
        http::header_value(response.headers, "Content-Type"@) is None ==> answer_entity(
            response,
        ).content_type.len() == 0,
{
}

/// The origin of a stream is a URI of the peer and the path, with the sender's
/// name and the message's id without the brackets around it.
pub proof fn law_origin_names_sender_and_id(
    peer: Seq<char>,
    path: Seq<char>,
    m: MessageView,
    before: Seq<char>,
    id: Seq<char>,
    after: Seq<char>,
)
    requires
        forall|j: int| 0 <= j < before.len() ==> #[trigger] before[j] == '<' || before[j] == '>',
        forall|j: int| 0 <= j < after.len() ==> #[trigger] after[j] == '<' || after[j] == '>',
        id.len() > 0 ==> id[0] != '<' && id[0] != '>' && id.last() != '<' && id.last() != '>',
        m.message_id == before + id + after,
    ensures
        origin_of(peer, path, m) == "as2://"@ + peer + path + "?from="@ + m.from + "&message-id="@
            + id,
{
    lemmas::law_angles_leave_the_core(before, id, after);
}

/// What was taken arrives whole: the bytes are every byte of the unwrapped
/// entity, whatever its media type, and the answer is the one that was made.
/// What was refused does not arrive, and the error is the one it was refused
/// with.
pub proof fn law_what_was_taken_arrives_whole(
    peer: Seq<char>,
    path: Seq<char>,
    took: TakenView,
    e: ErrorView,
)
    ensures
        settled(peer, path, Ok(took)).answer == Some(took.2),
        settled(peer, path, Ok(took)).arrived matches Ok(arrived) && arrived.bytes == took.1.body
            && arrived.origin_uri == origin_of(peer, path, took.0),
        settled(peer, path, Err(e)).arrived == Err::<ArrivedView, ErrorView>(e),
        settled(peer, path, Err(e)).answer matches Some(answer) && answer.status == (
        if e.retryable {
            503u16
        } else {
            400u16
        }) && answer.headers.len() == 0 && multipart::text_from(answer.body) == e.message,
        settled_empty().arrived matches Err(none) && !none.retryable && none.message
            == "a partner that connected and sent nothing"@,
        settled_empty().answer matches Some(answer) && answer.status == 400 && multipart::text_from(
            answer.body,
        ) == "a partner that connected and sent nothing"@,
{
    multipart::law_text_comes_back(e.message);
    multipart::law_text_comes_back("a partner that connected and sent nothing"@);
}

/// A payload goes out as it is, as plain bytes.
pub proof fn law_payload_goes_out_whole(bytes: Seq<u8>)
    ensures
        plain(bytes).body == bytes,
        plain(bytes).content_type == "application/octet-stream"@,
{
}

/// The statuses of success are the hundred from 200 on. Any other is an error
/// that says the status in its digits, worth another try exactly where that
/// was said of it.
pub proof fn law_status_is_told(status: u16, retryable: bool, digits: Seq<char>)
    ensures
        is_success(status) <==> status / 100 == 2,
        status_error(status, retryable).retryable == retryable,
        lemmas::number(text::decimal(status as nat)) == status,
        status_error(status, retryable).message == "the partner answered "@ + digits
            <==> digits == text::decimal(status as nat),
{
    lemmas::law_digits_stand_for_the_number(status as nat);
    let before = "the partner answered "@;
    let own = text::decimal(status as nat);
    if before + own == before + digits {
        assert((before + own).skip(before.len() as int) =~= own);
        assert((before + digits).skip(before.len() as int) =~= digits);
    }
}

/// A receipt proves delivery if and only if it is for the message sent, says
/// that it was processed, and holds the MIC of what was sent. What is wrong
/// first is what is told: another message, another outcome, no MIC, another
/// MIC; and none of it is worth another try.
pub proof fn law_receipt_is_checked(receipt: MdnView, message_id: Seq<char>, mic: Seq<u8>)
    ensures
        checked(receipt, message_id, mic) is Ok <==> receipt.original_message_id == message_id
            && mdn::says_processed(receipt.disposition) && (receipt.mic matches Some(named)
            && named.0 == mic),
        checked(receipt, message_id, mic) matches Err(e) ==> !e.retryable && e.message == (
        if receipt.original_message_id != message_id {
            "a receipt for "@ + receipt.original_message_id + ", not for "@ + message_id
        } else if !mdn::says_processed(receipt.disposition) {
            "the partner did not process the message: "@ + receipt.disposition
        } else if receipt.mic is None {
            "a receipt with no MIC in it"@
        } else {
            "the partner's MIC is not the MIC of what was sent"@
        }),
{
}

/// An entity proves delivery where what it reports does, and an entity that
/// reports nothing says why.
pub proof fn law_report_is_checked(entity: EntityView, message_id: Seq<char>, mic: Seq<u8>)
    ensures
        mdn::reported(entity) matches Ok(receipt) ==> verified(entity, message_id, mic) == checked(
            receipt,
            message_id,
            mic,
        ),
        mdn::reported(entity) matches Err(e) ==> verified(entity, message_id, mic) == Err::<
            (),
            ErrorView,
        >(e),
{
}

} // verus!
