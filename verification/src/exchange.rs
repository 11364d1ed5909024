//! What the two ends of an exchange owe each other.
use vstd::prelude::*;

use crate::error::ErrorView;
use crate::http::{RequestView, ResponseView};
use crate::mdn::MdnView;
use crate::message::MessageView;
use crate::signer::EntityView;
use crate::transport::{As2Transport, OutgoingView, TakenView};
use crate::{error, http, lemmas, mdn, message, text, transport};

verus! {

impl As2Transport {
    /// Whether this partner's signer takes off what the other's puts on.
    pub open spec fn reads(&self, other: &As2Transport) -> bool {
        forall|
            entity: EntityView,
            wrapped: EntityView,
            unwrapped: Result<EntityView, ErrorView>,
        |
            #[trigger] other.may_wrap(entity, Ok(wrapped)) && #[trigger] self.may_unwrap(
                wrapped,
                unwrapped,
            ) ==> unwrapped == Ok::<EntityView, ErrorView>(entity)
    }

    /// Whether this partner can send to the other: each has a name, the
    /// other's is the one this partner sends to and is on one line, and each
    /// reads what the other signs.
    pub open spec fn reaches(&self, other: &As2Transport) -> bool {
        &&& self@.me.len() > 0
        &&& self@.partner.len() > 0
        &&& self@.partner == other@.me
        &&& !other@.me.contains('\n')
        &&& self.reads(other)
        &&& other.reads(self)
    }

    /// Whether a message taken is the one sent, whole, and its answer is one
    /// that the sender can only verify.
    pub open spec fn delivers(&self, out: OutgoingView, bytes: Seq<u8>, took: TakenView) -> bool {
        &&& took.0 == out.message.as_read()
        &&& took.1 == transport::plain(bytes)
        &&& forall|retryable: bool, verdict: Result<(), ErrorView>| #[trigger]
            self.may_verify(took.2, retryable, out.message.message_id, out.mic, verdict)
                ==> verdict == Ok::<(), ErrorView>(())
    }
}

/// Partners that send nothing but as it is read each other.
proof fn lemma_unsigned_reads(one: &As2Transport, other: &As2Transport)
    requires
        one.is_unsigned(),
        other.is_unsigned(),
    ensures
        one.reads(other),
{
}

/// A digest that is computed has a name that a header carries.
proof fn lemma_digest_name(micalg: Seq<char>, body: Seq<u8>)
    requires
        message::digested(micalg, body) is Ok,
    ensures
        !micalg.contains(';'),
        !micalg.contains(','),
        !micalg.contains('\n'),
        text::trim(micalg) == micalg,
        message::digested(text::lower(micalg), body) == message::digested(micalg, body),
{
    reveal_strlit("sha-256");
    reveal_strlit("sha256");
    let name = text::lower(micalg);
    assert(text::lower(name) =~= name);
    assert forall|i: int| 0 <= i < micalg.len() implies #[trigger] micalg[i] != ';' && micalg[i]
        != ',' && micalg[i] != '\n' && !text::is_space(micalg[i]) by {
        assert(name[i] == text::lower_char(micalg[i]));
    }
    lemmas::lemma_trimmed(micalg);
}

/// The entity of an answer is the one that was put in it.
proof fn lemma_answer_entity(me: Seq<char>, from: Seq<char>, wrapped: EntityView)
    ensures
        transport::answer_entity(transport::answered(me, from, Some(wrapped))) == wrapped,
{
    reveal_strlit("AS2-Version");
    reveal_strlit("AS2-From");
    reveal_strlit("AS2-To");
    reveal_strlit("Content-Type");
    http::lemma_header_at(
        transport::answered(me, from, Some(wrapped)).headers,
        "Content-Type"@,
        3,
    );
}

/// A receipt that a partner writes for a message verifies as its receipt.
proof fn lemma_receipt_verifies(
    message_id: Seq<char>,
    recipient: Seq<char>,
    digest: Seq<u8>,
    micalg: Seq<char>,
    boundary: Seq<char>,
)
    requires
        mdn::is_report_boundary(boundary),
        text::trim(message_id) == message_id,
        !message_id.contains('\n'),
        !recipient.contains('\n'),
        !micalg.contains('\n'),
    ensures
        transport::verified(
            mdn::report(mdn::receipt(message_id, recipient, digest, micalg), boundary),
            message_id,
            digest,
        ) == Ok::<(), ErrorView>(()),
{
    let receipt = mdn::receipt(message_id, recipient, digest, micalg);
    reveal_strlit("automatic-action/MDN-sent-automatically; processed");
    lemmas::lemma_trimmed(receipt.disposition);
    mdn::law_receipt_reads_back(receipt, boundary);
    mdn::law_receipt_is_processed(message_id, recipient, digest, micalg);
}

/// What one partner sends, the other takes whole, and the answer it gives is
/// one that the sender can only verify: the receipt is read back, says
/// processed, and names the MIC of what was sent. The other refuses the
/// message only where its signer does not sign the receipt.
pub proof fn law_message_is_delivered(
    sender: &As2Transport,
    receiver: &As2Transport,
    authority: Seq<char>,
    path: Seq<char>,
    bytes: Seq<u8>,
    n: u64,
    boundary: Seq<char>,
    out: OutgoingView,
    result: Result<TakenView, ErrorView>,
)
    requires
        sender.reaches(receiver),
        mdn::is_report_boundary(boundary),
        sender.may_prepare(authority, path, bytes, n, Ok(out)),
        receiver.may_take(out.request, boundary, result),
    ensures
        match result {
            Ok(took) => sender.delivers(out, bytes, took),
            Err(e) => exists|receipt: MdnView| #[trigger]
                receiver.may_wrap(mdn::report(receipt, boundary), Err(e)),
        },
{
    let digest = message::digested(sender.digest_name(), bytes)->Ok_0;
    lemma_digest_name(sender.digest_name(), bytes);
    let wrapped = choose|wrapped: Result<EntityView, ErrorView>| #[trigger]
        sender.may_wrap(transport::plain(bytes), wrapped) && match wrapped {
            Err(e) => Ok::<OutgoingView, ErrorView>(out) == Err::<OutgoingView, ErrorView>(e),
            Ok(w) => exists|nanos: u128|
                Ok::<OutgoingView, ErrorView>(out) == Ok::<OutgoingView, ErrorView>(
                    transport::sent_as(
                        sender.composed(w, #[trigger] message::id_of(nanos, n)),
                        digest,
                        authority,
                        path,
                    ),
                ),
        };
    let w = wrapped->Ok_0;
    let nanos = choose|nanos: u128|
        out == transport::sent_as(
            sender.composed(w, #[trigger] message::id_of(nanos, n)),
            digest,
            authority,
            path,
        );
    let sent = out.message;
    assert(sent == sender.composed(w, message::id_of(nanos, n)));
    message::law_message_id_fits(nanos, n);
    message::law_message_reads_back(sent, authority, path);
    let m = sent.as_read();
    assert(transport::addressed_to(out.request, receiver@.me) == Ok::<MessageView, ErrorView>(m));
    let unwrapped = choose|unwrapped: Result<EntityView, ErrorView>| #[trigger]
        receiver.may_unwrap(m.entity, unwrapped) && receiver.may_answer(
            m,
            unwrapped,
            boundary,
            result,
        );
    assert(sender.may_wrap(transport::plain(bytes), Ok(w)));
    assert(unwrapped == Ok::<EntityView, ErrorView>(transport::plain(bytes)));
    let micalg = text::lower(sender.digest_name());
    assert(transport::receipt_micalg(m) == micalg);
    let receipt = mdn::receipt(m.message_id, receiver@.me, digest, micalg);
    assert(transport::owed_receipt(m, transport::plain(bytes), receiver@.me) == Ok::<
        Option<MdnView>,
        ErrorView,
    >(Some(receipt)));
    let report = mdn::report(receipt, boundary);
    let signed = choose|signed: Result<EntityView, ErrorView>| #[trigger]
        receiver.may_wrap(report, signed) && result == (match signed {
            Ok(s) => Ok::<TakenView, ErrorView>(
                transport::taken(m, receiver@.me, transport::plain(bytes), Some(s)),
            ),
            Err(e) => Err::<TakenView, ErrorView>(e),
        });
    if let Ok(s) = signed {
        assert(receiver.may_wrap(report, Ok(s)));
        lemma_answer_entity(receiver@.me, m.from, s);
        lemmas::lemma_clean(sender.digest_name(), '\n');
        lemma_receipt_verifies(m.message_id, receiver@.me, digest, micalg, boundary);
        let answer = transport::answered(receiver@.me, m.from, Some(s));
        assert forall|retryable: bool, verdict: Result<(), ErrorView>| #[trigger]
            sender.may_verify(
                answer,
                retryable,
                sent.message_id,
                out.mic,
                verdict,
            ) implies verdict == Ok::<(), ErrorView>(()) by {
            let read = choose|read: Result<EntityView, ErrorView>| #[trigger]
                sender.may_unwrap(transport::answer_entity(answer), read) && verdict == (
                match read {
                    Ok(entity) => transport::verified(entity, sent.message_id, out.mic),
                    Err(e) => Err(e),
                });
            assert(read == Ok::<EntityView, ErrorView>(report));
        }
    } else {
        assert(receiver.may_wrap(mdn::report(receipt, boundary), Err(result->Err_0)));
    }
}

/// Between partners that sign nothing every message is delivered: whatever
/// the bytes, it is sent, it is taken whole, and its receipt verifies.
pub proof fn law_unsigned_exchange(
    sender: &As2Transport,
    receiver: &As2Transport,
    authority: Seq<char>,
    path: Seq<char>,
    bytes: Seq<u8>,
    n: u64,
    boundary: Seq<char>,
    prepared: Result<OutgoingView, ErrorView>,
)
    requires
        sender.is_unsigned(),
        receiver.is_unsigned(),
        sender@.me.len() > 0,
        sender@.partner.len() > 0,
        sender@.partner == receiver@.me,
        !receiver@.me.contains('\n'),
        mdn::is_report_boundary(boundary),
        sender.may_prepare(authority, path, bytes, n, prepared),
    ensures
        prepared matches Ok(out) && out.mic == message::sha256_digest(bytes) && forall|
            result: Result<TakenView, ErrorView>,
        | #[trigger]
            receiver.may_take(out.request, boundary, result) ==> (result matches Ok(took)
                && sender.delivers(out, bytes, took)),
{
    reveal_strlit("sha-256");
    assert(text::lower("sha-256"@) =~= "sha-256"@);
    lemma_unsigned_reads(sender, receiver);
    lemma_unsigned_reads(receiver, sender);
    let out = prepared->Ok_0;
    assert forall|result: Result<TakenView, ErrorView>| #[trigger]
        receiver.may_take(out.request, boundary, result) implies (result matches Ok(took)
        && sender.delivers(out, bytes, took)) by {
        law_message_is_delivered(
            sender,
            receiver,
            authority,
            path,
            bytes,
            n,
            boundary,
            out,
            result,
        );
    }
}

/// Messages of different numbers carry different ids, whoever sends them and
/// whatever the clock says.
pub proof fn law_messages_are_told_apart(
    sender: &As2Transport,
    other: &As2Transport,
    authority: Seq<char>,
    path: Seq<char>,
    bytes: Seq<u8>,
    n: u64,
    out: OutgoingView,
    other_authority: Seq<char>,
    other_path: Seq<char>,
    other_bytes: Seq<u8>,
    other_n: u64,
    other_out: OutgoingView,
)
    requires
        sender.may_prepare(authority, path, bytes, n, Ok(out)),
        other.may_prepare(other_authority, other_path, other_bytes, other_n, Ok(other_out)),
        n != other_n,
    ensures
        out.message.message_id != other_out.message.message_id,
{
    assert(exists|nanos: u128| out.message.message_id == #[trigger] message::id_of(nanos, n));
    assert(exists|nanos: u128|
        other_out.message.message_id == #[trigger] message::id_of(nanos, other_n));
    let nanos = choose|nanos: u128| out.message.message_id == #[trigger] message::id_of(nanos, n);
    let other_nanos = choose|nanos: u128|
        other_out.message.message_id == #[trigger] message::id_of(nanos, other_n);
    message::law_message_ids_differ(nanos, n, other_nanos, other_n);
}

/// A message for another partner is refused, and trying again will not help.
pub proof fn law_other_partners_message_is_refused(
    sender: &As2Transport,
    receiver: &As2Transport,
    authority: Seq<char>,
    path: Seq<char>,
    bytes: Seq<u8>,
    n: u64,
    boundary: Seq<char>,
    out: OutgoingView,
    result: Result<TakenView, ErrorView>,
)
    requires
        sender@.me.len() > 0,
        sender@.partner.len() > 0,
        sender@.partner != receiver@.me,
        sender.may_prepare(authority, path, bytes, n, Ok(out)),
        receiver.may_take(out.request, boundary, result),
    ensures
        result == Err::<TakenView, ErrorView>(
            error::refused(
                "a message for "@ + sender@.partner + ", and this partner is "@ + receiver@.me,
            ),
        ),
{
    lemma_digest_name(sender.digest_name(), bytes);
    assert(exists|wrapped: EntityView, nanos: u128|
        out.message == sender.composed(wrapped, #[trigger] message::id_of(nanos, n)) && #[trigger]
            sender.may_wrap(transport::plain(bytes), Ok(wrapped)) && out.request
            == message::posted(out.message, authority, path));
    let (wrapped, nanos) = choose|wrapped: EntityView, nanos: u128|
        out.message == sender.composed(wrapped, #[trigger] message::id_of(nanos, n)) && #[trigger]
            sender.may_wrap(transport::plain(bytes), Ok(wrapped)) && out.request
            == message::posted(out.message, authority, path);
    message::law_message_id_fits(nanos, n);
    message::law_message_reads_back(out.message, authority, path);
}

/// A request that is refused is answered with the status that says so, 503
/// where trying again may help and 400 where not, and with the reason; and a
/// sender hears that status.
pub proof fn law_refusal_is_heard(
    sender: &As2Transport,
    peer: Seq<char>,
    path: Seq<char>,
    e: ErrorView,
    retryable: bool,
    message_id: Seq<char>,
    mic: Seq<u8>,
    verdict: Result<(), ErrorView>,
)
    ensures
        ({
            let answer = transport::refusal_of(e);
            let status: u16 = if e.retryable {
                503
            } else {
                400
            };
            &&& transport::settled(peer, path, Err(e)).answer == Some(answer)
            &&& transport::settled(peer, path, Err(e)).arrived is Err
            &&& answer.status == status
            &&& answer.body == vstd::utf8::encode_utf8(e.message)
            &&& sender.may_verify(answer, retryable, message_id, mic, verdict) <==> verdict == Err::<
                (),
                ErrorView,
            >(transport::status_error(status, retryable))
        }),
{
}

/// A send counts only where the partner answered with a success that carries
/// a receipt, the receipt is one for the message sent and says processed, and
/// the MIC in it is the MIC of what was sent.
pub proof fn law_send_counts_only_with_its_receipt(
    sender: &As2Transport,
    response: ResponseView,
    retryable: bool,
    message_id: Seq<char>,
    mic: Seq<u8>,
)
    ensures
        sender.may_verify(response, retryable, message_id, mic, Ok(())) <==> {
            &&& transport::is_success(response.status)
            &&& exists|entity: EntityView| #[trigger]
                sender.may_unwrap(transport::answer_entity(response), Ok(entity)) && (mdn::reported(
                    entity,
                ) matches Ok(receipt) && receipt.original_message_id == message_id
                    && mdn::says_processed(receipt.disposition) && (receipt.mic matches Some(named)
                    && named.0 == mic))
        },
{
    if sender.may_verify(response, retryable, message_id, mic, Ok(())) {
        let unwrapped = choose|unwrapped: Result<EntityView, ErrorView>| #[trigger]
            sender.may_unwrap(transport::answer_entity(response), unwrapped) && Ok::<
                (),
                ErrorView,
            >(()) == (match unwrapped {
                Ok(entity) => transport::verified(entity, message_id, mic),
                Err(e) => Err(e),
            });
        assert(sender.may_unwrap(transport::answer_entity(response), Ok(unwrapped->Ok_0)));
    }
}

/// A request is refused where it is no POST, lacks a partner or its id, or
/// is for another partner, whoever signs; and its refusal is not one to try
/// again after.
pub proof fn law_what_is_no_message_is_refused(
    receiver: &As2Transport,
    request: RequestView,
    boundary: Seq<char>,
    result: Result<TakenView, ErrorView>,
)
    requires
        receiver.may_take(request, boundary, result),
        request.method != "POST"@ || message::required(request.headers, "AS2-From"@) is Err
            || message::required(request.headers, "AS2-To"@) is Err || message::required(
            request.headers,
            "Message-ID"@,
        ) is Err || http::header_value(request.headers, "AS2-To"@) != Some(receiver@.me),
    ensures
        result matches Err(e) && !e.retryable,
{
}

/// What goes out is a POST for exactly the path and the authority it was
/// prepared for, from this partner to the other, under the message's id; its
/// body and its media type are those of the payload as the signer wrapped it,
/// and the MIC is that of the payload itself.
pub proof fn law_message_goes_where_it_is_sent(
    sender: &As2Transport,
    authority: Seq<char>,
    path: Seq<char>,
    bytes: Seq<u8>,
    n: u64,
    out: OutgoingView,
)
    requires
        sender.may_prepare(authority, path, bytes, n, Ok(out)),
    ensures
        out.request.method == "POST"@,
        out.request.path == path,
        http::header_value(out.request.headers, "Host"@) == Some(authority),
        http::header_value(out.request.headers, "AS2-From"@) == Some(sender@.me),
        http::header_value(out.request.headers, "AS2-To"@) == Some(sender@.partner),
        http::header_value(out.request.headers, "Message-ID"@) == Some(out.message.message_id),
        http::header_value(out.request.headers, "Disposition-Notification-To"@) == Some(sender@.me),
        http::header_value(out.request.headers, "Disposition-Notification-Options"@) == Some(
            "signed-receipt-protocol=optional, pkcs7-signature; signed-receipt-micalg=optional, "@
                + sender.digest_name(),
        ),
        out.message.from == sender@.me,
        out.message.to == sender@.partner,
        out.mic == message::sha256_digest(bytes),
        exists|nanos: u128| out.message.message_id == #[trigger] message::id_of(nanos, n),
        exists|wrapped: EntityView| #[trigger]
            sender.may_wrap(
                (EntityView { content_type: "application/octet-stream"@, body: bytes }),
                Ok(wrapped),
            ) && out.request.body == wrapped.body && http::header_value(
                out.request.headers,
                "Content-Type"@,
            ) == Some(wrapped.content_type),
        sender.is_unsigned() ==> out.request.body == bytes && http::header_value(
            out.request.headers,
            "Content-Type"@,
        ) == Some("application/octet-stream"@),
{
    message::law_only_sha_256_is_spoken(sender.digest_name(), bytes);
    message::law_request_carries_the_message(out.message, authority, path, "Host"@);
    assert(exists|wrapped: EntityView, nanos: u128|
        out.message == sender.composed(wrapped, #[trigger] message::id_of(nanos, n)) && #[trigger]
            sender.may_wrap(transport::plain(bytes), Ok(wrapped)) && out.request
            == message::posted(out.message, authority, path));
    let (wrapped, nanos) = choose|wrapped: EntityView, nanos: u128|
        out.message == sender.composed(wrapped, #[trigger] message::id_of(nanos, n)) && #[trigger]
            sender.may_wrap(transport::plain(bytes), Ok(wrapped)) && out.request
            == message::posted(out.message, authority, path);
    assert(transport::plain(bytes) == (EntityView {
        content_type: "application/octet-stream"@,
        body: bytes,
    }));
}

/// Preparing fails only where the signer names a digest that is not spoken, or
/// does not wrap the payload.
pub proof fn law_preparing_fails_only_with_the_signer(
    sender: &As2Transport,
    authority: Seq<char>,
    path: Seq<char>,
    bytes: Seq<u8>,
    n: u64,
    e: ErrorView,
)
    requires
        sender.may_prepare(authority, path, bytes, n, Err(e)),
    ensures
        if seq!["sha-256"@, "sha256"@].contains(text::lower(sender.digest_name())) {
            sender.may_wrap(
                (EntityView { content_type: "application/octet-stream"@, body: bytes }),
                Err(e),
            )
        } else {
            !e.retryable && e.message == "a receipt digest this transport does not compute: "@
                + text::lower(sender.digest_name())
        },
{
    message::law_only_sha_256_is_spoken(sender.digest_name(), bytes);
    assert(transport::plain(bytes) == (EntityView {
        content_type: "application/octet-stream"@,
        body: bytes,
    }));
}

/// A request that is taken is one for this partner; what is taken is what the
/// signer makes of its whole body under its media type; and its answer carries
/// what the signer makes of its receipt, where one was asked for, and nothing
/// where none was.
pub proof fn law_request_is_taken(
    receiver: &As2Transport,
    request: RequestView,
    boundary: Seq<char>,
    took: TakenView,
)
    requires
        receiver.may_take(request, boundary, Ok(took)),
    ensures
        message::received(request) == Ok::<MessageView, ErrorView>(took.0),
        http::header_value(request.headers, "AS2-To"@) == Some(receiver@.me),
        took.0.entity.body == request.body,
        receiver.may_unwrap(took.0.entity, Ok(took.1)),
        took.2.status == 200,
        took.0.notification_to is None ==> took.2.body.len() == 0 && took.2.headers.len() == 0,
        took.0.notification_to is Some ==> exists|receipt: MdnView, wrapped: EntityView| #[trigger]
            receiver.may_wrap(mdn::report(receipt, boundary), Ok(wrapped)) && transport::answer_entity(
                took.2,
            ) == wrapped && receipt.original_message_id == took.0.message_id && receipt.recipient
                == receiver@.me && mdn::says_processed(receipt.disposition) && (receipt.mic matches Some(
                named,
            ) && named.0 == message::sha256_digest(took.1.body)),
{
    message::law_request_is_read(request);
    let m = message::received(request)->Ok_0;
    let unwrapped = choose|unwrapped: Result<EntityView, ErrorView>| #[trigger]
        receiver.may_unwrap(m.entity, unwrapped) && receiver.may_answer(
            m,
            unwrapped,
            boundary,
            Ok(took),
        );
    let entity = unwrapped->Ok_0;
    transport::law_receipt_is_owed(m, entity, receiver@.me);
    if let Ok(Some(receipt)) = transport::owed_receipt(m, entity, receiver@.me) {
        let signed = choose|signed: Result<EntityView, ErrorView>| #[trigger]
            receiver.may_wrap(mdn::report(receipt, boundary), signed) && Ok::<TakenView, ErrorView>(
                took,
            ) == (match signed {
                Ok(s) => Ok::<TakenView, ErrorView>(
                    transport::taken(m, receiver@.me, entity, Some(s)),
                ),
                Err(e) => Err::<TakenView, ErrorView>(e),
            });
        let s = signed->Ok_0;
        assert(receiver.may_wrap(mdn::report(receipt, boundary), Ok(s)));
        lemma_answer_entity(receiver@.me, m.from, s);
    }
}

/// A partner that signs nothing takes every message that is for it, unless its
/// receipt is asked for in a digest that is not spoken; and the bytes that
/// arrive are the body of the request, byte for byte, whatever its media type
/// and whoever wrote it.
pub proof fn law_unsigned_partner_takes_every_byte(
    receiver: &As2Transport,
    request: RequestView,
    boundary: Seq<char>,
    peer: Seq<char>,
    result: Result<TakenView, ErrorView>,
)
    requires
        receiver.is_unsigned(),
        receiver.may_take(request, boundary, result),
    ensures
        result matches Ok(took) ==> took.1.body == request.body && (transport::settled(
            peer,
            request.path,
            result,
        ).arrived matches Ok(arrived) && arrived.bytes == request.body),
        result is Ok <==> (message::received(request) matches Ok(m) && m.to == receiver@.me && (
        m.notification_to is Some ==> (m.micalg matches Some(micalg) ==> seq![
            "sha-256"@,
            "sha256"@,
        ].contains(text::lower(micalg))))),
{
    message::law_request_is_read(request);
    if let Ok(m) = message::received(request) {
        if m.to == receiver@.me {
            let unwrapped = choose|unwrapped: Result<EntityView, ErrorView>| #[trigger]
                receiver.may_unwrap(m.entity, unwrapped) && receiver.may_answer(
                    m,
                    unwrapped,
                    boundary,
                    result,
                );
            assert(unwrapped == Ok::<EntityView, ErrorView>(m.entity));
            transport::law_receipt_is_owed(m, m.entity, receiver@.me);
            reveal_strlit("sha-256");
            assert(text::lower("sha-256"@) =~= "sha-256"@);
            assert(seq!["sha-256"@, "sha256"@][0] == "sha-256"@);
        }
    }
}

/// An answer whose status is no success is told by its status alone, whatever
/// it carries; any other is told by what the signer makes of its entity.
pub proof fn law_answer_is_verified(
    sender: &As2Transport,
    response: ResponseView,
    retryable: bool,
    message_id: Seq<char>,
    mic: Seq<u8>,
    verdict: Result<(), ErrorView>,
)
    requires
        sender.may_verify(response, retryable, message_id, mic, verdict),
    ensures
        response.status / 100 != 2 ==> (verdict matches Err(e) && e.retryable == retryable
            && e.message == "the partner answered "@ + text::decimal(response.status as nat)),
        response.status / 100 == 2 ==> exists|unwrapped: Result<EntityView, ErrorView>| #[trigger]
            sender.may_unwrap(transport::answer_entity(response), unwrapped) && (unwrapped matches Ok(
                entity,
            ) ==> verdict == transport::verified(entity, message_id, mic)) && (unwrapped matches Err(
                e,
            ) ==> verdict == Err::<(), ErrorView>(e)),
        sender.is_unsigned() && response.status / 100 == 2 ==> verdict == transport::verified(
            transport::answer_entity(response),
            message_id,
            mic,
        ),
{
    transport::law_status_is_told(response.status, retryable, text::decimal(response.status as nat));
}

/// A partner that signs nothing leaves every entity as it is, and names
/// `sha-256`.
pub proof fn law_unsigned_leaves_the_entity(
    one: &As2Transport,
    entity: EntityView,
    result: Result<EntityView, ErrorView>,
)
    requires
        one.is_unsigned(),
    ensures
        one.digest_name() == "sha-256"@,
        one.may_wrap(entity, result) ==> (result matches Ok(wrapped) && wrapped == entity),
        one.may_unwrap(entity, result) ==> (result matches Ok(unwrapped) && unwrapped == entity),
{
}

/// What a partner that signs nothing unwraps is what it was given.
pub proof fn lemma_unsigned_unwraps(
    one: &As2Transport,
    entity: EntityView,
    unwrapped: EntityView,
)
    requires
        one.may_unwrap(entity, Ok(unwrapped)),
    ensures
        one.is_unsigned() ==> unwrapped == entity,
{
}

/// A request is refused only for what is wrong with it: it is no message, it is
/// for another partner, the signer does not unwrap its entity, its receipt is
/// asked for in a digest that is not spoken, or the signer does not wrap the
/// receipt; and the error is the one of the first of these.
pub proof fn law_request_is_refused_for_a_reason(
    receiver: &As2Transport,
    request: RequestView,
    boundary: Seq<char>,
    e: ErrorView,
)
    requires
        receiver.may_take(request, boundary, Err(e)),
    ensures
        match message::received(request) {
            Err(why) => e == why,
            Ok(m) => if m.to != receiver@.me {
                !e.retryable && e.message == "a message for "@ + m.to + ", and this partner is "@
                    + receiver@.me
            } else {
                ||| receiver.may_unwrap(m.entity, Err(e))
                ||| m.notification_to is Some && (m.micalg matches Some(micalg) && !seq![
                    "sha-256"@,
                    "sha256"@,
                ].contains(text::lower(micalg)) && !e.retryable && e.message
                    == "a receipt digest this transport does not compute: "@ + text::lower(micalg))
                ||| m.notification_to is Some && exists|receipt: MdnView| #[trigger]
                    receiver.may_wrap(mdn::report(receipt, boundary), Err(e))
                        && receipt.original_message_id == m.message_id && receipt.recipient
                        == receiver@.me
            },
        },
{
    if let Ok(m) = message::received(request) {
        if m.to == receiver@.me {
            let unwrapped = choose|unwrapped: Result<EntityView, ErrorView>| #[trigger]
                receiver.may_unwrap(m.entity, unwrapped) && receiver.may_answer(
                    m,
                    unwrapped,
                    boundary,
                    Err(e),
                );
            if let Ok(entity) = unwrapped {
                transport::law_receipt_is_owed(m, entity, receiver@.me);
                reveal_strlit("sha-256");
                assert(text::lower("sha-256"@) =~= "sha-256"@);
                assert(seq!["sha-256"@, "sha256"@][0] == "sha-256"@);
                if let Ok(Some(receipt)) = transport::owed_receipt(m, entity, receiver@.me) {
                    let signed = choose|signed: Result<EntityView, ErrorView>| #[trigger]
                        receiver.may_wrap(mdn::report(receipt, boundary), signed) && Err::<
                            TakenView,
                            ErrorView,
                        >(e) == (match signed {
                            Ok(s) => Ok::<TakenView, ErrorView>(
                                transport::taken(m, receiver@.me, entity, Some(s)),
                            ),
                            Err(why) => Err::<TakenView, ErrorView>(why),
                        });
                    assert(receiver.may_wrap(mdn::report(receipt, boundary), Err(e)));
                }
            } else {
                assert(receiver.may_unwrap(m.entity, Err(e)));
            }
        }
    }
}

/// The answer of a partner that signs nothing carries the report of its
/// receipt as it is, for the message's id, with the MIC of the request's body
/// under the name that was asked for; and nothing where none was asked for.
pub proof fn law_unsigned_answer(
    receiver: &As2Transport,
    request: RequestView,
    boundary: Seq<char>,
    took: TakenView,
)
    requires
        receiver.is_unsigned(),
        receiver.may_take(request, boundary, Ok(took)),
    ensures
        took.0.notification_to is None ==> transport::answer_entity(took.2) == (EntityView {
            content_type: seq![],
            body: seq![],
        }),
        took.0.notification_to is Some ==> transport::answer_entity(took.2) == mdn::report(
            mdn::receipt(
                took.0.message_id,
                receiver@.me,
                message::sha256_digest(request.body),
                match took.0.micalg {
                    Some(micalg) => micalg,
                    None => "sha-256"@,
                },
            ),
            boundary,
        ),
{
    message::law_request_is_read(request);
    let m = message::received(request)->Ok_0;
    let unwrapped = choose|unwrapped: Result<EntityView, ErrorView>| #[trigger]
        receiver.may_unwrap(m.entity, unwrapped) && receiver.may_answer(
            m,
            unwrapped,
            boundary,
            Ok(took),
        );
    assert(unwrapped == Ok::<EntityView, ErrorView>(m.entity));
    transport::law_receipt_is_owed(m, m.entity, receiver@.me);
    message::law_only_sha_256_is_spoken(transport::receipt_micalg(m), m.entity.body);
    match transport::owed_receipt(m, m.entity, receiver@.me) {
        Ok(Some(receipt)) => {
            let report = mdn::report(receipt, boundary);
            assert(took == transport::taken(m, receiver@.me, m.entity, Some(report)));
            lemma_answer_entity(receiver@.me, m.from, report);
        },
        _ => {
            transport::law_answer_carries_the_receipt(
                receiver@.me,
                m.from,
                m.entity,
                "Content-Type"@,
            );
            assert(transport::answer_entity(took.2).body =~= seq![]);
        },
    }
}

} // verus!
