//! What each call gives, said of what goes into it and what comes out.
use std::time::{Duration, SystemTimeError};

use vstd::prelude::*;

use crate::error::{ErrorView, TransportError};
use crate::http::{Request, Response};
use crate::mdn::Mdn;
use crate::message::Message;
use crate::mime::Part;
use crate::multipart::Refusal;
use crate::numbers::Numbers;
use crate::signer::{Entity, EntityView};
use crate::transport::{As2Transport, Outgoing, Settled};
use crate::{
    base64,
    error,
    exchange,
    http,
    lemmas,
    loopback,
    mdn,
    message,
    mime,
    multipart,
    text,
    transport,
};

verus! {

/// The last word of the disposition alone decides whether a receipt says
/// processed, and only the word `processed` does.
pub proof fn law_is_processed(
    receipt: &Mdn,
    mode: Seq<char>,
    outcome: Seq<char>,
    done: bool,
)
    requires
        call_ensures(Mdn::is_processed, (receipt,), done),
        !outcome.contains(';'),
        receipt.disposition@ == outcome || receipt.disposition@ == mode + seq![';'] + outcome
            || receipt.disposition@ == mode + "; "@ + outcome,
    ensures
        done <==> text::lower(text::trim(outcome)) == "processed"@,
        text::lower(text::trim(outcome)).contains('/') ==> !done,
{
    mdn::law_last_word_decides(mode, outcome);
}

/// A receipt made as processed says so of that message, with that MIC.
pub proof fn law_processed(
    original_message_id: &str,
    recipient: &str,
    mic: Vec<u8>,
    micalg: &str,
    receipt: Mdn,
)
    requires
        call_ensures(Mdn::processed, (original_message_id, recipient, mic, micalg), receipt),
    ensures
        receipt.original_message_id@ == original_message_id@,
        receipt.recipient@ == recipient@,
        receipt.disposition@ == "automatic-action/MDN-sent-automatically; processed"@,
        receipt.mic matches Some(named) && named.0@ == mic@ && named.1@ == micalg@,
        mdn::says_processed(receipt.disposition@),
{
    mdn::law_receipt_is_processed(original_message_id@, recipient@, mic@, micalg@);
}

/// A receipt that fits its lines comes back from the entity it was written in,
/// each thing that it says.
pub proof fn law_entity_then_from_entity(
    receipt: &Mdn,
    boundary: &str,
    entity: Entity,
    read: Result<Mdn, TransportError>,
)
    requires
        call_ensures(Mdn::entity, (receipt, boundary), entity),
        call_ensures(Mdn::from_entity, (&entity,), read),
        mdn::is_report_boundary(boundary@),
        receipt@.on_one_line(),
    ensures
        entity.content_type@
            == "multipart/report; report-type=disposition-notification"@ + "; boundary=\""@
            + boundary@ + "\""@,
        entity.body@ == multipart::written(boundary@, mdn::report_parts(receipt@)),
        read matches Ok(back) && back.original_message_id@ == text::trim(
            receipt.original_message_id@,
        ) && back.recipient@ == text::trim(receipt.recipient@) && back.disposition@ == text::trim(
            receipt.disposition@,
        ) && (receipt.mic is None <==> back.mic is None) && (receipt.mic matches Some(named)
            ==> back.mic->Some_0.0@ == named.0@ && back.mic->Some_0.1@ == text::lower(
            text::trim(named.1@),
        )),
{
    mdn::law_receipt_reads_back(receipt@, boundary@);
    mdn::law_report_is_written(receipt@, boundary@);
}

/// The first part that is a notification is the one read, whatever its other
/// headers, and whatever the other parts are.
pub proof fn law_from_parts(
    parts: &Vec<Part>,
    i: int,
    content_type: Seq<char>,
    read: Result<Mdn, TransportError>,
)
    requires
        call_ensures(Mdn::from_parts, (parts,), read),
        0 <= i < parts@.len(),
        http::header_value(http::headers_view(parts@[i].headers@), "Content-Type"@) == Some(
            content_type,
        ),
        mime::media_type_of(content_type) == "message/disposition-notification"@,
        forall|j: int|
            0 <= j < i ==> (http::header_value(
                http::headers_view((#[trigger] parts@[j]).headers@),
                "Content-Type"@,
            ) matches Some(other) ==> mime::media_type_of(other)
                != "message/disposition-notification"@),
    ensures
        ({
            let notification = multipart::text_from(parts@[i].body@);
            &&& read is Ok <==> mdn::field_in(notification, "Original-Message-ID"@) is Some
            &&& read matches Ok(receipt) ==> {
                &&& mdn::field_in(notification, "Original-Message-ID"@) == Some(
                    receipt.original_message_id@,
                )
                &&& mdn::field_in(notification, "Disposition"@) matches Some(value)
                    ==> receipt.disposition@ == value
                &&& mdn::field_in(notification, "Final-Recipient"@) matches Some(value)
                    ==> receipt.recipient@ == mdn::recipient_in(value)
                &&& mdn::field_in(notification, "Received-Content-MIC"@) matches Some(value)
                    ==> mdn::mic_view(receipt.mic) == mdn::mic_in(value)
                &&& mdn::field_in(notification, "Received-Content-MIC"@) is None ==> receipt.mic
                    is None
            }
        }),
{
    let all = mime::parts_view(parts@);
    let before = all.take(i);
    let after = all.skip(i + 1);
    assert(all =~= before + seq![all[i]] + after);
    assert forall|j: int| 0 <= j < before.len() implies (http::header_value(
        (#[trigger] before[j]).headers,
        "Content-Type"@,
    ) matches Some(other) ==> mime::media_type_of(other)
        != "message/disposition-notification"@) by {
        assert(before[j] == parts@[j]@);
    }
    mdn::law_first_notification_is_read(before, all[i], after, content_type);
    mdn::law_notification_is_read(multipart::text_from(parts@[i].body@));
}

/// What a notification's fields say is what is reported.
pub proof fn law_from_notification(notification: &str, read: Result<Mdn, TransportError>)
    requires
        call_ensures(Mdn::from_notification, (notification,), read),
    ensures
        read is Ok <==> mdn::field_in(notification@, "Original-Message-ID"@) is Some,
        read matches Ok(receipt) ==> mdn::field_in(notification@, "Original-Message-ID"@) == Some(
            receipt.original_message_id@,
        ) && (mdn::field_in(notification@, "Disposition"@) matches Some(value)
            ==> receipt.disposition@ == value) && (mdn::field_in(
            notification@,
            "Disposition"@,
        ) is None ==> receipt.disposition@.len() == 0),
        read matches Err(e) ==> !e.retryable,
{
    mdn::law_notification_is_read(notification@);
}

/// What is not a report, and what reports nothing, is refused for good.
pub proof fn law_from_entity(entity: &Entity, read: Result<Mdn, TransportError>)
    requires
        call_ensures(Mdn::from_entity, (entity,), read),
    ensures
        mime::media_type_of(entity.content_type@) != "multipart/report"@ ==> (read matches Err(e)
            && e.message@ == "an answer that is not an MDN: "@ + entity.content_type@
            && !e.retryable),
        mime::parameter_of(entity.content_type@, "boundary"@) is None ==> (read matches Err(e)
            && !e.retryable),
        mime::media_type_of(entity.content_type@) == "multipart/report"@ ==> (mime::parameter_of(
            entity.content_type@,
            "boundary"@,
        ) matches Some(boundary) ==> match multipart::parts_of(entity.body@, boundary) {
            Ok(parts) => error::outcome(read) == mdn::parts_report(parts),
            Err(_) => read matches Err(e) && !e.retryable,
        }),
{
    mdn::law_entity_is_read(entity@);
}

/// A message's request asks for exactly the path, at exactly the authority,
/// and carries the entity's bytes; each header says what the message says.
pub proof fn law_request(m: &Message, authority: &str, path: &str, request: Request)
    requires
        call_ensures(Message::request, (m, authority, path), request),
    ensures
        request.method@ == "POST"@,
        request.path@ == path@,
        request.body@ == m.entity.body@,
        ({
            let headers = http::headers_view(request.headers@);
            &&& http::header_value(headers, "Host"@) == Some(authority@)
            &&& http::header_value(headers, "AS2-Version"@) == Some("1.2"@)
            &&& http::header_value(headers, "AS2-From"@) == Some(m.from@)
            &&& http::header_value(headers, "AS2-To"@) == Some(m.to@)
            &&& http::header_value(headers, "Message-ID"@) == Some(m.message_id@)
            &&& http::header_value(headers, "Content-Type"@) == Some(m.entity.content_type@)
            &&& http::header_value(headers, "Disposition-Notification-To"@) == (
            match m.notification_to {
                Some(to) => Some(to@),
                None => None,
            })
            &&& http::header_value(headers, "Disposition-Notification-Options"@) == (
            match m.micalg {
                Some(micalg) => Some(
                    "signed-receipt-protocol=optional, pkcs7-signature; signed-receipt-micalg=optional, "@
                        + micalg@,
                ),
                None => None,
            })
        }),
{
    message::law_request_carries_the_message(m@, authority@, path@, "Host"@);
}

/// A request is a message exactly where it is a POST with its three headers,
/// and the message is what those and its body say.
pub proof fn law_from_request(request: &Request, read: Result<Message, TransportError>)
    requires
        call_ensures(Message::from_request, (request,), read),
    ensures
        ({
            let headers = http::headers_view(request.headers@);
            let from = http::header_value(headers, "AS2-From"@);
            let to = http::header_value(headers, "AS2-To"@);
            let id = http::header_value(headers, "Message-ID"@);
            let asked = http::header_value(headers, "Disposition-Notification-To"@);
            &&& read is Ok <==> request.method@ == "POST"@ && (from matches Some(v) && v.len() > 0)
                && (to matches Some(v) && v.len() > 0) && (id matches Some(v) && v.len() > 0)
            &&& read matches Err(e) ==> !e.retryable
            &&& read matches Ok(m) ==> {
                &&& from == Some(m.from@)
                &&& to == Some(m.to@)
                &&& id == Some(m.message_id@)
                &&& text::optional(m.notification_to) == asked
                &&& m.notification_to is Some <==> asked is Some
                &&& m.entity.body@ == request.body@
                &&& http::header_value(headers, "Content-Type"@) matches Some(content_type)
                    ==> m.entity.content_type@ == content_type
                &&& http::header_value(headers, "Content-Type"@) is None
                    ==> m.entity.content_type@ == "application/octet-stream"@
                &&& http::header_value(headers, "Disposition-Notification-Options"@) matches Some(
                    options,
                ) ==> text::optional(m.micalg) == message::asked_micalg(options)
                &&& http::header_value(headers, "Disposition-Notification-Options"@) is None
                    ==> m.micalg is None
            }
        }),
{
    message::law_request_is_read(request@);
}

/// A message that is read off the request of another says what that one says,
/// with its partners, its id, its entity, and whether it wants a receipt.
pub proof fn law_request_then_from_request(
    m: &Message,
    authority: &str,
    path: &str,
    request: Request,
    read: Result<Message, TransportError>,
    wanted: bool,
)
    requires
        call_ensures(Message::request, (m, authority, path), request),
        call_ensures(Message::from_request, (&request,), read),
        call_ensures(Message::wants_receipt, (m,), wanted),
        m.from@.len() > 0,
        m.to@.len() > 0,
        m.message_id@.len() > 0,
    ensures
        read matches Ok(back) && back.from@ == m.from@ && back.to@ == m.to@ && back.message_id@
            == m.message_id@ && back.entity.body@ == m.entity.body@ && back.entity.content_type@
            == m.entity.content_type@ && (wanted <==> back.notification_to is Some),
        wanted <==> m.notification_to is Some,
{
    law_request(m, authority, path, request);
    law_from_request(&request, read);
}

/// A message that is made asks for its receipt to its sender, under an id of
/// the number it draws.
pub proof fn law_new_message(
    from: &str,
    to: &str,
    micalg: &str,
    entity: Entity,
    numbers: &mut Numbers,
    m: Message,
)
    requires
        call_ensures(Message::new, (from, to, micalg, entity, numbers), m),
    ensures
        m.from@ == from@,
        m.to@ == to@,
        m.notification_to matches Some(asked) && asked@ == from@,
        m.micalg matches Some(named) && named@ == micalg@,
        m.entity.body@ == entity.body@,
        m.entity.content_type@ == entity.content_type@,
        exists|nanos: u128| m.message_id@ == #[trigger] message::id_of(nanos, old(numbers)@),
        final(numbers)@ == (if old(numbers)@ == u64::MAX {
            0
        } else {
            old(numbers)@ + 1
        }),
{
    assert(m@.entity == entity@);
    assert(m@.micalg == Some(micalg@));
    assert(m@.notification_to == Some(from@));
}

/// A message under a given id is what it was given.
pub proof fn law_identified_message(
    from: &str,
    to: &str,
    micalg: &str,
    entity: Entity,
    message_id: String,
    m: Message,
)
    requires
        call_ensures(Message::identified, (from, to, micalg, entity, message_id), m),
    ensures
        m.from@ == from@,
        m.to@ == to@,
        m.message_id@ == message_id@,
        m.notification_to matches Some(asked) && asked@ == from@,
        m.micalg matches Some(named) && named@ == micalg@,
        m.entity.body@ == entity.body@,
        m.entity.content_type@ == entity.content_type@,
{
    assert(m@.entity == entity@);
    assert(m@.micalg == Some(micalg@));
    assert(m@.notification_to == Some(from@));
}

/// A MIC is computed under two names alone, and it is the SHA-256 digest.
pub proof fn law_mic(micalg: &str, body: &[u8], digest: Result<Vec<u8>, TransportError>)
    requires
        call_ensures(message::mic, (micalg, body), digest),
    ensures
        digest is Ok <==> seq!["sha-256"@, "sha256"@].contains(text::lower(micalg@)),
        digest matches Ok(bytes) ==> bytes@ == message::sha256_digest(body@) && bytes@.len() == 32,
        digest matches Err(e) ==> !e.retryable && e.message@
            == "a receipt digest this transport does not compute: "@ + text::lower(micalg@),
{
    message::law_only_sha_256_is_spoken(micalg@, body@);
}

/// The id of a message spells the nanoseconds and the number.
pub proof fn law_message_id(nanos: u128, n: u64, id: String)
    requires
        call_ensures(message::message_id, (nanos, n), id),
    ensures
        exists|a: Seq<char>, b: Seq<char>|
            #![trigger lemmas::number(a), lemmas::number(b)]
            id@ == "<"@ + a + "."@ + b + "@xmip>"@ && lemmas::number(a) == nanos && lemmas::number(b)
                == n,
{
    message::law_message_id_spells_its_numbers(nanos, n);
}

/// The id of a message made at a time spells that time.
pub proof fn law_message_id_at(since: Result<Duration, SystemTimeError>, n: u64, id: String)
    requires
        call_ensures(message::message_id_at, (since, n), id),
    ensures
        since matches Ok(duration) ==> id@ == message::id_of(message::whole_nanos(duration), n),
        since is Err ==> id@ == message::id_of(0, n),
{
}

/// Drawing an id uses its number up.
pub proof fn law_next_message_id(numbers: &mut Numbers, id: String)
    requires
        call_ensures(message::next_message_id, (numbers,), id),
    ensures
        exists|nanos: u128| id@ == #[trigger] message::id_of(nanos, old(numbers)@),
        final(numbers)@ == (if old(numbers)@ == u64::MAX {
            0
        } else {
            old(numbers)@ + 1
        }),
{
}

/// Numbers are handed out from one on, one after another.
pub proof fn law_numbers(fresh: Numbers, numbers: &mut Numbers, n: u64)
    requires
        call_ensures(Numbers::new, (), fresh),
        call_ensures(Numbers::next, (numbers,), n),
    ensures
        fresh@ == 1,
        n == old(numbers)@,
        final(numbers)@ == (if n == u64::MAX {
            0
        } else {
            n + 1
        }),
{
}

/// The digest asked for is what the options name.
pub proof fn law_requested_micalg(options: &str, micalg: Option<String>)
    requires
        call_ensures(message::requested_micalg, (options,), micalg),
    ensures
        micalg is None <==> message::asked_micalg(options@) is None,
        micalg matches Some(name) ==> message::asked_micalg(options@) == Some(name@),
{
}

/// What was taken arrives whole, with its origin, and its answer is sent; what
/// was refused is answered with why.
pub proof fn law_settle(
    peer: &str,
    path: &str,
    m: Message,
    entity: Entity,
    answer: Response,
    settling: Settled,
    e: TransportError,
    refusing: Settled,
)
    requires
        call_ensures(transport::settle, (peer, path, Ok((m, entity, answer))), settling),
        call_ensures(transport::settle, (peer, path, Err(e)), refusing),
    ensures
        settling.arrived matches Ok(arrived) && arrived.bytes@ == entity.body@
            && arrived.origin_uri@ == transport::origin_of(peer@, path@, m@),
        settling.answer matches Some(given) && given.status == answer.status && given.body@
            == answer.body@ && http::headers_view(given.headers@) == http::headers_view(
            answer.headers@,
        ),
        refusing.arrived matches Err(told) && told.message@ == e.message@ && told.retryable
            == e.retryable,
        refusing.answer matches Some(given) && given.status == (if e.retryable {
            503u16
        } else {
            400u16
        }) && given.headers@.len() == 0 && multipart::text_from(given.body@) == e.message@,
{
    let took = error::outcome(Ok::<(Message, Entity, Response), TransportError>((m, entity, answer)))->Ok_0;
    transport::law_what_was_taken_arrives_whole(peer@, path@, took, e@);
    assert(took == (m@, entity@, answer@));
    assert(refusing@.answer == Some(transport::refusal_of(e@)));
    assert(settling@.arrived is Ok);
    assert(refusing@.arrived == Err::<transport::ArrivedView, ErrorView>(e@));
    let given = refusing.answer->Some_0;
    assert(http::headers_view(given.headers@).len() == given.headers@.len());
}

/// A partner that signs nothing hands over every byte of every message that is
/// for it, whatever its media type and whoever wrote it.
pub proof fn law_respond(
    receiver: &As2Transport,
    peer: &str,
    request: &Request,
    boundary: &str,
    settling: Settled,
)
    requires
        call_ensures(As2Transport::respond, (receiver, peer, Ok(Some(request)), boundary), settling),
        receiver.is_unsigned(),
    ensures
        settling.arrived matches Ok(arrived) ==> arrived.bytes@ == request.body@,
        settling.arrived is Ok <==> (message::received(request@) matches Ok(m) && m.to
            == receiver@.me && (m.notification_to is Some ==> (m.micalg matches Some(micalg)
            ==> seq!["sha-256"@, "sha256"@].contains(text::lower(micalg))))),
        settling.arrived is Ok ==> (settling.answer matches Some(given) && given.status == 200),
        message::received(request@) matches Ok(m) ==> (settling.arrived matches Ok(arrived)
            ==> arrived.origin_uri@ == transport::origin_of(peer@, request.path@, m)
            && transport::answer_entity(settling.answer->Some_0@) == (if m.notification_to is Some {
            mdn::report(
                mdn::receipt(
                    m.message_id,
                    receiver@.me,
                    message::sha256_digest(request.body@),
                    match m.micalg {
                        Some(micalg) => micalg,
                        None => "sha-256"@,
                    },
                ),
                boundary@,
            )
        } else {
            EntityView { content_type: seq![], body: seq![] }
        })),
        settling.arrived matches Err(e) ==> (settling.answer matches Some(given) && given.status
            == (if e.retryable {
            503u16
        } else {
            400u16
        }) && multipart::text_from(given.body@) == e.message@),
{
    let result = choose|result: Result<transport::TakenView, ErrorView>| #[trigger]
        receiver.may_take(request@, boundary@, result) && settling@ == transport::settled(
            peer@,
            request@.path,
            result,
        );
    exchange::law_unsigned_partner_takes_every_byte(receiver, request@, boundary@, peer@, result);
    match result {
        Ok(took) => {
            exchange::law_request_is_taken(receiver, request@, boundary@, took);
            exchange::law_unsigned_answer(receiver, request@, boundary@, took);
            assert(settling@.answer == Some(took.2));
            assert(settling@.arrived is Ok);
        },
        Err(e) => {
            multipart::law_text_comes_back(e.message);
            assert(settling@.answer == Some(transport::refusal_of(e)));
            assert(settling@.arrived == Err::<transport::ArrivedView, ErrorView>(e));
        },
    }
}

/// A connection that brought no request is answered all the same.
pub proof fn law_respond_to_nothing(
    receiver: &As2Transport,
    peer: &str,
    boundary: &str,
    e: TransportError,
    broken: Settled,
    empty: Settled,
)
    requires
        call_ensures(As2Transport::respond, (receiver, peer, Err(e), boundary), broken),
        call_ensures(As2Transport::respond, (receiver, peer, Ok(None), boundary), empty),
    ensures
        broken.arrived matches Err(told) && told.message@ == e.message@ && told.retryable
            == e.retryable,
        broken.answer matches Some(given) && given.status == (if e.retryable {
            503u16
        } else {
            400u16
        }) && multipart::text_from(given.body@) == e.message@,
        empty.arrived matches Err(told) && !told.retryable,
        empty.answer matches Some(given) && given.status == 400,
{
    multipart::law_text_comes_back(e.message@);
    assert(broken@.answer == Some(transport::refusal_of(e@)));
    assert(broken@.arrived == Err::<transport::ArrivedView, ErrorView>(e@));
    assert(empty@.answer is Some);
    assert(empty@.arrived is Err);
}

/// A payload is prepared for exactly the path and the authority, from this
/// partner to the other, with the payload's MIC; where nothing is signed it is
/// always prepared, and goes out byte for byte.
pub proof fn law_prepare(
    sender: &As2Transport,
    authority: &str,
    path: &str,
    bytes: &[u8],
    numbers: &mut Numbers,
    prepared: Result<Outgoing, TransportError>,
)
    requires
        call_ensures(As2Transport::prepare, (sender, authority, path, bytes, numbers), prepared),
    ensures
        sender.is_unsigned() ==> prepared is Ok,
        prepared matches Ok(out) ==> {
            let headers = http::headers_view(out.request.headers@);
            &&& out.request.method@ == "POST"@
            &&& out.request.path@ == path@
            &&& http::header_value(headers, "Host"@) == Some(authority@)
            &&& http::header_value(headers, "AS2-From"@) == Some(sender@.me)
            &&& http::header_value(headers, "AS2-To"@) == Some(sender@.partner)
            &&& http::header_value(headers, "Message-ID"@) == Some(out.message.message_id@)
            &&& http::header_value(headers, "Disposition-Notification-To"@) == Some(sender@.me)
            &&& http::header_value(headers, "Disposition-Notification-Options"@) == Some(
                "signed-receipt-protocol=optional, pkcs7-signature; signed-receipt-micalg=optional, "@
                    + sender.digest_name(),
            )
            &&& out.message.from@ == sender@.me
            &&& out.message.to@ == sender@.partner
            &&& out.mic@ == message::sha256_digest(bytes@)
            &&& sender.is_unsigned() ==> out.request.body@ == bytes@
            &&& exists|nanos: u128|
                out.message.message_id@ == #[trigger] message::id_of(nanos, old(numbers)@)
            &&& final(numbers)@ == (if old(numbers)@ == u64::MAX {
                0
            } else {
                old(numbers)@ + 1
            })
        },
        prepared is Err ==> final(numbers)@ == old(numbers)@,
{
    let result = error::outcome(prepared);
    match result {
        Ok(out) => {
            exchange::law_message_goes_where_it_is_sent(
                sender,
                authority@,
                path@,
                bytes@,
                old(numbers)@,
                out,
            );
            assert(out.request == prepared->Ok_0.request@);
        },
        Err(e) => {
            exchange::law_preparing_fails_only_with_the_signer(
                sender,
                authority@,
                path@,
                bytes@,
                old(numbers)@,
                e,
            );
            reveal_strlit("sha-256");
            assert(text::lower("sha-256"@) =~= "sha-256"@);
            assert(seq!["sha-256"@, "sha256"@][0] == "sha-256"@);
        },
    }
}

/// Sealing gives the payload's MIC and what the signer makes of the payload.
pub proof fn law_seal(
    sender: &As2Transport,
    bytes: &[u8],
    sealed: Result<(Vec<u8>, Entity), TransportError>,
)
    requires
        call_ensures(As2Transport::seal, (sender, bytes), sealed),
    ensures
        sealed matches Ok(both) ==> both.0@ == message::sha256_digest(bytes@) && sender.may_wrap(
            (EntityView { content_type: "application/octet-stream"@, body: bytes@ }),
            Ok(both.1@),
        ),
        sealed matches Err(e) ==> (if seq!["sha-256"@, "sha256"@].contains(
            text::lower(sender.digest_name()),
        ) {
            sender.may_wrap(
                (EntityView { content_type: "application/octet-stream"@, body: bytes@ }),
                Err(e@),
            )
        } else {
            !e.retryable && e.message@ == "a receipt digest this transport does not compute: "@
                + text::lower(sender.digest_name())
        }),
        sender.is_unsigned() ==> (sealed matches Ok(both) && both.1.body@ == bytes@
            && both.1.content_type@ == "application/octet-stream"@),
{
    message::law_only_sha_256_is_spoken(sender.digest_name(), bytes@);
    transport::law_payload_goes_out_whole(bytes@);
    reveal_strlit("sha-256");
    assert(text::lower("sha-256"@) =~= "sha-256"@);
    assert(seq!["sha-256"@, "sha256"@][0] == "sha-256"@);
    let result = error::outcome(sealed);
    assert(transport::plain(bytes@) == (EntityView {
        content_type: "application/octet-stream"@,
        body: bytes@,
    }));
    if let Ok(both) = sealed {
        assert(result == Ok::<(Seq<u8>, EntityView), ErrorView>((both.0@, both.1@)));
    }
}

/// The next message carries what was wrapped, for that path at that authority.
pub proof fn law_next_outgoing(
    sender: &As2Transport,
    authority: &str,
    path: &str,
    mic: Vec<u8>,
    wrapped: Entity,
    numbers: &mut Numbers,
    out: Outgoing,
)
    requires
        call_ensures(
            As2Transport::next_outgoing,
            (sender, authority, path, mic, wrapped, numbers),
            out,
        ),
    ensures
        out.request.path@ == path@,
        out.request.method@ == "POST"@,
        out.request.body@ == wrapped.body@,
        out.mic@ == mic@,
        out.message.from@ == sender@.me,
        out.message.to@ == sender@.partner,
        http::header_value(http::headers_view(out.request.headers@), "Host"@) == Some(authority@),
        exists|nanos: u128|
            out.message.message_id@ == #[trigger] message::id_of(nanos, old(numbers)@),
        final(numbers)@ == (if old(numbers)@ == u64::MAX {
            0
        } else {
            old(numbers)@ + 1
        }),
{
    message::law_request_carries_the_message(out.message@, authority@, path@, "Host"@);
    assert(out@.request == message::posted(out.message@, authority@, path@));
    assert(out@.mic == mic@);
}

/// The same under a given id.
pub proof fn law_outgoing(
    sender: &As2Transport,
    authority: &str,
    path: &str,
    mic: Vec<u8>,
    wrapped: Entity,
    message_id: String,
    out: Outgoing,
)
    requires
        call_ensures(
            As2Transport::outgoing,
            (sender, authority, path, mic, wrapped, message_id),
            out,
        ),
    ensures
        out.request.path@ == path@,
        out.request.method@ == "POST"@,
        out.request.body@ == wrapped.body@,
        out.mic@ == mic@,
        out.message.from@ == sender@.me,
        out.message.to@ == sender@.partner,
        out.message.message_id@ == message_id@,
        http::header_value(http::headers_view(out.request.headers@), "Host"@) == Some(authority@),
{
    message::law_request_carries_the_message(out.message@, authority@, path@, "Host"@);
    assert(out@.request == message::posted(out.message@, authority@, path@));
    assert(out@.mic == mic@);
}

/// A message is taken where it is for this partner, and what is taken is what
/// the signer makes of its entity; the answer carries the receipt that is owed.
pub proof fn law_take(
    receiver: &As2Transport,
    request: &Request,
    boundary: &str,
    result: Result<(Message, Entity, Response), TransportError>,
)
    requires
        call_ensures(As2Transport::take, (receiver, request, boundary), result),
    ensures
        result matches Ok(took) ==> {
            &&& message::received(request@) == Ok::<message::MessageView, ErrorView>(took.0@)
            &&& took.0.to@ == receiver@.me
            &&& receiver.may_unwrap(took.0.entity@, Ok(took.1@))
            &&& receiver.is_unsigned() ==> took.1.body@ == request.body@
            &&& took.2.status == 200
            &&& took.0.notification_to is None ==> took.2.body@.len() == 0
            &&& took.0.notification_to is Some ==> exists|receipt: mdn::MdnView, wrapped: EntityView|
                #[trigger] receiver.may_wrap(mdn::report(receipt, boundary@), Ok(wrapped))
                    && transport::answer_entity(took.2@) == wrapped && receipt.original_message_id
                    == took.0.message_id@ && receipt.recipient == receiver@.me
                    && mdn::says_processed(receipt.disposition) && (receipt.mic matches Some(named)
                    && named.0 == message::sha256_digest(took.1.body@))
        },
        !(message::received(request@) matches Ok(m) && m.to == receiver@.me) ==> (result matches Err(
            e,
        ) && !e.retryable),
{
    message::law_request_is_read(request@);
    let outcome = error::outcome(result);
    match outcome {
        Ok(took) => {
            exchange::law_request_is_taken(receiver, request@, boundary@, took);
            exchange::lemma_unsigned_unwraps(receiver, took.0.entity, took.1);
            assert(took == (result->Ok_0.0@, result->Ok_0.1@, result->Ok_0.2@));
        },
        Err(_) => {},
    }
}

/// A receipt is verified by the status of its answer, and then by itself.
pub proof fn law_verify_receipt(
    sender: &As2Transport,
    response: &Response,
    retryable: bool,
    sent: &Message,
    mic: &[u8],
    verdict: Result<(), TransportError>,
)
    requires
        call_ensures(As2Transport::verify_receipt, (sender, response, retryable, sent, mic), verdict),
    ensures
        response.status / 100 != 2 ==> (verdict matches Err(e) && e.retryable == retryable
            && e.message@ == "the partner answered "@ + text::decimal(response.status as nat)),
        verdict is Ok ==> exists|entity: EntityView| #[trigger]
            sender.may_unwrap(transport::answer_entity(response@), Ok(entity)) && (mdn::reported(
                entity,
            ) matches Ok(receipt) && receipt.original_message_id == sent.message_id@
                && mdn::says_processed(receipt.disposition) && (receipt.mic matches Some(named)
                && named.0 == mic@)),
        sender.is_unsigned() && response.status / 100 == 2 ==> error::outcome(verdict)
            == transport::verified(transport::answer_entity(response@), sent.message_id@, mic@),
{
    let outcome = error::outcome(verdict);
    exchange::law_answer_is_verified(
        sender,
        response@,
        retryable,
        sent.message_id@,
        mic@,
        outcome,
    );
    exchange::law_send_counts_only_with_its_receipt(
        sender,
        response@,
        retryable,
        sent.message_id@,
        mic@,
    );
    if verdict is Ok {
        assert(outcome == Ok::<(), ErrorView>(()));
    }
}

/// A receipt counts where it is for the message, says processed and holds the
/// MIC, and in no other case.
pub proof fn law_check_receipt(
    receipt: &Mdn,
    sent: &Message,
    mic: &[u8],
    verdict: Result<(), TransportError>,
    mode: Seq<char>,
    outcome: Seq<char>,
)
    requires
        call_ensures(transport::check_receipt, (receipt, sent, mic), verdict),
        receipt.disposition@ == mode + "; "@ + outcome,
        !outcome.contains(';'),
    ensures
        verdict is Ok <==> receipt.original_message_id@ == sent.message_id@ && text::lower(
            text::trim(outcome),
        ) == "processed"@ && (receipt.mic matches Some(named) && named.0@ == mic@),
        verdict matches Err(e) ==> !e.retryable && (receipt.original_message_id@
            != sent.message_id@ ==> e.message@ == "a receipt for "@ + receipt.original_message_id@
            + ", not for "@ + sent.message_id@) && (receipt.original_message_id@
            == sent.message_id@ && text::lower(text::trim(outcome)) != "processed"@ ==> e.message@
            == "the partner did not process the message: "@ + receipt.disposition@),
{
    mdn::law_last_word_decides(mode, outcome);
    transport::law_receipt_is_checked(receipt@, sent.message_id@, mic@);
    let seen = error::outcome(verdict);
    assert(verdict is Ok <==> seen is Ok);
}

/// An entity counts where the receipt in it does.
pub proof fn law_verify_entity(
    entity: &Entity,
    sent: &Message,
    mic: &[u8],
    verdict: Result<(), TransportError>,
)
    requires
        call_ensures(transport::verify_entity, (entity, sent, mic), verdict),
    ensures
        verdict is Ok <==> (mdn::reported(entity@) matches Ok(receipt)
            && receipt.original_message_id == sent.message_id@ && mdn::says_processed(
            receipt.disposition,
        ) && (receipt.mic matches Some(named) && named.0 == mic@)),
        mdn::reported(entity@) matches Err(e) ==> (verdict matches Err(told) && told@ == e),
{
    transport::law_report_is_checked(entity@, sent.message_id@, mic@);
    if let Ok(receipt) = mdn::reported(entity@) {
        transport::law_receipt_is_checked(receipt, sent.message_id@, mic@);
    }
    let seen = error::outcome(verdict);
    assert(verdict is Ok <==> seen is Ok);
}

/// A target that is named is the one, and one that is not is the endpoint; the
/// scheme alone changes.
pub proof fn law_resolve(
    sender: &As2Transport,
    target: &str,
    url: String,
    wire: String,
    rest: Seq<char>,
)
    requires
        call_ensures(As2Transport::resolve, (sender, target), url),
        call_ensures(transport::as_http, (target,), wire),
    ensures
        target@.len() == 0 ==> url@ == sender@.endpoint,
        target@.len() > 0 ==> url@ == wire@,
        target@ == "as2://"@ + rest ==> wire@ == "http://"@ + rest,
        target@ == "as2s://"@ + rest ==> wire@ == "https://"@ + rest,
        !"as2://"@.is_prefix_of(target@) && !"as2s://"@.is_prefix_of(target@) ==> wire@ == target@,
{
    transport::law_scheme_alone_changes(rest, target@);
}

/// A partner keeps what it is set up with: its endpoint as the wire has it,
/// its own name, the other's, and no more until more is said.
pub proof fn law_set_up(
    endpoint: &str,
    me: &str,
    partner: &str,
    one: As2Transport,
    timeout: Duration,
    patient: As2Transport,
)
    requires
        call_ensures(As2Transport::new, (endpoint, me, partner), one),
        call_ensures(As2Transport::timing_out_after, (one, timeout), patient),
    ensures
        one@.endpoint == transport::wire_url(endpoint@),
        one@.me == me@,
        one@.partner == partner@,
        one@.timeout is None,
        one.is_unsigned(),
        patient@.endpoint == one@.endpoint,
        patient@.me == me@,
        patient@.partner == partner@,
        patient@.timeout == Some(timeout),
        patient.is_unsigned(),
{
}

/// What a partner was set up with is what it says.
pub proof fn law_told(
    one: &As2Transport,
    name: &'static str,
    endpoint: &str,
    me: &str,
    partner: &str,
    timeout: Option<Duration>,
)
    requires
        call_ensures(As2Transport::name, (one,), name),
        call_ensures(As2Transport::endpoint, (one,), endpoint),
        call_ensures(As2Transport::me, (one,), me),
        call_ensures(As2Transport::partner, (one,), partner),
        call_ensures(As2Transport::timeout, (one,), timeout),
    ensures
        name@ == "as2"@,
        endpoint@ == one@.endpoint,
        me@ == one@.me,
        partner@ == one@.partner,
        timeout == one@.timeout,
{
}

/// A message is handed on where it is for this partner.
pub proof fn law_addressed(
    receiver: &As2Transport,
    request: &Request,
    m: Result<Message, TransportError>,
)
    requires
        call_ensures(As2Transport::addressed, (receiver, request), m),
    ensures
        m matches Ok(own) ==> own.to@ == receiver@.me && message::received(request@) == Ok::<
            message::MessageView,
            ErrorView,
        >(own@),
        m matches Err(e) ==> !e.retryable && !(message::received(request@) matches Ok(other)
            && other.to == receiver@.me),
{
    message::law_request_is_read(request@);
    let seen = error::outcome(m);
}

/// The receipt that is owed is for that message, from this partner, with the
/// MIC of what the entity holds.
pub proof fn law_receipt_for(
    receiver: &As2Transport,
    m: &Message,
    entity: &Entity,
    owed: Result<Option<Mdn>, TransportError>,
)
    requires
        call_ensures(As2Transport::receipt_for, (receiver, m, entity), owed),
    ensures
        m.notification_to is None <==> (owed matches Ok(receipt) && receipt is None),
        owed matches Ok(Some(receipt)) ==> receipt.original_message_id@ == m.message_id@
            && receipt.recipient@ == receiver@.me && mdn::says_processed(receipt.disposition@) && (
        receipt.mic matches Some(named) && named.0@ == message::sha256_digest(entity.body@) && (
        m.micalg matches Some(asked) ==> named.1@ == asked@) && (m.micalg is None ==> named.1@
            == "sha-256"@)),
        owed matches Err(e) ==> !e.retryable,
        owed is Err <==> m.notification_to is Some && (m.micalg matches Some(asked) && !seq![
            "sha-256"@,
            "sha256"@,
        ].contains(text::lower(asked@))),
{
    transport::law_receipt_is_owed(m@, entity@, receiver@.me);
    reveal_strlit("sha-256");
    assert(text::lower("sha-256"@) =~= "sha-256"@);
    assert(seq!["sha-256"@, "sha256"@][0] == "sha-256"@);
    if let Ok(Some(receipt)) = owed {
        assert(transport::owed_receipt(m@, entity@, receiver@.me) == Ok::<
            Option<mdn::MdnView>,
            ErrorView,
        >(Some(receipt@)));
        assert(mdn::mic_view(receipt.mic) is Some);
    }
}

/// The answer with a receipt carries the receipt's entity whole.
pub proof fn law_answer(
    receiver: &As2Transport,
    m: &Message,
    wrapped: &Entity,
    answer: Response,
    bare: Response,
)
    requires
        call_ensures(As2Transport::answer, (receiver, m, Some(wrapped)), answer),
        call_ensures(As2Transport::answer, (receiver, m, None), bare),
    ensures
        answer.status == 200,
        answer.body@ == wrapped.body@,
        http::header_value(http::headers_view(answer.headers@), "AS2-Version"@) == Some("1.2"@),
        http::header_value(http::headers_view(answer.headers@), "AS2-From"@) == Some(receiver@.me),
        http::header_value(http::headers_view(answer.headers@), "AS2-To"@) == Some(m.from@),
        http::header_value(http::headers_view(answer.headers@), "Content-Type"@) == Some(
            wrapped.content_type@,
        ),
        bare.status == 200,
        bare.body@.len() == 0,
        bare.headers@.len() == 0,
{
    transport::law_answer_carries_the_receipt(receiver@.me, m.from@, wrapped@, "Host"@);
    assert(bare@ == http::bare_response(200));
    assert(http::headers_view(bare.headers@).len() == bare.headers@.len());
}

/// An origin names the peer, the path, the sender and the id.
pub proof fn law_origin(
    peer: &str,
    path: &str,
    m: &Message,
    before: Seq<char>,
    id: Seq<char>,
    after: Seq<char>,
    uri: String,
)
    requires
        call_ensures(transport::origin, (peer, path, m), uri),
        forall|j: int| 0 <= j < before.len() ==> #[trigger] before[j] == '<' || before[j] == '>',
        forall|j: int| 0 <= j < after.len() ==> #[trigger] after[j] == '<' || after[j] == '>',
        id.len() > 0 ==> id[0] != '<' && id[0] != '>' && id.last() != '<' && id.last() != '>',
        m.message_id@ == before + id + after,
    ensures
        uri@ == "as2://"@ + peer@ + path@ + "?from="@ + m.from@ + "&message-id="@ + id,
{
    transport::law_origin_names_sender_and_id(peer@, path@, m@, before, id, after);
}

/// The two ends of a loopback are each other's partners, and neither signs.
pub proof fn law_loopback_ends(
    timeout: Duration,
    both: As2Transport,
    far: As2Transport,
    address: &str,
    path: &str,
    patience: Duration,
    near: As2Transport,
)
    requires
        call_ensures(As2Transport::loopback, (timeout,), both),
        call_ensures(As2Transport::unsigned_twin, (&both,), far),
        call_ensures(As2Transport::near_end, (&both, address, path, patience), near),
    ensures
        both@.endpoint == "http://"@ + "127.0.0.1:0/as2"@,
        both@.me == "Seller"@,
        both@.partner == "Buyer"@,
        both@.timeout == Some(timeout),
        both.is_unsigned(),
        far@ == both@,
        far.is_unsigned(),
        near@.endpoint == "http://"@ + (address@ + path@),
        near@.me == both@.partner,
        near@.partner == both@.me,
        near@.timeout == Some(timeout),
        near.is_unsigned(),
{
    reveal_strlit("as2://127.0.0.1:0/as2");
    reveal_strlit("as2://");
    reveal_strlit("127.0.0.1:0/as2");
    assert("as2://127.0.0.1:0/as2"@ =~= "as2://"@ + "127.0.0.1:0/as2"@);
    transport::law_scheme_alone_changes("127.0.0.1:0/as2"@, seq![]);
    assert("as2://"@ + address@ + path@ =~= "as2://"@ + (address@ + path@));
    transport::law_scheme_alone_changes(address@ + path@, seq![]);
    assert(loopback::ME@ == "Seller"@ && loopback::PARTNER@ == "Buyer"@);
}

/// This partner's twin has its set-up and its patience, and signs nothing; the
/// near end has this partner's patience, or what it is given where there is
/// none.
pub proof fn law_near_end(
    one: &As2Transport,
    far: As2Transport,
    address: &str,
    path: &str,
    patience: Duration,
    near: As2Transport,
)
    requires
        call_ensures(As2Transport::unsigned_twin, (one,), far),
        call_ensures(As2Transport::near_end, (one, address, path, patience), near),
    ensures
        far@.endpoint == one@.endpoint && far@.me == one@.me && far@.partner == one@.partner
            && far@.timeout == one@.timeout,
        far.is_unsigned(),
        near@.me == one@.partner,
        near@.partner == one@.me,
        one@.timeout matches Some(own) ==> near@.timeout == Some(own),
        one@.timeout is None ==> near@.timeout == Some(patience),
        near.is_unsigned(),
{
}

/// What was encoded is decoded to the same bytes, and nothing else is decoded.
pub proof fn law_encode_then_decode(
    bytes: &[u8],
    chars: Vec<char>,
    given: &[char],
    back: Option<Vec<u8>>,
)
    requires
        call_ensures(base64::encode, (bytes,), chars),
        call_ensures(base64::decode, (given,), back),
    ensures
        chars@ == base64::encoded(bytes@),
        given@ == chars@ ==> (back matches Some(same) && same@ == bytes@),
        back matches Some(read) ==> base64::encoded(read@) == given@,
{
    base64::law_decoding_undoes_encoding(bytes@, given@);
    if let Some(read) = back {
        base64::law_decoding_undoes_encoding(read@, given@);
    }
}

/// Parts that fit between the delimiters are read off the body that was
/// written of them.
pub proof fn law_write_then_read(
    boundary: &str,
    parts: &Vec<Part>,
    body: Vec<u8>,
    bytes: &[u8],
    read: Result<Vec<Part>, Refusal>,
)
    requires
        call_ensures(multipart::write, (boundary, parts), body),
        call_ensures(multipart::read, (bytes, boundary), read),
        bytes@ == body@,
        multipart::is_boundary(boundary@),
        forall|i: int|
            0 <= i < parts@.len() ==> multipart::part_fits((#[trigger] parts@[i])@, boundary@),
    ensures
        read matches Ok(back) && back@.len() == parts@.len() && forall|i: int|
            0 <= i < parts@.len() ==> (#[trigger] back@[i]).body@ == parts@[i].body@
                && http::headers_view(back@[i].headers@) == http::headers_view(parts@[i].headers@),
{
    let all = mime::parts_view(parts@);
    assert forall|i: int| 0 <= i < all.len() implies multipart::part_fits(
        #[trigger] all[i],
        boundary@,
    ) by {
        assert(all[i] == parts@[i]@);
    }
    multipart::law_parts_read_back(boundary@, all);
    if let Ok(back) = read {
        let seen = mime::parts_view(back@);
        assert(seen == all);
        assert(seen.len() == back@.len());
        assert forall|i: int| 0 <= i < parts@.len() implies (#[trigger] back@[i]).body@
            == parts@[i].body@ && http::headers_view(back@[i].headers@) == http::headers_view(
            parts@[i].headers@,
        ) by {
            assert(seen[i] == all[i]);
        }
    }
}

/// The media type and the parameters of a `Content-Type` are told apart.
pub proof fn law_content_type(
    content_type: &str,
    name: &str,
    kind: String,
    value: Option<String>,
)
    requires
        call_ensures(mime::media_type, (content_type,), kind),
        call_ensures(mime::parameter, (content_type, name), value),
    ensures
        kind@ == mime::media_type_of(content_type@),
        value is None <==> mime::parameter_of(content_type@, name@) is None,
        value matches Some(given) ==> mime::parameter_of(content_type@, name@) == Some(given@),
{
}

/// Text that was encoded is decoded to itself.
pub proof fn law_to_text(s: Seq<char>, bytes: &[u8], decoded: String)
    requires
        call_ensures(multipart::to_text, (bytes,), decoded),
        bytes@ == vstd::utf8::encode_utf8(s),
    ensures
        decoded@ == s,
{
    multipart::law_text_comes_back(s);
}

/// A request is what it is made of, and one header or another body changes
/// nothing else of it.
pub proof fn law_build_request(
    method: &str,
    path: &str,
    first: Request,
    name: &str,
    value: &str,
    second: Request,
    body: &[u8],
    third: Request,
)
    requires
        call_ensures(Request::new, (method, path), first),
        call_ensures(Request::header, (first, name, value), second),
        call_ensures(Request::body, (second, body), third),
    ensures
        first.method@ == method@ && second.method@ == method@ && third.method@ == method@,
        first.path@ == path@ && second.path@ == path@ && third.path@ == path@,
        first.headers@.len() == 0 && first.body@.len() == 0 && second.body@.len() == 0,
        second.headers@.len() == 1 && second.headers@[0].0@ == name@ && second.headers@[0].1@
            == value@,
        http::headers_view(third.headers@) == http::headers_view(second.headers@),
        third.body@ == body@,
{
    assert(http::headers_view(first.headers@).len() == first.headers@.len());
    assert(http::headers_view(second.headers@).len() == second.headers@.len());
    assert(http::headers_view(second.headers@)[0] == (
        second.headers@[0].0@,
        second.headers@[0].1@,
    ));
    assert(second@.headers == first@.headers.push((name@, value@)));
}

/// An answer is what it is made of, and one header or another body changes
/// nothing else of it.
pub proof fn law_build_response(
    status: u16,
    first: Response,
    name: &str,
    value: &str,
    second: Response,
    body: &[u8],
    third: Response,
)
    requires
        call_ensures(Response::new, (status,), first),
        call_ensures(Response::header, (first, name, value), second),
        call_ensures(Response::body, (second, body), third),
    ensures
        first.status == status && second.status == status && third.status == status,
        first.headers@.len() == 0 && first.body@.len() == 0 && second.body@.len() == 0,
        second.headers@.len() == 1 && second.headers@[0].0@ == name@ && second.headers@[0].1@
            == value@,
        http::headers_view(third.headers@) == http::headers_view(second.headers@),
        third.body@ == body@,
{
    assert(http::headers_view(first.headers@).len() == first.headers@.len());
    assert(http::headers_view(second.headers@).len() == second.headers@.len());
    assert(http::headers_view(second.headers@)[0] == (
        second.headers@[0].0@,
        second.headers@[0].1@,
    ));
    assert(second@.headers == first@.headers.push((name@, value@)));
}

/// A header is found by its name in a request, an answer and a part.
pub proof fn law_header_values(
    request: &Request,
    response: &Response,
    part: &Part,
    name: &str,
    asked: Option<&str>,
    given: Option<&str>,
    kind: Option<&String>,
)
    requires
        call_ensures(Request::header_value, (request, name), asked),
        call_ensures(Response::header_value, (response, name), given),
        call_ensures(Part::content_type, (part,), kind),
    ensures
        asked matches Some(value) ==> http::header_value(
            http::headers_view(request.headers@),
            name@,
        ) == Some(value@),
        asked is None ==> http::header_value(http::headers_view(request.headers@), name@) is None,
        given matches Some(value) ==> http::header_value(
            http::headers_view(response.headers@),
            name@,
        ) == Some(value@),
        given is None ==> http::header_value(http::headers_view(response.headers@), name@) is None,
        kind matches Some(value) ==> http::header_value(
            http::headers_view(part.headers@),
            "Content-Type"@,
        ) == Some(value@),
        kind is None ==> http::header_value(
            http::headers_view(part.headers@),
            "Content-Type"@,
        ) is None,
{
}

/// A part and an entity are what they are made of, and so is an error of the
/// protocol, which is not worth another try.
pub proof fn law_build_part_and_entity(
    body: Vec<u8>,
    first: Part,
    name: &str,
    value: &str,
    second: Part,
    content_type: &str,
    entity: Entity,
    message: String,
    e: TransportError,
)
    requires
        call_ensures(Part::new, (body,), first),
        call_ensures(Part::header, (first, name, value), second),
        call_ensures(Entity::new, (content_type, body), entity),
        call_ensures(error::protocol_error, (message,), e),
    ensures
        first.body@ == body@ && second.body@ == body@,
        first.headers@.len() == 0,
        second.headers@.len() == 1 && second.headers@[0].0@ == name@ && second.headers@[0].1@
            == value@,
        entity.content_type@ == content_type@ && entity.body@ == body@,
        e.message@ == message@ && !e.retryable,
{
    assert(http::headers_view(first.headers@).len() == first.headers@.len());
    assert(http::headers_view(second.headers@).len() == second.headers@.len());
    assert(http::headers_view(second.headers@)[0] == (
        second.headers@[0].0@,
        second.headers@[0].1@,
    ));
    assert(second@.headers == first@.headers.push((name@, value@)));
    assert(second@.body == first@.body);
    assert(entity@.content_type == content_type@);
}

/// A copy is what it was copied from.
pub proof fn law_copies(
    entity: &Entity,
    entity_copy: Entity,
    m: &Message,
    message_copy: Message,
    receipt: &Mdn,
    receipt_copy: Mdn,
    e: &TransportError,
    error_copy: TransportError,
)
    requires
        call_ensures(<Entity as Clone>::clone, (entity,), entity_copy),
        call_ensures(<Message as Clone>::clone, (m,), message_copy),
        call_ensures(<Mdn as Clone>::clone, (receipt,), receipt_copy),
        call_ensures(<TransportError as Clone>::clone, (e,), error_copy),
    ensures
        entity_copy.content_type@ == entity.content_type@ && entity_copy.body@ == entity.body@,
        message_copy.from@ == m.from@ && message_copy.to@ == m.to@ && message_copy.message_id@
            == m.message_id@ && message_copy.entity.body@ == m.entity.body@
            && message_copy.entity.content_type@ == m.entity.content_type@ && text::optional(
            message_copy.notification_to,
        ) == text::optional(m.notification_to) && text::optional(message_copy.micalg)
            == text::optional(m.micalg),
        receipt_copy.original_message_id@ == receipt.original_message_id@
            && receipt_copy.recipient@ == receipt.recipient@ && receipt_copy.disposition@
            == receipt.disposition@ && mdn::mic_view(receipt_copy.mic) == mdn::mic_view(receipt.mic),
        error_copy.message@ == e.message@ && error_copy.retryable == e.retryable,
{
    assert(message_copy@.entity == m@.entity);
    assert(message_copy@.notification_to == m@.notification_to);
    assert(message_copy@.micalg == m@.micalg);
    assert(receipt_copy@.mic == receipt@.mic);
}

} // verus!
