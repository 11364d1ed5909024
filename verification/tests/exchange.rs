use std::time::Duration;

use as2::error::TransportError;
use as2::http::{Request, Response};
use as2::loopback::{ME, PARTNER};
use as2::transport::{as_http, check_receipt, origin, settle, verify_entity, Arrived};
use as2::{As2Transport, Entity, Mdn, Message, Numbers, Signer};

const ADDRESS: &str = "127.0.0.1:49152";
const PEER: &str = "127.0.0.1:50000";
const BOUNDARY: &str = "=_xmip_1";

fn secs(n: u64) -> Duration {
    Duration::from_secs(n)
}

fn refused(message: &str) -> TransportError {
    TransportError { message: message.to_string(), retryable: false }
}

/// One message from the near end to the far end and its answer back.
fn exchange(
    near: &As2Transport,
    far: &As2Transport,
    payload: &[u8],
) -> (Result<Arrived, TransportError>, Result<(), TransportError>) {
    let out = near.prepare(ADDRESS, "/as2", payload, &mut Numbers::new()).expect("prepared");
    let settled = far.respond(PEER, Ok(Some(&out.request)), BOUNDARY);
    let answer = settled.answer.expect("an answer");
    let heard = near.verify_receipt(&answer, answer.status == 503, &out.message, &out.mic);
    (settled.arrived, heard)
}

fn round(both: &As2Transport, payload: &[u8]) -> Result<Arrived, TransportError> {
    let far = both.unsigned_twin();
    let near = both.near_end(ADDRESS, "/as2", secs(2));
    let (arrived, heard) = exchange(&near, &far, payload);
    heard?;
    arrived
}

fn seller() -> As2Transport {
    As2Transport::new("as2://127.0.0.1:0/as2", "Seller", "Buyer").timing_out_after(secs(2))
}

fn buyer() -> As2Transport {
    As2Transport::new("http://127.0.0.1:49152/as2", "Buyer", "Seller").timing_out_after(secs(2))
}

#[test]
fn a_message_is_posted_and_its_receipt_carries_the_mic_back() {
    let loopback = As2Transport::loopback(secs(2));
    let first = round(&loopback, b"ISA*00*").expect("first");
    assert_eq!(first.bytes, b"ISA*00*");
    assert!(first.origin_uri.starts_with("as2://127.0.0.1:"));
    assert!(first.origin_uri.contains("/as2?from=Buyer&message-id="));
    let long = vec![0x2a; 200_000];
    assert_eq!(round(&loopback, &long).expect("second").bytes, long);
    assert!(round(&loopback, b"").expect("third").bytes.is_empty());
    assert_eq!(loopback.name(), "as2");
}

#[test]
fn a_target_may_name_the_partners_endpoint_itself() {
    let sender = As2Transport::new("as2://127.0.0.1:0/as2", "Buyer", "Seller");
    assert_eq!(sender.resolve("http://127.0.0.1:49152/as2"), "http://127.0.0.1:49152/as2");
    assert_eq!(sender.resolve("as2s://host/in"), "https://host/in");
    assert_eq!(sender.resolve(""), "http://127.0.0.1:0/as2");
    let (arrived, heard) = exchange(&sender, &seller(), b"ISA");
    assert_eq!(arrived.expect("named").bytes, b"ISA");
    heard.expect("sent");
}

#[test]
fn the_loopback_returns_the_edges_whole() {
    let loopback = As2Transport::loopback(secs(2));
    let edges: [(&str, Vec<u8>); 6] = [
        ("empty", Vec::new()),
        ("one byte", vec![0x2a]),
        ("every byte", (0..=255).collect()),
        ("nul run", vec![0; 512]),
        ("high bytes", vec![0xff; 512]),
        ("crlf storm", b"\r\n".repeat(400)),
    ];
    for (name, payload) in edges {
        assert_eq!(round(&loopback, &payload).expect(name).bytes, payload, "{name}");
    }
}

#[test]
fn a_post_that_is_not_as2_is_answered_400_and_refused() {
    let post = Request::new("POST", "/as2")
        .header("Host", "x")
        .header("Content-Length", "3")
        .body(b"ISA");
    let settled = seller().respond(PEER, Ok(Some(&post)), BOUNDARY);
    let error = settled.arrived.expect_err("not AS2");
    assert!(!error.retryable);
    let answer = settled.answer.expect("an answer");
    assert_eq!(answer.status, 400);
    assert_eq!(answer.body, b"a POST with no AS2-From header");
}

#[test]
fn a_message_for_another_partner_is_refused_and_the_sender_hears_it() {
    let sender = As2Transport::new("as2://127.0.0.1:49152/as2", "Buyer", "Somebody")
        .timing_out_after(secs(2));
    let (arrived, heard) = exchange(&sender, &seller(), b"ISA");
    assert_eq!(
        arrived,
        Err(refused("a message for Somebody, and this partner is Seller"))
    );
    let error = heard.expect_err("refused");
    assert!(!error.retryable);
    assert!(error.message.contains("400"), "{}", error.message);
}

#[test]
fn a_receipt_that_does_not_match_is_not_a_delivery() {
    let out = buyer().prepare(ADDRESS, "/as2", b"ISA", &mut Numbers::new()).expect("prepared");
    let message = Message::from_request(&out.request).expect("as2");
    let wrong = Mdn::processed(&message.message_id, "Seller", vec![0; 32], "sha-256");
    let entity = wrong.entity(BOUNDARY);
    let answer =
        Response::new(200).header("Content-Type", &entity.content_type).body(&entity.body);
    let error = buyer()
        .verify_receipt(&answer, false, &out.message, &out.mic)
        .expect_err("wrong MIC");
    assert!(error.message.contains("MIC"), "{}", error.message);
    assert!(!error.retryable);
    let error = buyer()
        .verify_receipt(&Response::new(503), true, &out.message, &out.mic)
        .expect_err("busy");
    assert!(error.retryable, "{}", error.message);
    assert_eq!(error.message, "the partner answered 503");
}

#[test]
fn an_answer_carries_its_receipt_under_the_partners_names() {
    let out = buyer().prepare(ADDRESS, "/as2", b"ISA", &mut Numbers::new()).expect("prepared");
    let (message, entity, answer) = seller().take(&out.request, BOUNDARY).expect("taken");
    assert_eq!(message, out.message);
    assert_eq!(entity, Entity::new("application/octet-stream", b"ISA".to_vec()));
    assert_eq!(answer.status, 200);
    assert_eq!(answer.header_value("AS2-Version"), Some("1.2"));
    assert_eq!(answer.header_value("AS2-From"), Some("Seller"));
    assert_eq!(answer.header_value("AS2-To"), Some("Buyer"));
    assert_eq!(
        answer.header_value("content-type"),
        Some("multipart/report; report-type=disposition-notification; boundary=\"=_xmip_1\"")
    );
    let body = String::from_utf8(answer.body).expect("text");
    assert!(
        body.contains(
            "Received-Content-MIC: kvEirFwvvvGcGBLyzOLEhvnTyeFHyZK3cFS7RTYyLD8=, sha-256\r\n"
        ),
        "{body}"
    );
}

#[test]
fn a_message_that_asks_for_no_receipt_gets_a_bare_answer() {
    let post = Request::new("POST", "/as2")
        .header("AS2-From", "Buyer")
        .header("AS2-To", "Seller")
        .header("Message-ID", "<1.2@buyer>")
        .body(b"ISA");
    let settled = seller().respond(PEER, Ok(Some(&post)), BOUNDARY);
    assert_eq!(settled.answer, Some(Response::new(200)));
    let arrived = settled.arrived.expect("arrived");
    assert_eq!(arrived.bytes, b"ISA");
    assert_eq!(
        arrived.origin_uri,
        "as2://127.0.0.1:50000/as2?from=Buyer&message-id=1.2@buyer"
    );
}

#[test]
fn a_receipt_asked_for_without_a_digest_is_in_sha_256() {
    let post = Request::new("POST", "/as2")
        .header("AS2-From", "Buyer")
        .header("AS2-To", "Seller")
        .header("Message-ID", "<1@buyer>")
        .header("Disposition-Notification-To", "Buyer")
        .body(b"ISA");
    let message = seller().addressed(&post).expect("for this partner");
    let receipt = seller().receipt_for(&message, &message.entity).expect("owed").expect("asked");
    assert_eq!(receipt.recipient, "Seller");
    assert_eq!(receipt.original_message_id, "<1@buyer>");
    assert_eq!(
        receipt.mic,
        Some((as2::message::mic("sha-256", b"ISA").expect("digested"), "sha-256".to_string()))
    );
}

#[test]
fn a_receipt_asked_for_in_an_unknown_digest_is_refused() {
    let post = Request::new("POST", "/as2")
        .header("AS2-From", "Buyer")
        .header("AS2-To", "Seller")
        .header("Message-ID", "<1@buyer>")
        .header("Disposition-Notification-To", "Buyer")
        .header("Disposition-Notification-Options", "signed-receipt-micalg=optional, md5");
    let settled = seller().respond(PEER, Ok(Some(&post)), BOUNDARY);
    assert_eq!(
        settled.arrived,
        Err(refused("a receipt digest this transport does not compute: md5"))
    );
    assert_eq!(settled.answer.expect("an answer").status, 400);
}

#[test]
fn a_partner_that_sends_nothing_is_answered_400_and_refused() {
    let settled = seller().respond(PEER, Ok(None), BOUNDARY);
    assert_eq!(
        settled.answer,
        Some(Response::new(400).body(b"a partner that connected and sent nothing"))
    );
    assert_eq!(
        settled.arrived,
        Err(refused("a partner that connected and sent nothing"))
    );
}

#[test]
fn a_connection_that_breaks_is_answered_before_the_error_is_heard() {
    let broken = TransportError { message: "reset by peer".to_string(), retryable: true };
    let settled = seller().respond(PEER, Err(broken.clone()), BOUNDARY);
    assert_eq!(settled.answer, Some(Response::new(503).body(b"reset by peer")));
    assert_eq!(settled.arrived, Err(broken));
    let settled = seller().respond(PEER, Err(refused("not HTTP")), BOUNDARY);
    assert_eq!(settled.answer, Some(Response::new(400).body(b"not HTTP")));
    assert_eq!(settled.arrived, Err(refused("not HTTP")));
}

#[test]
fn messages_drawn_in_turn_carry_different_ids() {
    let mut numbers = Numbers::new();
    let first = buyer().prepare(ADDRESS, "/as2", b"ISA", &mut numbers).expect("prepared");
    let second = seller().prepare(ADDRESS, "/as2", b"ISA", &mut numbers).expect("prepared");
    assert_ne!(first.message.message_id, second.message.message_id);
    assert!(first.message.message_id.ends_with(".1@xmip>"), "{}", first.message.message_id);
    assert!(second.message.message_id.ends_with(".2@xmip>"), "{}", second.message.message_id);
    let (mic, wrapped) = buyer().seal(b"ISA").expect("sealed");
    assert_eq!(mic, first.mic);
    let third = buyer().next_outgoing(ADDRESS, "/as2", mic, wrapped, &mut numbers);
    assert_eq!(third.request.body, b"ISA");
    assert!(third.message.message_id.ends_with(".3@xmip>"), "{}", third.message.message_id);
}

#[test]
fn a_message_that_is_not_signed_uses_up_no_number() {
    let mut numbers = Numbers::new();
    let mute = buyer().signing_with(Box::new(Turning { seals: false }));
    assert!(mute.prepare(ADDRESS, "/as2", b"ISA", &mut numbers).is_err());
    assert_eq!(numbers.next(), 1);
}

#[test]
fn an_error_worth_retrying_is_answered_503() {
    let busy = TransportError { message: "busy".to_string(), retryable: true };
    let settled = settle(PEER, "/as2", Err(busy.clone()));
    assert_eq!(settled.answer, Some(Response::new(503).body(b"busy")));
    assert_eq!(settled.arrived, Err(busy));
}

#[test]
fn each_thing_wrong_with_a_receipt_has_its_own_words() {
    let sent = Message::identified(
        "Buyer",
        "Seller",
        "sha-256",
        Entity::new("t", vec![]),
        "<1@x>".to_string(),
    );
    let good = Mdn::processed("<1@x>", "Seller", vec![1], "sha-256");
    assert_eq!(check_receipt(&good, &sent, &[1]), Ok(()));
    assert_eq!(
        check_receipt(&good, &sent, &[2]),
        Err(refused("the partner's MIC is not the MIC of what was sent"))
    );
    let other = Mdn::processed("<2@x>", "Seller", vec![1], "sha-256");
    assert_eq!(
        check_receipt(&other, &sent, &[1]),
        Err(refused("a receipt for <2@x>, not for <1@x>"))
    );
    let failed = Mdn { disposition: "a; failed".to_string(), ..good.clone() };
    assert_eq!(
        check_receipt(&failed, &sent, &[1]),
        Err(refused("the partner did not process the message: a; failed"))
    );
    let silent = Mdn { mic: None, ..good.clone() };
    assert_eq!(check_receipt(&silent, &sent, &[1]), Err(refused("a receipt with no MIC in it")));
    assert_eq!(verify_entity(&good.entity("b"), &sent, &[1]), Ok(()));
    assert_eq!(
        verify_entity(&Entity::new("", vec![]), &sent, &[1]),
        Err(refused("an answer that is not an MDN: "))
    );
}

#[test]
fn an_answer_without_a_receipt_is_no_delivery() {
    let out = buyer().prepare(ADDRESS, "/as2", b"ISA", &mut Numbers::new()).expect("prepared");
    assert_eq!(
        buyer().verify_receipt(&Response::new(200), false, &out.message, &out.mic),
        Err(refused("an answer that is not an MDN: "))
    );
    assert_eq!(
        buyer().verify_receipt(&Response::new(199), false, &out.message, &out.mic),
        Err(refused("the partner answered 199"))
    );
    assert_eq!(
        buyer().verify_receipt(&Response::new(300), false, &out.message, &out.mic),
        Err(refused("the partner answered 300"))
    );
}

#[test]
fn the_wire_speaks_http() {
    assert_eq!(as_http("as2://h/as2"), "http://h/as2");
    assert_eq!(as_http("as2s://h"), "https://h");
    assert_eq!(as_http("http://h"), "http://h");
    assert_eq!(as_http("AS2://h"), "AS2://h");
    assert_eq!(as_http(&as_http("as2://as2://h")), "http://as2://h");
    assert_eq!(as_http(""), "");
}

#[test]
fn a_partner_keeps_what_it_was_set_up_with() {
    let one = As2Transport::new("as2s://h/in", "a", "b");
    assert_eq!(one.endpoint(), "https://h/in");
    assert_eq!(one.me(), "a");
    assert_eq!(one.partner(), "b");
    assert_eq!(one.timeout(), None);
    let patient = one.timing_out_after(secs(3));
    assert_eq!(patient.timeout(), Some(secs(3)));
    assert_eq!(patient.unsigned_twin().timeout(), Some(secs(3)));
    assert_eq!(patient.near_end("n:1", "/p", secs(9)).timeout(), Some(secs(3)));
    let near = As2Transport::new("as2://h", "a", "b").near_end("n:1", "/p", secs(9));
    assert_eq!(near.endpoint(), "http://n:1/p");
    assert_eq!(near.me(), "b");
    assert_eq!(near.partner(), "a");
    assert_eq!(near.timeout(), Some(secs(9)));
}

#[test]
fn the_loopback_is_seller_and_buyer() {
    let both = As2Transport::loopback(secs(5));
    assert_eq!(both.me(), ME);
    assert_eq!(both.me(), "Seller");
    assert_eq!(both.partner(), PARTNER);
    assert_eq!(both.partner(), "Buyer");
    assert_eq!(both.endpoint(), "http://127.0.0.1:0/as2");
    assert_eq!(both.timeout(), Some(secs(5)));
}

#[test]
fn an_origin_drops_the_brackets_round_the_id() {
    let message = |id: &str| {
        Message::identified("Buyer", "Seller", "sha-256", Entity::new("t", vec![]), id.to_string())
    };
    assert_eq!(
        origin("p:1", "/as2", &message("<<1.2@buyer>")),
        "as2://p:1/as2?from=Buyer&message-id=1.2@buyer"
    );
    assert_eq!(origin("p:1", "", &message("a<b")), "as2://p:1?from=Buyer&message-id=a<b");
}

/// A signer that turns every byte over, and that can be told to fail.
struct Turning {
    seals: bool,
}

impl Signer for Turning {
    fn micalg(&self) -> &'static str {
        "SHA256"
    }

    fn wrap(&self, entity: Entity) -> Result<Entity, TransportError> {
        if !self.seals {
            return Err(TransportError { message: "no key".to_string(), retryable: true });
        }
        let body: Vec<u8> = entity.body.iter().map(|b| !b).collect();
        Ok(Entity::new(&format!("turned/{}", entity.content_type), body))
    }

    fn unwrap(&self, entity: Entity) -> Result<Entity, TransportError> {
        match entity.content_type.strip_prefix("turned/") {
            Some(inner) => Ok(Entity::new(inner, entity.body.iter().map(|b| !b).collect())),
            None => Err(TransportError { message: "not turned".to_string(), retryable: false }),
        }
    }
}

#[test]
fn what_one_signs_the_other_reads() {
    let near = buyer().signing_with(Box::new(Turning { seals: true }));
    let far = seller().signing_with(Box::new(Turning { seals: true }));
    let (arrived, heard) = exchange(&near, &far, b"ISA*00*");
    assert_eq!(arrived.expect("arrived").bytes, b"ISA*00*");
    heard.expect("verified");
    let out = near.prepare(ADDRESS, "/as2", b"\x00", &mut Numbers::new()).expect("prepared");
    assert_eq!(out.request.body, vec![0xff]);
    assert_eq!(out.mic, as2::message::mic("sha-256", b"\x00").expect("digested"));
}

#[test]
fn a_signer_that_refuses_is_heard() {
    let mute = buyer().signing_with(Box::new(Turning { seals: false }));
    assert_eq!(
        mute.prepare(ADDRESS, "/as2", b"ISA", &mut Numbers::new()).err(),
        Some(TransportError { message: "no key".to_string(), retryable: true })
    );
    let (arrived, heard) = exchange(&buyer(), &seller().signing_with(Box::new(Turning { seals: true })), b"ISA");
    assert_eq!(arrived, Err(refused("not turned")));
    assert_eq!(heard, Err(refused("the partner answered 400")));
    let near = buyer().signing_with(Box::new(Turning { seals: true }));
    let far = seller().signing_with(Box::new(Turning { seals: false }));
    let (arrived, heard) = exchange(&near, &far, b"ISA");
    assert_eq!(arrived, Err(TransportError { message: "no key".to_string(), retryable: true }));
    assert_eq!(
        heard,
        Err(TransportError { message: "the partner answered 503".to_string(), retryable: true })
    );
}
