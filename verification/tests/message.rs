use std::time::{Duration, SystemTime};

use as2::error::TransportError;
use as2::http::Request;
use as2::message::{message_id, message_id_at, mic, next_message_id, requested_micalg};
use as2::{Entity, Message, Numbers};

fn refused(message: &str) -> TransportError {
    TransportError { message: message.to_string(), retryable: false }
}

fn partners() -> Request {
    Request::new("POST", "/as2")
        .header("AS2-From", "a")
        .header("AS2-To", "b")
        .header("Message-ID", "<1@x>")
}

#[test]
fn a_message_reads_back_off_the_request_it_wrote() {
    let entity = Entity::new("application/edi-x12", b"ISA*00*".to_vec());
    let mut numbers = Numbers::new();
    let message = Message::new("Buyer", "Seller", "sha-256", entity, &mut numbers);
    let request = message.request("as2.seller:8080", "/as2");
    assert_eq!(request.header_value("AS2-From"), Some("Buyer"));
    assert_eq!(request.header_value("Host"), Some("as2.seller:8080"));
    assert!(request
        .header_value("Disposition-Notification-Options")
        .expect("asked")
        .ends_with("sha-256"));
    let read = Message::from_request(&request).expect("read");
    assert_eq!(read, message);
    assert!(read.wants_receipt());
    assert!(read.message_id.starts_with('<'));
    assert_ne!(
        message.message_id,
        Message::new("a", "b", "sha-256", Entity::new("t", vec![]), &mut numbers).message_id
    );
}

#[test]
fn a_post_without_the_partner_headers_is_refused() {
    let request = Request::new("POST", "/as2").body(b"ISA");
    assert!(Message::from_request(&request).is_err());
    let get = Request::new("GET", "/as2")
        .header("AS2-From", "a")
        .header("AS2-To", "b")
        .header("Message-ID", "<1@x>");
    assert!(Message::from_request(&get).is_err());
    let bare = Request::new("POST", "/as2")
        .header("AS2-From", "a")
        .header("AS2-To", "b")
        .header("Message-ID", "<1@x>");
    let message = Message::from_request(&bare).expect("read");
    assert!(!message.wants_receipt());
    assert_eq!(message.entity.content_type, "application/octet-stream");
}

#[test]
fn the_mic_is_sha_256_over_the_body_and_nothing_else_is_spoken() {
    let digest = mic("sha-256", b"ISA").expect("digested");
    assert_eq!(digest.len(), 32);
    assert_eq!(mic("SHA256", b"ISA").expect("digested"), digest);
    assert!(mic("md5", b"ISA").is_err());
    assert_eq!(
        requested_micalg(
            "signed-receipt-protocol=optional, pkcs7-signature; \
             signed-receipt-micalg=optional, SHA-256"
        ),
        Some("sha-256".to_string())
    );
    assert_eq!(requested_micalg("nothing"), None);
}

#[test]
fn the_mic_is_the_published_digest() {
    assert_eq!(
        mic("sha-256", b"abc").expect("digested"),
        vec![
            0xba, 0x78, 0x16, 0xbf, 0x8f, 0x01, 0xcf, 0xea, 0x41, 0x41, 0x40, 0xde, 0x5d, 0xae, 0x22,
            0x23, 0xb0, 0x03, 0x61, 0xa3, 0x96, 0x17, 0x7a, 0x9c, 0xb4, 0x10, 0xff, 0x61, 0xf2, 0x00,
            0x15, 0xad,
        ]
    );
    assert_eq!(
        mic("MD5", b"abc"),
        Err(refused("a receipt digest this transport does not compute: md5"))
    );
}

#[test]
fn each_missing_header_is_named() {
    let get = Request::new("GET", "/as2");
    assert_eq!(
        Message::from_request(&get),
        Err(refused("an AS2 message is a POST, not a GET"))
    );
    let none = Request::new("POST", "/as2");
    assert_eq!(
        Message::from_request(&none),
        Err(refused("a POST with no AS2-From header"))
    );
    let from = Request::new("POST", "/as2").header("as2-from", "a");
    assert_eq!(
        Message::from_request(&from),
        Err(refused("a POST with no AS2-To header"))
    );
    let both = Request::new("POST", "/as2").header("AS2-From", "a").header("AS2-To", "b");
    assert_eq!(
        Message::from_request(&both),
        Err(refused("a POST with no Message-ID header"))
    );
    let hollow = Request::new("POST", "/as2").header("AS2-From", "").header("AS2-To", "b");
    assert_eq!(
        Message::from_request(&hollow),
        Err(refused("a POST with no AS2-From header"))
    );
}

#[test]
fn a_request_is_written_header_by_header() {
    let message = Message::identified(
        "Buyer",
        "Seller",
        "sha-256",
        Entity::new("t", vec![1]),
        "<1@x>".to_string(),
    );
    let request = message.request("h:1", "/in");
    assert_eq!(request.method, "POST");
    assert_eq!(request.path, "/in");
    assert_eq!(request.body, vec![1]);
    let written: Vec<(&str, &str)> =
        request.headers.iter().map(|(k, v)| (k.as_str(), v.as_str())).collect();
    assert_eq!(
        written,
        vec![
            ("Host", "h:1"),
            ("AS2-Version", "1.2"),
            ("AS2-From", "Buyer"),
            ("AS2-To", "Seller"),
            ("Message-ID", "<1@x>"),
            ("Content-Type", "t"),
            ("Disposition-Notification-To", "Buyer"),
            (
                "Disposition-Notification-Options",
                "signed-receipt-protocol=optional, pkcs7-signature; \
                 signed-receipt-micalg=optional, sha-256"
            ),
        ]
    );
}

#[test]
fn a_message_that_asks_for_nothing_reads_back_too() {
    let message = Message {
        notification_to: None,
        micalg: None,
        ..Message::identified("a", "b", "", Entity::new("t", vec![]), "<1@x>".to_string())
    };
    let request = message.request("h", "/");
    assert_eq!(request.headers.len(), 6);
    let read = Message::from_request(&request).expect("read");
    assert_eq!(read, message);
    assert!(!read.wants_receipt());
    assert_eq!(message.clone(), message);
}

#[test]
fn a_digest_asked_for_in_upper_case_comes_back_in_lower() {
    let message =
        Message::identified("a", "b", " SHA-256", Entity::new("t", vec![]), "<1@x>".to_string());
    let read = Message::from_request(&message.request("h", "/")).expect("read");
    assert_eq!(read.micalg, Some("sha-256".to_string()));
    let two = Message::identified("a", "b", "md5, sha-256", Entity::new("t", vec![]), "<1@x>".to_string());
    let read = Message::from_request(&two.request("h", "/")).expect("read");
    assert_eq!(read.micalg, Some("md5".to_string()));
}

#[test]
fn the_second_item_of_the_first_micalg_is_what_is_asked_for() {
    assert_eq!(
        requested_micalg("signed-receipt-micalg=optional, sha-256; signed-receipt-micalg=optional, md5"),
        Some("sha-256".to_string())
    );
    assert_eq!(
        requested_micalg("signed-receipt-micalg=required,sha256,md5"),
        Some("sha256".to_string())
    );
    assert_eq!(
        requested_micalg("signed-receipt-micalg=optional; signed-receipt-micalg=optional, md5"),
        None
    );
    assert_eq!(requested_micalg("Signed-Receipt-Micalg=optional, md5"), None);
    assert_eq!(requested_micalg(""), None);
}

#[test]
fn the_options_of_a_request_are_read() {
    let asked = partners()
        .header("Disposition-Notification-To", "a")
        .header("Disposition-Notification-Options", "signed-receipt-micalg=optional, SHA256")
        .header("Content-Type", "application/edifact")
        .body(b"UNB");
    let message = Message::from_request(&asked).expect("read");
    assert_eq!(message.notification_to, Some("a".to_string()));
    assert_eq!(message.micalg, Some("sha256".to_string()));
    assert_eq!(message.entity, Entity::new("application/edifact", b"UNB".to_vec()));
}

#[test]
fn a_message_id_says_when_and_which() {
    assert_eq!(message_id(0, 0), "<0.0@xmip>");
    assert_eq!(message_id(1700000000123456789, 42), "<1700000000123456789.42@xmip>");
    assert_eq!(
        message_id(u128::MAX, u64::MAX),
        "<340282366920938463463374607431768211455.18446744073709551615@xmip>"
    );
    assert_ne!(message_id(1, 12), message_id(11, 2));
}

#[test]
fn a_message_id_holds_what_the_clock_shows_and_the_number() {
    let mut numbers = Numbers::new();
    let first = next_message_id(&mut numbers);
    let second = next_message_id(&mut numbers);
    assert!(first.ends_with(".1@xmip>"), "{first}");
    assert!(second.ends_with(".2@xmip>"), "{second}");
    let nanos: u128 = first
        .trim_start_matches('<')
        .split('.')
        .next()
        .expect("a number")
        .parse()
        .expect("digits");
    // Well after the start of this century, and well before its end.
    assert!(nanos > 946_684_800_000_000_000, "{first}");
    assert!(nanos < 4_102_444_800_000_000_000, "{first}");
}

#[test]
fn a_clock_before_the_epoch_shows_nothing() {
    assert_eq!(message_id_at(Ok(Duration::new(3, 5)), 1), "<3000000005.1@xmip>");
    let early = SystemTime::UNIX_EPOCH.duration_since(SystemTime::UNIX_EPOCH + Duration::from_secs(1));
    assert!(early.is_err());
    assert_eq!(message_id_at(early, 2), "<0.2@xmip>");
}

#[test]
fn numbers_are_handed_out_once() {
    let mut numbers = Numbers::new();
    let drawn: Vec<u64> = (0..5).map(|_| numbers.next()).collect();
    assert_eq!(drawn, vec![1, 2, 3, 4, 5]);
    let ids: Vec<String> = (0..100).map(|_| next_message_id(&mut numbers)).collect();
    for (i, id) in ids.iter().enumerate() {
        assert!(id.starts_with('<'), "{id}");
        assert!(!ids[..i].contains(id), "{id}");
    }
}
