use as2::error::TransportError;
use as2::mdn::{NOTIFICATION, REPORT};
use as2::mime::Part;
use as2::{Entity, Mdn};

const BOUNDARY: &str = "=_xmip_1";

fn refused(message: &str) -> TransportError {
    TransportError { message: message.to_string(), retryable: false }
}

#[test]
fn a_receipt_reads_back_off_the_entity_it_wrote() {
    let mdn = Mdn::processed("<1@buyer>", "Seller", vec![1, 2, 3, 250], "sha-256");
    let entity = mdn.entity(BOUNDARY);
    assert!(entity.content_type.starts_with("multipart/report"));
    assert!(entity.body.starts_with(b"--=_xmip_"));
    let read = Mdn::from_entity(&entity).expect("read");
    assert_eq!(read, mdn);
    assert!(read.is_processed());
}

#[test]
fn an_answer_that_is_not_a_report_is_refused() {
    assert!(Mdn::from_entity(&Entity::new("text/plain", b"ok".to_vec())).is_err());
    assert!(Mdn::from_entity(&Entity::new(REPORT, b"no boundary".to_vec())).is_err());
    let hollow = Entity::new(
        &format!("{REPORT}; boundary=b"),
        b"--b\r\nContent-Type: text/plain\r\n\r\nhi\r\n--b--\r\n".to_vec(),
    );
    assert!(Mdn::from_entity(&hollow).is_err());
    let theirs = Entity::new(
        "Multipart/Report; Report-Type=disposition-notification; Boundary = \"q r\"",
        b"--q r\r\nContent-Type: text/plain\r\n\r\nok\r\n--q r\r\n\
          Content-Type: Message/Disposition-Notification\r\n\r\n\
          Original-Message-ID: <9@partner-x>\r\nDisposition: a; processed\r\n\r\n--q r--\r\n"
            .to_vec(),
    );
    let read = Mdn::from_entity(&theirs).expect("a partner's casing and spacing");
    assert_eq!(read.original_message_id, "<9@partner-x>");
    assert!(read.is_processed());
    let failed = Mdn {
        disposition: "automatic-action/MDN-sent-automatically; processed/error: bad".into(),
        ..Mdn::processed("<1@x>", "y", vec![], "sha-256")
    };
    assert!(!failed.is_processed());
    assert!(!Mdn::from_entity(&failed.entity(BOUNDARY)).expect("read").is_processed());
}

#[test]
fn the_mic_travels_in_base_64_and_one_that_is_not_is_no_mic() {
    let mdn = Mdn::processed("<1@buyer>", "Seller", vec![1, 2, 3], "sha-256");
    let entity = mdn.entity(BOUNDARY);
    let body = String::from_utf8(entity.body.clone()).expect("text");
    assert!(body.contains("Received-Content-MIC: AQID, sha-256"), "{body}");
    let wrong = Entity::new(
        &entity.content_type.clone(),
        body.replace("AQID", "not base64!").into_bytes(),
    );
    assert_eq!(Mdn::from_entity(&wrong).expect("read").mic, None);
}

#[test]
fn a_receipt_is_written_to_the_letter() {
    let entity = Mdn::processed("<1@buyer>", "Seller", vec![1, 2, 3], "sha-256").entity("b");
    assert_eq!(
        entity.content_type,
        "multipart/report; report-type=disposition-notification; boundary=\"b\""
    );
    assert_eq!(
        String::from_utf8(entity.body).expect("text"),
        "--b\r\nContent-Type: text/plain\r\n\r\nThe message was processed.\r\n\
         --b\r\nContent-Type: message/disposition-notification\r\n\r\n\
         Reporting-UA: xmip\r\nOriginal-Recipient: rfc822; Seller\r\n\
         Final-Recipient: rfc822; Seller\r\nOriginal-Message-ID: <1@buyer>\r\n\
         Disposition: automatic-action/MDN-sent-automatically; processed\r\n\
         Received-Content-MIC: AQID, sha-256\r\n\r\n--b--\r\n"
    );
}

#[test]
fn a_receipt_without_a_mic_or_a_success_is_written_so() {
    let mdn = Mdn {
        original_message_id: "<2@buyer>".to_string(),
        recipient: "Seller".to_string(),
        disposition: "a; failed".to_string(),
        mic: None,
    };
    let entity = mdn.entity("b");
    let body = String::from_utf8(entity.body.clone()).expect("text");
    assert!(body.contains("The message was not processed."));
    assert!(!body.contains("Received-Content-MIC"));
    assert_eq!(Mdn::from_entity(&entity).expect("read"), mdn);
}

#[test]
fn each_thing_wrong_with_a_report_has_its_own_words() {
    assert_eq!(
        Mdn::from_entity(&Entity::new("text/plain", vec![])),
        Err(refused("an answer that is not an MDN: text/plain"))
    );
    assert_eq!(
        Mdn::from_entity(&Entity::new(REPORT, vec![])),
        Err(refused("a multipart report with no boundary"))
    );
    let typed = format!("{REPORT}; boundary=b");
    assert_eq!(
        Mdn::from_entity(&Entity::new(&typed, b"nothing\r\n".to_vec())),
        Err(refused("a multipart body without its boundary"))
    );
    assert_eq!(
        Mdn::from_entity(&Entity::new(&typed, b"--b\r\n\r\nhi".to_vec())),
        Err(refused("a multipart body that is not closed"))
    );
    assert_eq!(
        Mdn::from_entity(&Entity::new(&typed, b"--b\r\n\r\nhi\r\n--b--".to_vec())),
        Err(refused("a report with no disposition notification in it"))
    );
    let silent = vec![Part::new(b"Disposition: a\r\n".to_vec()).header("Content-Type", NOTIFICATION)];
    assert_eq!(
        Mdn::from_parts(&silent),
        Err(refused("a notification with no Original-Message-ID"))
    );
}

#[test]
fn what_a_notification_leaves_out_is_empty() {
    let read = Mdn::from_notification("ORIGINAL-MESSAGE-ID :  <3@x>  \n").expect("read");
    assert_eq!(read.original_message_id, "<3@x>");
    assert_eq!(read.recipient, "");
    assert_eq!(read.disposition, "");
    assert_eq!(read.mic, None);
    assert!(!read.is_processed());
}

#[test]
fn the_first_field_of_a_name_counts() {
    let read = Mdn::from_notification(
        "no field\r\nOriginal-Message-ID: <1@x>\r\nOriginal-Message-ID: <2@x>\r\n\
         Final-Recipient: Seller\r\nReceived-Content-MIC: AQID\r\n",
    )
    .expect("read");
    assert_eq!(read.original_message_id, "<1@x>");
    assert_eq!(read.recipient, "");
    assert_eq!(read.mic, None);
}

#[test]
fn a_receipt_comes_back_trimmed_and_its_digest_in_lower_case() {
    let padded = Mdn {
        original_message_id: " <1@x> ".to_string(),
        recipient: "\tSeller".to_string(),
        disposition: "a; processed ".to_string(),
        mic: Some((vec![255; 4], " SHA-256".to_string())),
    };
    let read = Mdn::from_entity(&padded.entity("b")).expect("read");
    assert_eq!(
        read,
        Mdn {
            original_message_id: "<1@x>".to_string(),
            recipient: "Seller".to_string(),
            disposition: "a; processed".to_string(),
            mic: Some((vec![255; 4], "sha-256".to_string())),
        }
    );
    assert_ne!(read, padded);
    assert_eq!(Mdn::from_entity(&read.entity("other")).expect("again"), read);
}

#[test]
fn the_last_word_of_a_disposition_decides() {
    let saying = |disposition: &str| Mdn {
        disposition: disposition.to_string(),
        ..Mdn::processed("<1@x>", "y", vec![], "sha-256")
    };
    assert!(saying("processed").is_processed());
    assert!(saying("a; b;\tPROCESSED ").is_processed());
    assert!(!saying("processed; failed").is_processed());
    assert!(!saying("processed;").is_processed());
    assert!(!saying("").is_processed());
}

#[test]
fn a_notification_that_is_not_utf_8_is_read_all_the_same() {
    let mut body = b"--b\r\nContent-Type: message/disposition-notification\r\n\r\n".to_vec();
    body.extend_from_slice(b"Original-Message-ID: <\xff@x>\r\nDisposition: processed\r\n\r\n--b--\r\n");
    let read = Mdn::from_entity(&Entity::new(&format!("{REPORT}; boundary=b"), body)).expect("read");
    assert_eq!(read.original_message_id, "<\u{fffd}@x>");
    assert!(read.is_processed());
}

#[test]
fn the_boundarys_text_inside_a_part_splits_nothing() {
    let mdn = Mdn::processed("<--b@b--b>", "b", vec![9], "sha-256");
    assert_eq!(Mdn::from_entity(&mdn.entity("b")).expect("read"), mdn);
}

#[test]
fn a_copy_of_a_receipt_is_the_receipt() {
    let mdn = Mdn::processed("<1@x>", "y", vec![7], "sha-256");
    assert_eq!(mdn.clone(), mdn);
}
