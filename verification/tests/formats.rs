use as2::base64::{decode, encode};
use as2::http::{Request, Response};
use as2::mime::{media_type, parameter, Part};
use as2::multipart::{read, to_text, Refusal};
use as2::text::{find_byte, trimmed};

fn base64_of(bytes: &[u8]) -> String {
    encode(bytes).into_iter().collect()
}

fn bytes_of(text: &str) -> Option<Vec<u8>> {
    let chars: Vec<char> = text.chars().collect();
    decode(&chars)
}

#[test]
fn base_64_is_written_as_the_rfc_writes_it() {
    assert_eq!(base64_of(b""), "");
    assert_eq!(base64_of(b"f"), "Zg==");
    assert_eq!(base64_of(b"fo"), "Zm8=");
    assert_eq!(base64_of(b"foo"), "Zm9v");
    assert_eq!(base64_of(b"foob"), "Zm9vYg==");
    assert_eq!(base64_of(b"fooba"), "Zm9vYmE=");
    assert_eq!(base64_of(b"foobar"), "Zm9vYmFy");
    assert_eq!(base64_of(&[0xfb, 0xff, 0xbf]), "+/+/");
}

#[test]
fn base_64_reads_back() {
    let all: Vec<u8> = (0..=255).collect();
    for end in [0, 1, 2, 3, 4, 5, 253, 254, 255, 256] {
        assert_eq!(bytes_of(&base64_of(&all[..end])), Some(all[..end].to_vec()));
    }
}

#[test]
fn what_encoding_does_not_write_is_not_base_64() {
    assert_eq!(bytes_of("Zg"), None);
    assert_eq!(bytes_of("Zh=="), None);
    assert_eq!(bytes_of("Zm9="), None);
    assert_eq!(bytes_of("Z==="), None);
    assert_eq!(bytes_of("===="), None);
    assert_eq!(bytes_of("Zg==Zg=="), None);
    assert_eq!(bytes_of("Zm9v "), None);
    assert_eq!(bytes_of("Zm-v"), None);
    assert_eq!(bytes_of("not base64!"), None);
}

#[test]
fn a_content_type_names_its_media_type_and_parameters() {
    assert_eq!(media_type(" Text/Plain ; charset=x"), "text/plain");
    assert_eq!(media_type(""), "");
    assert_eq!(parameter("a/b; x=1; Y = two ", "y"), Some("two".to_string()));
    assert_eq!(parameter("a/b; x=\"1; 2\"; y=3", "X"), Some("1; 2".to_string()));
    assert_eq!(parameter("a/b; x=\"1; y=2\"; y=3", "y"), Some("3".to_string()));
    assert_eq!(parameter("a/b; x", "x"), None);
    assert_eq!(parameter("a/b", "x"), None);
}

#[test]
fn parts_read_back_off_the_body_they_were_written_in() {
    let parts = vec![
        Part::new(b"one\r\n--b in the middle\r\n".to_vec()).header("Content-Type", "text/plain"),
        Part::new(vec![0, 255, 13, 10, 13]).header("A", "b: c").header("a", ""),
        Part::new(Vec::new()),
    ];
    let body = as2::multipart::write("b", &parts);
    assert_eq!(read(&body, "b"), Ok(parts));
    assert_eq!(as2::multipart::write("b", &Vec::new()), b"--b--\r\n");
    assert_eq!(read(b"--b--\r\n", "b"), Ok(Vec::new()));
}

#[test]
fn a_body_is_read_between_its_delimiters() {
    let body = b"preamble\r\n--b \t\r\nK: v\r\n\r\nhi\r\n--b--  \r\nepilogue";
    let parts = read(body, "b").expect("read");
    assert_eq!(parts.len(), 1);
    assert_eq!(parts[0].headers, vec![("K".to_string(), "v".to_string())]);
    assert_eq!(parts[0].body, b"hi");
    assert_eq!(parts[0].content_type(), None);
    let bare = read(b"--b\n\nhi\n--b--", "b").expect("read");
    assert_eq!(bare[0].body, b"hi");
}

#[test]
fn a_body_without_its_delimiters_is_refused() {
    assert_eq!(read(b"nothing", "b"), Err(Refusal::NoBoundary));
    assert_eq!(read(b"", "b"), Err(Refusal::NoBoundary));
    assert_eq!(read(b"--b\r\n\r\nhi", "b"), Err(Refusal::NotClosed));
    assert_eq!(Refusal::NoBoundary.to_text(), "a multipart body without its boundary");
    assert_eq!(Refusal::NotClosed.to_text(), "a multipart body that is not closed");
}

#[test]
fn what_is_not_utf_8_is_replaced() {
    assert_eq!(to_text("grüße".as_bytes()), "grüße");
    assert_eq!(to_text(b"a\xffb"), "a\u{fffd}b");
}

#[test]
fn headers_are_found_whatever_their_case() {
    let request = Request::new("GET", "/").header("X-One", "1").header("x-one", "2");
    assert_eq!(request.header_value("x-ONE"), Some("1"));
    assert_eq!(request.header_value("X-Two"), None);
    let response = Response::new(204).header("X-One", "1").body(b"b");
    assert_eq!(response.header_value("x-one"), Some("1"));
    assert_eq!(response.status, 204);
    assert_eq!(response.body, b"b");
}

#[test]
fn white_space_of_every_script_is_trimmed() {
    let padded: Vec<char> = "\u{3000}\u{85} a b\u{2003}\t\r\n".chars().collect();
    assert_eq!(trimmed(&padded).iter().collect::<String>(), "a b");
    let zero: Vec<char> = "\u{200b}a".chars().collect();
    assert_eq!(trimmed(&zero), zero.as_slice());
    assert_eq!(find_byte(b"abc", b'c'), 2);
    assert_eq!(find_byte(b"abc", b'd'), 3);
}
