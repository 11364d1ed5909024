//! Multipart bodies as RFC 2046 section 5.1 writes them.
//!
//! A body is read line by line: a delimiter is a whole line, two hyphens and
//! the boundary at its start and nothing but padding after it, so a part may
//! hold the boundary's text anywhere else.
use vstd::prelude::*;

use crate::http::HeadersView;
use crate::{lemmas, mime};
use crate::mime::{Part, PartView};
use crate::text;
use crate::text::{chars_of, find_byte, find_char, same_bytes, text_of, trimmed};

verus! {

/// The byte that ends a line.
pub const LF: u8 = 10;

/// The byte that may stand before it.
pub const CR: u8 = 13;

/// Why a body does not read as a multipart body.
#[derive(Clone, Copy, Debug, PartialEq, Eq)]
pub enum Refusal {
    /// No line of the body is a delimiter.
    NoBoundary,
    /// No closing delimiter follows the last part.
    NotClosed,
}

impl Refusal {
    /// The refusal in words.
    pub open spec fn words(self) -> Seq<char> {
        match self {
            Refusal::NoBoundary => "a multipart body without its boundary"@,
            Refusal::NotClosed => "a multipart body that is not closed"@,
        }
    }

    /// The refusal in words.
    #[must_use]
    pub fn to_text(&self) -> (words: String)
        ensures
            words@ == self.words(),
    {
        match self {
            Refusal::NoBoundary => "a multipart body without its boundary".to_string(),
            Refusal::NotClosed => "a multipart body that is not closed".to_string(),
        }
    }
}

/// The header block of a part: one header to a line.
pub open spec fn header_lines(headers: HeadersView) -> Seq<char>
    decreases headers.len(),
{
    if headers.len() == 0 {
        seq![]
    } else {
        headers[0].0 + ": "@ + headers[0].1 + "\r\n"@ + header_lines(headers.skip(1))
    }
}

/// What stands before the body of a part: the delimiter, the headers and an
/// empty line.
pub open spec fn part_head(boundary: Seq<char>, headers: HeadersView) -> Seq<char> {
    "--"@ + boundary + "\r\n"@ + header_lines(headers) + "\r\n"@
}

/// The body that holds `parts`, delimited by `boundary`.
pub open spec fn written(boundary: Seq<char>, parts: Seq<PartView>) -> Seq<u8>
    decreases parts.len(),
{
    if parts.len() == 0 {
        vstd::utf8::encode_utf8("--"@ + boundary + "--\r\n"@)
    } else {
        vstd::utf8::encode_utf8(part_head(boundary, parts[0].headers)) + parts[0].body
            + vstd::utf8::encode_utf8("\r\n"@) + written(boundary, parts.skip(1))
    }
}

/// What a line of a multipart body is.
pub enum Mark {
    /// The delimiter that a part follows.
    Open,
    /// The delimiter that closes the body.
    Close,
    /// A line of a part, or one outside them.
    Text,
}

/// `line` without the padding at its end.
pub open spec fn unpadded(line: Seq<u8>) -> Seq<u8>
    decreases line.len(),
{
    if line.len() > 0 && (line.last() == 32 || line.last() == 9 || line.last() == CR) {
        unpadded(line.drop_last())
    } else {
        line
    }
}

/// What a line is, under a boundary.
pub open spec fn mark(line: Seq<u8>, boundary: Seq<char>) -> Mark {
    if unpadded(line) == vstd::utf8::encode_utf8("--"@ + boundary) {
        Mark::Open
    } else if unpadded(line) == vstd::utf8::encode_utf8("--"@ + boundary + "--"@) {
        Mark::Close
    } else {
        Mark::Text
    }
}

/// The index of the first line that is a delimiter, or the number of lines.
pub open spec fn find_mark(lines: Seq<Seq<u8>>, boundary: Seq<char>) -> int
    decreases lines.len(),
{
    if lines.len() == 0 || !(mark(lines[0], boundary) is Text) {
        0
    } else {
        1 + find_mark(lines.skip(1), boundary)
    }
}

/// `line` without the carriage return at its end.
pub open spec fn bare(line: Seq<u8>) -> Seq<u8> {
    if line.len() > 0 && line.last() == CR {
        line.drop_last()
    } else {
        line
    }
}

/// Bytes as text, what is not UTF-8 among them replaced.
pub uninterp spec fn repaired(bytes: Seq<u8>) -> Seq<char>;

/// Bytes as text: decoded where they are UTF-8, and otherwise with what is
/// not replaced.
pub open spec fn text_from(bytes: Seq<u8>) -> Seq<char> {
    if vstd::utf8::valid_utf8(bytes) {
        vstd::utf8::decode_utf8(bytes)
    } else {
        repaired(bytes)
    }
}

/// The headers that the lines of a header block hold. A line without a colon
/// holds none.
pub open spec fn headers_in(lines: Seq<Seq<u8>>) -> HeadersView
    decreases lines.len(),
{
    if lines.len() == 0 {
        seq![]
    } else {
        match text::split_once(text_from(bare(lines[0])), ':') {
            Some((name, value)) => seq![(text::trim(name), text::trim(value))] + headers_in(
                lines.skip(1),
            ),
            None => headers_in(lines.skip(1)),
        }
    }
}

/// The index of the first empty line, or the number of lines.
pub open spec fn find_empty(lines: Seq<Seq<u8>>) -> int
    decreases lines.len(),
{
    if lines.len() == 0 || bare(lines[0]).len() == 0 {
        0
    } else {
        1 + find_empty(lines.skip(1))
    }
}

/// The part that stands in `lines`, which a delimiter follows: the line
/// break before a delimiter belongs to the delimiter. The headers end at the
/// first empty line.
pub open spec fn part_in(lines: Seq<Seq<u8>>) -> PartView {
    let end = find_empty(lines);
    PartView {
        headers: headers_in(lines.take(end)),
        body: if end < lines.len() {
            bare(text::join(lines.skip(end + 1), LF))
        } else {
            seq![]
        },
    }
}

/// The parts in `lines`, which follow a delimiter.
pub open spec fn parts_in(lines: Seq<Seq<u8>>, boundary: Seq<char>) -> Result<
    Seq<PartView>,
    Refusal,
>
    decreases lines.len(),
{
    let end = find_mark(lines, boundary);
    if !(0 <= end < lines.len()) {
        Err(Refusal::NotClosed)
    } else {
        let first = seq![part_in(lines.take(end))];
        if mark(lines[end], boundary) is Close {
            Ok(first)
        } else {
            match parts_in(lines.skip(end + 1), boundary) {
                Ok(rest) => Ok(first + rest),
                Err(refusal) => Err(refusal),
            }
        }
    }
}

/// The parts of a body, delimited by `boundary`. What stands before the first
/// delimiter and after the closing one is no part.
pub open spec fn parts_of(body: Seq<u8>, boundary: Seq<char>) -> Result<Seq<PartView>, Refusal> {
    let lines = text::split(body, LF);
    let start = find_mark(lines, boundary);
    if start == lines.len() {
        Err(Refusal::NoBoundary)
    } else if mark(lines[start], boundary) is Close {
        Ok(seq![])
    } else {
        parts_in(lines.skip(start + 1), boundary)
    }
}

/// The lines that `lines` holds.
spec fn rows(lines: Seq<Vec<u8>>) -> Seq<Seq<u8>> {
    lines.map_values(|line: Vec<u8>| line@)
}

fn push_bytes(out: &mut Vec<u8>, bytes: &[u8])
    ensures
        final(out)@ == old(out)@ + bytes@,
{
    out.extend_from_slice(bytes);
    assert(out@ =~= old(out)@ + bytes@);
}

/// The body that holds `parts`, delimited by `boundary`.
#[must_use]
pub fn write(boundary: &str, parts: &Vec<Part>) -> (body: Vec<u8>)
    ensures
        body@ == written(boundary@, mime::parts_view(parts@)),
{
    let mut body: Vec<u8> = Vec::new();
    let ghost all = mime::parts_view(parts@);
    let mut i: usize = 0;
    assert(all.skip(0) =~= all);
    while i < parts.len()
        invariant
            i <= parts@.len(),
            all == mime::parts_view(parts@),
            written(boundary@, all) =~= body@ + written(boundary@, all.skip(i as int)),
        decreases parts@.len() - i,
    {
        assert(all.skip(i as int)[0] == parts@[i as int]@);
        assert(all.skip(i as int).skip(1) =~= all.skip(i + 1));
        let head = head_of(boundary, &parts[i].headers);
        push_bytes(&mut body, head.as_str().as_bytes());
        push_bytes(&mut body, &parts[i].body);
        push_bytes(&mut body, "\r\n".as_bytes());
        i += 1;
    }
    let mut close = "--".to_string();
    close.append(boundary);
    close.append("--\r\n");
    push_bytes(&mut body, close.as_str().as_bytes());
    body
}

/// What stands before the body of a part.
fn head_of(boundary: &str, headers: &Vec<(String, String)>) -> (head: String)
    ensures
        head@ == part_head(boundary@, crate::http::headers_view(headers@)),
{
    let mut head = "--".to_string();
    head.append(boundary);
    head.append("\r\n");
    let ghost all = crate::http::headers_view(headers@);
    let ghost before = head@;
    let mut i: usize = 0;
    assert(all.skip(0) =~= all);
    while i < headers.len()
        invariant
            i <= headers@.len(),
            all == crate::http::headers_view(headers@),
            before + header_lines(all) =~= head@ + header_lines(all.skip(i as int)),
        decreases headers@.len() - i,
    {
        assert(all.skip(i as int)[0] == (headers@[i as int].0@, headers@[i as int].1@));
        assert(all.skip(i as int).skip(1) =~= all.skip(i + 1));
        head.append(&headers[i].0);
        head.append(": ");
        head.append(&headers[i].1);
        head.append("\r\n");
        i += 1;
    }
    head.append("\r\n");
    head
}

/// `String::from_utf8_lossy`: the text that the bytes encode where they are
/// UTF-8, and otherwise a text that depends on the bytes alone. How it
/// replaces what is not UTF-8 is left to the standard library.
#[verifier::external_body]
fn utf8_lossy(bytes: &[u8]) -> (decoded: String)
    ensures
        decoded@ == (if vstd::utf8::valid_utf8(bytes@) {
            vstd::utf8::decode_utf8(bytes@)
        } else {
            repaired(bytes@)
        }),
{
    String::from_utf8_lossy(bytes).into_owned()
}

/// Bytes as text, what is not UTF-8 among them replaced.
#[must_use]
pub fn to_text(bytes: &[u8]) -> (decoded: String)
    ensures
        decoded@ == text_from(bytes@),
{
    utf8_lossy(bytes)
}

/// The lines of a body, each with the carriage return it may end in.
fn lines_of(body: &[u8]) -> (lines: Vec<Vec<u8>>)
    ensures
        rows(lines@) == text::split(body@, LF),
{
    let mut lines: Vec<Vec<u8>> = Vec::new();
    let mut rest: &[u8] = body;
    loop
        invariant
            text::split(body@, LF) =~= rows(lines@) + text::split(rest@, LF),
        decreases rest@.len(),
    {
        let end = find_byte(rest, LF);
        let ghost before = lines@;
        lines.push(vstd::slice::slice_to_vec(&rest[0..end]));
        assert(rest@.subrange(0, end as int) =~= rest@.take(end as int));
        assert(rows(lines@) =~= rows(before).push(rest@.take(end as int)));
        if end == rest.len() {
            assert(rest@.take(end as int) =~= rest@);
            return lines;
        }
        assert(rest@.subrange(end + 1, rest@.len() as int) =~= rest@.skip(end + 1));
        rest = &rest[end + 1..rest.len()];
    }
}

fn without_padding(line: &[u8]) -> (l: &[u8])
    ensures
        l@ == unpadded(line@),
{
    let mut end: usize = line.len();
    assert(line@.take(end as int) =~= line@);
    while end > 0 && (line[end - 1] == 32 || line[end - 1] == 9 || line[end - 1] == CR)
        invariant
            end <= line@.len(),
            unpadded(line@.take(end as int)) == unpadded(line@),
        decreases end,
    {
        assert(line@.take(end as int).drop_last() =~= line@.take(end - 1));
        end -= 1;
    }
    assert(line@.subrange(0, end as int) =~= line@.take(end as int));
    &line[0..end]
}

fn without_return(line: &[u8]) -> (l: &[u8])
    ensures
        l@ == bare(line@),
{
    if line.len() > 0 && line[line.len() - 1] == CR {
        assert(line@.subrange(0, line@.len() - 1) =~= line@.drop_last());
        &line[0..line.len() - 1]
    } else {
        line
    }
}

/// What a line is, `open` and `close` being the delimiters.
fn mark_of(line: &[u8], open: &[u8], close: &[u8], Ghost(boundary): Ghost<Seq<char>>) -> (m: Mark)
    requires
        open@ == vstd::utf8::encode_utf8("--"@ + boundary),
        close@ == vstd::utf8::encode_utf8("--"@ + boundary + "--"@),
    ensures
        m == mark(line@, boundary),
{
    let plain = without_padding(line);
    if same_bytes(plain, open) {
        Mark::Open
    } else if same_bytes(plain, close) {
        Mark::Close
    } else {
        Mark::Text
    }
}

/// The index of the first delimiter, and what it is.
fn next_mark(lines: &[Vec<u8>], open: &[u8], close: &[u8], Ghost(boundary): Ghost<Seq<char>>) -> (r: (
    usize,
    Mark,
))
    requires
        open@ == vstd::utf8::encode_utf8("--"@ + boundary),
        close@ == vstd::utf8::encode_utf8("--"@ + boundary + "--"@),
    ensures
        r.0 == find_mark(rows(lines@), boundary),
        r.0 <= lines@.len(),
        r.0 < lines@.len() ==> r.1 == mark(rows(lines@)[r.0 as int], boundary) && !(r.1 is Text),
{
    let ghost all = rows(lines@);
    let mut i: usize = 0;
    assert(all.skip(0) =~= all);
    while i < lines.len()
        invariant
            i <= lines@.len(),
            all == rows(lines@),
            open@ == vstd::utf8::encode_utf8("--"@ + boundary),
            close@ == vstd::utf8::encode_utf8("--"@ + boundary + "--"@),
            find_mark(all, boundary) == i + find_mark(all.skip(i as int), boundary),
        decreases lines@.len() - i,
    {
        assert(all.skip(i as int)[0] == lines@[i as int]@);
        match mark_of(&lines[i], open, close, Ghost(boundary)) {
            Mark::Text => {
                assert(all.skip(i as int).skip(1) =~= all.skip(i + 1));
                i += 1;
            },
            found => return (i, found),
        }
    }
    (i, Mark::Text)
}

/// The lines put together again.
fn joined(lines: &[Vec<u8>]) -> (bytes: Vec<u8>)
    ensures
        bytes@ == text::join(rows(lines@), LF),
{
    let ghost all = rows(lines@);
    let mut bytes: Vec<u8> = Vec::new();
    let mut i: usize = 0;
    assert(all.skip(0) =~= all);
    while i < lines.len()
        invariant
            i <= lines@.len(),
            all == rows(lines@),
            text::join(all, LF) =~= bytes@ + text::join(all.skip(i as int), LF),
        decreases lines@.len() - i,
    {
        assert(all.skip(i as int)[0] == lines@[i as int]@);
        assert(all.skip(i as int).skip(1) =~= all.skip(i + 1));
        push_bytes(&mut bytes, &lines[i]);
        if i + 1 < lines.len() {
            bytes.push(LF);
        } else {
            assert(all.skip(i + 1) =~= seq![]);
        }
        i += 1;
    }
    bytes
}

/// The headers that the lines of a header block hold.
fn read_headers(lines: &[Vec<u8>]) -> (headers: Vec<(String, String)>)
    ensures
        crate::http::headers_view(headers@) == headers_in(rows(lines@)),
{
    let ghost all = rows(lines@);
    let mut headers: Vec<(String, String)> = Vec::new();
    let mut i: usize = 0;
    assert(all.skip(0) =~= all);
    while i < lines.len()
        invariant
            i <= lines@.len(),
            all == rows(lines@),
            headers_in(all) =~= crate::http::headers_view(headers@) + headers_in(
                all.skip(i as int),
            ),
        decreases lines@.len() - i,
    {
        assert(all.skip(i as int)[0] == lines@[i as int]@);
        assert(all.skip(i as int).skip(1) =~= all.skip(i + 1));
        let line = chars_of(&to_text(without_return(&lines[i])));
        let colon = find_char(&line, ':');
        if colon < line.len() {
            assert(line@.subrange(0, colon as int) =~= line@.take(colon as int));
            assert(line@.subrange(colon + 1, line@.len() as int) =~= line@.skip(colon + 1));
            let name = text_of(trimmed(&line[0..colon]));
            let value = text_of(trimmed(&line[colon + 1..line.len()]));
            let ghost before = headers@;
            headers.push((name, value));
            assert(crate::http::headers_view(headers@) =~= crate::http::headers_view(before).push(
                (name@, value@),
            ));
        }
        i += 1;
    }
    headers
}

/// The part that stands in `lines`.
fn read_part(lines: &[Vec<u8>]) -> (part: Part)
    ensures
        part@ == part_in(rows(lines@)),
{
    let ghost all = rows(lines@);
    let mut end: usize = 0;
    assert(all.skip(0) =~= all);
    while end < lines.len() && without_return(&lines[end]).len() != 0
        invariant
            end <= lines@.len(),
            all == rows(lines@),
            find_empty(all) == end + find_empty(all.skip(end as int)),
        decreases lines@.len() - end,
    {
        assert(all.skip(end as int)[0] == lines@[end as int]@);
        assert(all.skip(end as int).skip(1) =~= all.skip(end + 1));
        end += 1;
    }
    proof {
        if end < lines@.len() {
            assert(all.skip(end as int)[0] == lines@[end as int]@);
        }
    }
    let head: &[Vec<u8>] = &lines[0..end];
    assert(rows(head@) =~= all.take(end as int));
    let body = if end < lines.len() {
        let rest: &[Vec<u8>] = &lines[end + 1..lines.len()];
        assert(rows(rest@) =~= all.skip(end + 1));
        vstd::slice::slice_to_vec(without_return(&joined(rest)))
    } else {
        Vec::new()
    };
    Part { headers: read_headers(head), body }
}

/// The parts of a body, delimited by `boundary`.
///
/// # Errors
/// Where no line of the body is a delimiter, or none closes it.
pub fn read(body: &[u8], boundary: &str) -> (parts: Result<Vec<Part>, Refusal>)
    ensures
        parts_of(body@, boundary@) == (match parts {
            Ok(p) => Ok(mime::parts_view(p@)),
            Err(refusal) => Err(refusal),
        }),
{
    let mut open = "--".to_string();
    open.append(boundary);
    let mut close = "--".to_string();
    close.append(boundary);
    close.append("--");
    let open = open.as_str().as_bytes();
    let close = close.as_str().as_bytes();
    let lines = lines_of(body);
    let ghost all = rows(lines@);
    let mut parts: Vec<Part> = Vec::new();
    assert(mime::parts_view(parts@) =~= seq![]);
    let (start, first) = next_mark(&lines, open, close, Ghost(boundary@));
    if start == lines.len() {
        return Err(Refusal::NoBoundary);
    }
    if let Mark::Close = first {
        return Ok(parts);
    }
    let mut rest: &[Vec<u8>] = &lines[start + 1..lines.len()];
    assert(rows(rest@) =~= all.skip(start + 1));
    loop
        invariant
            open@ == vstd::utf8::encode_utf8("--"@ + boundary@),
            close@ == vstd::utf8::encode_utf8("--"@ + boundary@ + "--"@),
            parts_of(body@, boundary@) == (match parts_in(rows(rest@), boundary@) {
                Ok(more) => Ok(mime::parts_view(parts@) + more),
                Err(refusal) => Err(refusal),
            }),
        decreases rest@.len(),
    {
        let (end, found) = next_mark(rest, open, close, Ghost(boundary@));
        if end == rest.len() {
            return Err(Refusal::NotClosed);
        }
        let ghost before = parts@;
        let own: &[Vec<u8>] = &rest[0..end];
        assert(rows(own@) =~= rows(rest@).take(end as int));
        let part = read_part(own);
        parts.push(part);
        assert(mime::parts_view(parts@) =~= mime::parts_view(before) + seq![part@]);
        if let Mark::Close = found {
            return Ok(parts);
        }
        let ghost lines_left = rows(rest@);
        rest = &rest[end + 1..rest.len()];
        assert(rows(rest@) =~= lines_left.skip(end + 1));
        proof {
            if parts_in(rows(rest@), boundary@) is Ok {
                let more = parts_in(rows(rest@), boundary@)->Ok_0;
                assert(mime::parts_view(before) + (seq![part@] + more) =~= mime::parts_view(parts@)
                    + more);
            }
        }
    }
}

/// Whether a boundary can delimit parts: it is on one line, and does not end
/// in what would pass for padding.
pub open spec fn is_boundary(boundary: Seq<char>) -> bool {
    &&& !boundary.contains('\n')
    &&& boundary.len() > 0 ==> boundary.last() != ' ' && boundary.last() != '\t'
        && boundary.last() != '\r'
}

/// Whether a header can be written on a line and read off it: its name holds
/// no colon, neither holds a line feed, and neither has white space around it.
pub open spec fn header_fits(header: (Seq<char>, Seq<char>)) -> bool {
    &&& !header.0.contains(':')
    &&& on_one_line(header)
    &&& text::trim(header.0) == header.0
    &&& text::trim(header.1) == header.1
}

/// The line of one header, as it is written.
pub open spec fn header_row(header: (Seq<char>, Seq<char>)) -> Seq<u8> {
    vstd::utf8::encode_utf8(header.0 + ": "@ + header.1 + "\r"@)
}

/// The lines of one part, as they are written.
pub open spec fn part_rows(part: PartView) -> Seq<Seq<u8>> {
    part.headers.map_values(|h: (Seq<char>, Seq<char>)| header_row(h)) + seq![seq![CR]]
        + text::split(part.body + seq![CR], LF)
}

/// Whether a part can be written between such delimiters and read back: its
/// headers fit, and none of its lines is a delimiter.
pub open spec fn part_fits(part: PartView, boundary: Seq<char>) -> bool {
    &&& forall|i: int| 0 <= i < part.headers.len() ==> header_fits(#[trigger] part.headers[i])
    &&& forall|i: int|
        0 <= i < part_rows(part).len() ==> mark(#[trigger] part_rows(part)[i], boundary) is Text
}

/// The lines of a whole body, as they are written.
pub open spec fn body_rows(boundary: Seq<char>, parts: Seq<PartView>) -> Seq<Seq<u8>>
    decreases parts.len(),
{
    if parts.len() == 0 {
        seq![vstd::utf8::encode_utf8("--"@ + boundary + "--\r"@), seq![]]
    } else {
        seq![vstd::utf8::encode_utf8("--"@ + boundary + "\r"@)] + part_rows(parts[0]) + body_rows(
            boundary,
            parts.skip(1),
        )
    }
}

/// The bytes of a line break, and of a carriage return.
pub proof fn lemma_line_break()
    ensures
        vstd::utf8::encode_utf8("\r\n"@) == seq![CR, LF],
        vstd::utf8::encode_utf8("\r"@) == seq![CR],
        "\r\n"@ == "\r"@ + seq!['\n'],
        "\r"@ == seq!['\r'],
        vstd::utf8::encode_utf8(seq!['\n']) == seq![LF],
{
    reveal_strlit("\r\n");
    reveal_strlit("\r");
    assert("\r\n"@ =~= "\r"@ + seq!['\n']);
    assert("\r"@ =~= seq!['\r']);
    vstd::utf8::is_ascii_chars_encode_utf8("\r\n"@);
    vstd::utf8::is_ascii_chars_encode_utf8("\r"@);
    vstd::utf8::is_ascii_chars_encode_utf8(seq!['\n']);
    assert(vstd::utf8::encode_utf8("\r\n"@) =~= seq![CR, LF]);
    assert(vstd::utf8::encode_utf8("\r"@) =~= seq![CR]);
    assert(vstd::utf8::encode_utf8(seq!['\n']) =~= seq![LF]);
}

/// A line of text and what follows its line break.
proof fn lemma_line(line: Seq<char>, tail: Seq<u8>)
    requires
        !line.contains('\n'),
    ensures
        text::split(vstd::utf8::encode_utf8(line + "\r\n"@) + tail, LF) == seq![
            vstd::utf8::encode_utf8(line + "\r"@),
        ] + text::split(tail, LF),
        vstd::utf8::encode_utf8(line + "\r"@) == vstd::utf8::encode_utf8(line) + seq![CR],
{
    lemma_line_break();
    lemmas::lemma_encode_concat(line, "\r"@);
    lemmas::lemma_encode_concat(line + "\r"@, seq!['\n']);
    assert(line + "\r\n"@ =~= line + "\r"@ + seq!['\n']);
    let row = vstd::utf8::encode_utf8(line + "\r"@);
    assert(!(line + "\r"@).contains('\n'));
    lemmas::lemma_encode_ascii(line + "\r"@, '\n');
    assert(!row.contains(LF));
    lemmas::lemma_split_once(row, LF, tail);
    assert(vstd::utf8::encode_utf8(line + "\r\n"@) + tail =~= row + seq![LF] + tail);
}

/// Whether a header stands on one line.
pub open spec fn on_one_line(header: (Seq<char>, Seq<char>)) -> bool {
    !header.0.contains('\n') && !header.1.contains('\n')
}

/// The lines of a header block.
pub proof fn lemma_header_rows(headers: HeadersView, tail: Seq<u8>)
    requires
        forall|i: int| 0 <= i < headers.len() ==> on_one_line(#[trigger] headers[i]),
    ensures
        text::split(vstd::utf8::encode_utf8(header_lines(headers)) + tail, LF)
            == headers.map_values(|h: (Seq<char>, Seq<char>)| header_row(h)) + text::split(tail, LF),
    decreases headers.len(),
{
    let rows = headers.map_values(|h: (Seq<char>, Seq<char>)| header_row(h));
    if headers.len() == 0 {
        assert(vstd::utf8::encode_utf8(header_lines(headers)) + tail =~= tail);
        assert(rows + text::split(tail, LF) =~= text::split(tail, LF));
    } else {
        let rest = headers.skip(1);
        assert forall|i: int| 0 <= i < rest.len() implies on_one_line(#[trigger] rest[i]) by {
            assert(rest[i] == headers[i + 1]);
        }
        lemma_header_rows(rest, tail);
        assert(on_one_line(headers[0]));
        reveal_strlit(": ");
        let line = headers[0].0 + ": "@ + headers[0].1;
        assert(!line.contains('\n'));
        let first = line + "\r\n"@;
        assert(header_lines(headers) =~= first + header_lines(rest));
        lemmas::lemma_encode_concat(first, header_lines(rest));
        let after = vstd::utf8::encode_utf8(header_lines(rest)) + tail;
        assert(vstd::utf8::encode_utf8(header_lines(headers)) + tail =~= vstd::utf8::encode_utf8(
            first,
        ) + after);
        lemma_line(line, after);
        assert(rows =~= seq![header_row(headers[0])] + rest.map_values(
            |h: (Seq<char>, Seq<char>)| header_row(h),
        ));
        assert(rows + text::split(tail, LF) =~= seq![header_row(headers[0])] + (rest.map_values(
            |h: (Seq<char>, Seq<char>)| header_row(h),
        ) + text::split(tail, LF)));
    }
}

/// The lines of a written body.
proof fn lemma_body_rows(boundary: Seq<char>, parts: Seq<PartView>)
    requires
        !boundary.contains('\n'),
        forall|i: int, j: int|
            0 <= i < parts.len() && 0 <= j < parts[i].headers.len() ==> on_one_line(
                #[trigger] parts[i].headers[j],
            ),
    ensures
        text::split(written(boundary, parts), LF) == body_rows(boundary, parts),
    decreases parts.len(),
{
    reveal_strlit("--");
    reveal_strlit("--\r\n");
    reveal_strlit("--\r");
    lemma_line_break();
    if parts.len() == 0 {
        let line = "--"@ + boundary + "--"@;
        assert(!line.contains('\n'));
        lemma_line(line, seq![]);
        assert("--"@ + boundary + "--\r\n"@ =~= line + "\r\n"@);
        assert("--"@ + boundary + "--\r"@ =~= line + "\r"@);
        assert(written(boundary, parts) =~= vstd::utf8::encode_utf8(line + "\r\n"@) + Seq::<
            u8,
        >::empty());
        lemmas::lemma_split_none(Seq::<u8>::empty(), LF);
        assert(text::split(written(boundary, parts), LF) =~= body_rows(boundary, parts));
    } else {
        let part = parts[0];
        let rest = parts.skip(1);
        assert forall|i: int, j: int|
            0 <= i < rest.len() && 0 <= j < rest[i].headers.len() implies on_one_line(
            #[trigger] rest[i].headers[j],
        ) by {
            assert(rest[i] == parts[i + 1]);
            assert(on_one_line(parts[i + 1].headers[j]));
        }
        lemma_body_rows(boundary, rest);
        let more = written(boundary, rest);
        // From the last line inwards: the part's body and what follows it.
        let own = part.body + seq![CR];
        lemmas::lemma_split_concat(own, LF, more);
        let from_body = own + seq![LF] + more;
        lemmas::lemma_split_once(seq![CR], LF, from_body);
        let from_empty = seq![CR] + seq![LF] + from_body;
        assert forall|i: int| 0 <= i < part.headers.len() implies on_one_line(
            #[trigger] part.headers[i],
        ) by {
            assert(on_one_line(parts[0].headers[i]));
        }
        lemma_header_rows(part.headers, from_empty);
        let from_headers = vstd::utf8::encode_utf8(header_lines(part.headers)) + from_empty;
        let line = "--"@ + boundary;
        assert(!line.contains('\n'));
        lemma_line(line, from_headers);
        let head = part_head(boundary, part.headers);
        lemmas::lemma_encode_concat(line + "\r\n"@, header_lines(part.headers));
        lemmas::lemma_encode_concat(line + "\r\n"@ + header_lines(part.headers), "\r\n"@);
        assert(written(boundary, parts) =~= vstd::utf8::encode_utf8(line + "\r\n"@)
            + from_headers);
        assert(text::split(written(boundary, parts), LF) =~= body_rows(boundary, parts));
    }
}

/// The last byte of an encoded text, where it is of ASCII, is its last
/// character.
proof fn lemma_encode_last(s: Seq<char>)
    requires
        s.len() > 0,
    ensures
        vstd::utf8::encode_utf8(s).len() > 0,
        vstd::utf8::encode_utf8(s).last() <= 0x7f ==> s.last() as int
            == vstd::utf8::encode_utf8(s).last(),
{
    let last = seq![s.last()];
    let init = s.drop_last();
    lemmas::lemma_encode_concat(init, last);
    assert(s =~= init + last);
    let bytes = vstd::utf8::encode_utf8(last);
    assert(last.drop_first() =~= seq![]);
    assert(vstd::utf8::encode_utf8(last.drop_first()) =~= seq![]);
    assert(bytes =~= vstd::utf8::encode_scalar(s.last() as u32));
    assert(bytes.len() > 0);
    assert(vstd::utf8::encode_utf8(s).last() == bytes.last());
    if bytes.last() <= 0x7f {
        let c = bytes.last() as char;
        assert(bytes.contains(c as u8));
        lemmas::lemma_encode_ascii(last, c);
        assert(last[0] == c);
    }
}

/// A line that does not begin with a hyphen is no delimiter.
pub proof fn lemma_no_mark(line: Seq<u8>, boundary: Seq<char>)
    requires
        line.len() > 0 ==> line[0] != 45,
    ensures
        mark(line, boundary) is Text,
{
    reveal_strlit("--");
    let open = "--"@ + boundary;
    vstd::utf8::is_ascii_chars_encode_utf8("--"@);
    lemmas::lemma_encode_concat("--"@, boundary);
    lemmas::lemma_encode_concat(open, "--"@);
    assert(vstd::utf8::encode_utf8(open)[0] == 45);
    assert(vstd::utf8::encode_utf8(open + "--"@)[0] == 45);
    lemma_unpadded_is_prefix(line);
}

proof fn lemma_unpadded_is_prefix(line: Seq<u8>)
    ensures
        unpadded(line).len() <= line.len(),
        unpadded(line).len() > 0 ==> unpadded(line)[0] == line[0],
    decreases line.len(),
{
    if line.len() > 0 {
        lemma_unpadded_is_prefix(line.drop_last());
    }
}

/// One header more is one line more.
pub proof fn lemma_header_lines_push(headers: HeadersView, name: Seq<char>, value: Seq<char>)
    ensures
        header_lines(headers.push((name, value))) == header_lines(headers) + (name + ": "@ + value
            + "\r\n"@),
    decreases headers.len(),
{
    let all = headers.push((name, value));
    if headers.len() == 0 {
        assert(all.skip(1) =~= seq![]);
        assert(header_lines(all.skip(1)) =~= seq![]);
        assert(header_lines(all) =~= header_lines(headers) + (name + ": "@ + value + "\r\n"@));
    } else {
        lemma_header_lines_push(headers.skip(1), name, value);
        assert(all.skip(1) =~= headers.skip(1).push((name, value)));
        assert(header_lines(all) =~= header_lines(headers) + (name + ": "@ + value + "\r\n"@));
    }
}

/// What does not end in padding is as it is.
proof fn lemma_unpadded(line: Seq<u8>)
    requires
        line.len() > 0 ==> line.last() != 32 && line.last() != 9 && line.last() != CR,
    ensures
        unpadded(line + seq![CR]) == line,
{
    assert((line + seq![CR]).drop_last() =~= line);
    assert((line + seq![CR]).last() == CR);
    assert(unpadded(line) == line);
}

/// The delimiters are what they are for.
proof fn lemma_delimiters(boundary: Seq<char>)
    requires
        is_boundary(boundary),
    ensures
        mark(vstd::utf8::encode_utf8("--"@ + boundary + "\r"@), boundary) is Open,
        mark(vstd::utf8::encode_utf8("--"@ + boundary + "--\r"@), boundary) is Close,
{
    reveal_strlit("--");
    reveal_strlit("--\r");
    lemma_line_break();
    let open = "--"@ + boundary;
    let close = open + "--"@;
    assert("--"@ + boundary + "--\r"@ =~= close + "\r"@);
    lemmas::lemma_encode_concat(open, "\r"@);
    lemmas::lemma_encode_concat(close, "\r"@);
    lemmas::lemma_encode_concat(open, "--"@);
    lemma_encode_last(open);
    lemma_encode_last(close);
    lemma_encode_last("--"@);
    assert(open.last() == (if boundary.len() > 0 {
        boundary.last()
    } else {
        '-'
    }));
    assert(close.last() == '-');
    lemma_unpadded(vstd::utf8::encode_utf8(open));
    lemma_unpadded(vstd::utf8::encode_utf8(close));
    assert(vstd::utf8::encode_utf8(close).len() > vstd::utf8::encode_utf8(open).len());
}

/// The first delimiter stands after lines that are none.
proof fn lemma_find_mark(before: Seq<Seq<u8>>, after: Seq<Seq<u8>>, boundary: Seq<char>)
    requires
        forall|i: int| 0 <= i < before.len() ==> mark(#[trigger] before[i], boundary) is Text,
        after.len() > 0,
        !(mark(after[0], boundary) is Text),
    ensures
        find_mark(before + after, boundary) == before.len(),
    decreases before.len(),
{
    let all = before + after;
    if before.len() == 0 {
        assert(all =~= after);
    } else {
        let rest = before.skip(1);
        assert forall|i: int| 0 <= i < rest.len() implies mark(
            #[trigger] rest[i],
            boundary,
        ) is Text by {
            assert(rest[i] == before[i + 1]);
        }
        assert(mark(before[0], boundary) is Text);
        lemma_find_mark(rest, after, boundary);
        assert(all.skip(1) =~= rest + after);
    }
}

/// The headers that were written are those read.
proof fn lemma_headers_in(headers: HeadersView)
    requires
        forall|i: int| 0 <= i < headers.len() ==> header_fits(#[trigger] headers[i]),
    ensures
        headers_in(headers.map_values(|h: (Seq<char>, Seq<char>)| header_row(h))) == headers,
    decreases headers.len(),
{
    let rows = headers.map_values(|h: (Seq<char>, Seq<char>)| header_row(h));
    if headers.len() == 0 {
        assert(headers_in(rows) =~= headers);
    } else {
        let rest = headers.skip(1);
        assert forall|i: int| 0 <= i < rest.len() implies header_fits(#[trigger] rest[i]) by {
            assert(rest[i] == headers[i + 1]);
        }
        lemma_headers_in(rest);
        assert(rows.skip(1) =~= rest.map_values(|h: (Seq<char>, Seq<char>)| header_row(h)));
        let (name, value) = headers[0];
        assert(header_fits(headers[0]));
        reveal_strlit(": ");
        let line = name + ": "@ + value;
        lemma_line_break();
        lemmas::lemma_encode_concat(line, "\r"@);
        assert(bare(rows[0]) =~= vstd::utf8::encode_utf8(line));
        vstd::utf8::encode_utf8_valid_utf8(line);
        vstd::utf8::encode_utf8_decode_utf8(line);
        assert(text_from(bare(rows[0])) == line);
        assert(line =~= name + seq![':'] + (seq![' '] + value));
        lemmas::lemma_split_once(name, ':', seq![' '] + value);
        assert(seq![' '] + value =~= seq![' '] + value + seq![]);
        lemmas::lemma_trim_padded(seq![' '], value, seq![]);
        assert(headers_in(rows) =~= headers);
    }
}

/// The first empty line stands after lines that are not empty.
proof fn lemma_find_empty(before: Seq<Seq<u8>>, after: Seq<Seq<u8>>)
    requires
        forall|i: int| 0 <= i < before.len() ==> bare(#[trigger] before[i]).len() > 0,
        after.len() > 0,
        bare(after[0]).len() == 0,
    ensures
        find_empty(before + after) == before.len(),
    decreases before.len(),
{
    let all = before + after;
    if before.len() == 0 {
        assert(all =~= after);
    } else {
        let rest = before.skip(1);
        assert forall|i: int| 0 <= i < rest.len() implies bare(#[trigger] rest[i]).len() > 0 by {
            assert(rest[i] == before[i + 1]);
        }
        assert(bare(before[0]).len() > 0);
        lemma_find_empty(rest, after);
        assert(all.skip(1) =~= rest + after);
    }
}

/// A part that was written is the one read.
proof fn lemma_part_in(part: PartView)
    requires
        forall|i: int| 0 <= i < part.headers.len() ==> header_fits(#[trigger] part.headers[i]),
    ensures
        part_in(part_rows(part)) == part,
{
    let rows = part_rows(part);
    let head = part.headers.map_values(|h: (Seq<char>, Seq<char>)| header_row(h));
    let own = part.body + seq![CR];
    let tail = seq![seq![CR]] + text::split(own, LF);
    assert(rows =~= head + tail);
    assert forall|i: int| 0 <= i < head.len() implies bare(#[trigger] head[i]).len() > 0 by {
        let h = part.headers[i];
        reveal_strlit(": ");
        lemma_line_break();
        let line = h.0 + ": "@ + h.1;
        lemmas::lemma_encode_concat(line, "\r"@);
        lemma_encode_last(line);
        assert(head[i] == header_row(h));
    }
    lemma_find_empty(head, tail);
    lemma_headers_in(part.headers);
    assert(rows.take(head.len() as int) =~= head);
    assert(rows.skip(head.len() as int + 1) =~= text::split(own, LF));
    lemmas::lemma_join_split(own, LF);
    assert(own.drop_last() =~= part.body);
}

/// The parts that were written after a delimiter are those read.
proof fn lemma_parts_in(first: PartView, rest: Seq<PartView>, boundary: Seq<char>)
    requires
        is_boundary(boundary),
        part_fits(first, boundary),
        forall|i: int| 0 <= i < rest.len() ==> part_fits(#[trigger] rest[i], boundary),
    ensures
        parts_in(part_rows(first) + body_rows(boundary, rest), boundary) == Ok::<
            Seq<PartView>,
            Refusal,
        >(seq![first] + rest),
    decreases rest.len(),
{
    let rows = part_rows(first);
    let after = body_rows(boundary, rest);
    let all = rows + after;
    lemma_delimiters(boundary);
    lemma_find_mark(rows, after, boundary);
    lemma_part_in(first);
    assert(all.take(rows.len() as int) =~= rows);
    assert(all[rows.len() as int] == after[0]);
    if rest.len() == 0 {
        assert(seq![first] + rest =~= seq![first]);
    } else {
        let more = rest.skip(1);
        assert(part_fits(rest[0], boundary));
        assert forall|i: int| 0 <= i < more.len() implies part_fits(
            #[trigger] more[i],
            boundary,
        ) by {
            assert(more[i] == rest[i + 1]);
        }
        lemma_parts_in(rest[0], more, boundary);
        assert(all.skip(rows.len() as int + 1) =~= part_rows(rest[0]) + body_rows(boundary, more));
        assert(seq![rest[0]] + more =~= rest);
    }
}

/// Parts read back off the body they were written in, where the boundary is
/// fit to delimit them: on one line and not ending in padding, the headers on
/// one line each, and no line of a part itself a delimiter. The boundary's
/// text may stand anywhere else in a part.
pub proof fn law_parts_read_back(boundary: Seq<char>, parts: Seq<PartView>)
    requires
        is_boundary(boundary),
        forall|i: int| 0 <= i < parts.len() ==> part_fits(#[trigger] parts[i], boundary),
    ensures
        parts_of(written(boundary, parts), boundary) == Ok::<Seq<PartView>, Refusal>(parts),
{
    assert forall|i: int, j: int|
        0 <= i < parts.len() && 0 <= j < parts[i].headers.len() implies on_one_line(
        #[trigger] parts[i].headers[j],
    ) by {
        assert(part_fits(parts[i], boundary));
        assert(header_fits(parts[i].headers[j]));
    }
    lemma_body_rows(boundary, parts);
    lemma_delimiters(boundary);
    let lines = body_rows(boundary, parts);
    assert(find_mark(lines, boundary) == 0);
    if parts.len() == 0 {
        assert(parts =~= seq![]);
    } else {
        let rest = parts.skip(1);
        assert(part_fits(parts[0], boundary));
        assert forall|i: int| 0 <= i < rest.len() implies part_fits(
            #[trigger] rest[i],
            boundary,
        ) by {
            assert(rest[i] == parts[i + 1]);
        }
        lemma_parts_in(parts[0], rest, boundary);
        assert(lines.skip(1) =~= part_rows(parts[0]) + body_rows(boundary, rest));
        assert(seq![parts[0]] + rest =~= parts);
    }
}

/// A body is written line by line: for each part the delimiter, its headers
/// one to a line, an empty line and the lines of its own body, and at the end
/// the closing delimiter; each line that is not of a part's own body ends in a
/// carriage return and a line feed.
pub proof fn law_body_is_written_line_by_line(boundary: Seq<char>, parts: Seq<PartView>)
    requires
        !boundary.contains('\n'),
        forall|i: int, j: int|
            0 <= i < parts.len() && 0 <= j < parts[i].headers.len() ==> on_one_line(
                #[trigger] parts[i].headers[j],
            ),
    ensures
        text::split(written(boundary, parts), LF) == body_rows(boundary, parts),
{
    lemma_body_rows(boundary, parts);
}

/// Text that was encoded is the text.
pub proof fn law_text_comes_back(s: Seq<char>)
    ensures
        text_from(vstd::utf8::encode_utf8(s)) == s,
{
    vstd::utf8::encode_utf8_valid_utf8(s);
    vstd::utf8::encode_utf8_decode_utf8(s);
}

/// Whether bytes are padding: spaces, tabs and carriage returns.
pub open spec fn is_padding(bytes: Seq<u8>) -> bool {
    forall|i: int|
        0 <= i < bytes.len() ==> #[trigger] bytes[i] == 32 || bytes[i] == 9 || bytes[i] == 13
}

/// A line is a delimiter where, padding at its end apart, it is two hyphens
/// and the boundary, and the closing one where two hyphens more follow; a line
/// that is anything else is none.
pub proof fn law_delimiter_is_a_whole_line(
    stem: Seq<u8>,
    padding: Seq<u8>,
    boundary: Seq<char>,
)
    requires
        stem.len() > 0 ==> stem.last() != 32 && stem.last() != 9 && stem.last() != 13,
        is_padding(padding),
    ensures
        mark(stem + padding, boundary) is Open <==> stem == vstd::utf8::encode_utf8(
            "--"@ + boundary,
        ),
        mark(stem + padding, boundary) is Close <==> stem == vstd::utf8::encode_utf8(
            "--"@ + boundary + "--"@,
        ),
{
    lemma_padding(stem, padding);
    reveal_strlit("--");
    lemma_encode_last("--"@);
    lemmas::lemma_encode_concat("--"@ + boundary, "--"@);
}

/// Padding is taken off, and nothing else.
proof fn lemma_padding(stem: Seq<u8>, padding: Seq<u8>)
    requires
        stem.len() > 0 ==> stem.last() != 32 && stem.last() != 9 && stem.last() != 13,
        is_padding(padding),
    ensures
        unpadded(stem + padding) == stem,
    decreases padding.len(),
{
    if padding.len() == 0 {
        assert(stem + padding =~= stem);
    } else {
        let less = padding.drop_last();
        assert forall|i: int| 0 <= i < less.len() implies #[trigger] less[i] == 32 || less[i] == 9
            || less[i] == 13 by {
            assert(less[i] == padding[i]);
        }
        lemma_padding(stem, less);
        assert((stem + padding).drop_last() =~= stem + less);
        assert((stem + padding).last() == padding[padding.len() - 1]);
    }
}

/// Whether lines are lines: none holds a line feed.
pub open spec fn are_lines(lines: Seq<Seq<u8>>) -> bool {
    forall|i: int| 0 <= i < lines.len() ==> !(#[trigger] lines[i]).contains(LF)
}

/// Whether none of the lines is a delimiter.
pub open spec fn are_text(lines: Seq<Seq<u8>>, boundary: Seq<char>) -> bool {
    forall|i: int| 0 <= i < lines.len() ==> mark(#[trigger] lines[i], boundary) is Text
}

/// No delimiter among lines that are none.
proof fn lemma_find_no_mark(lines: Seq<Seq<u8>>, boundary: Seq<char>)
    requires
        are_text(lines, boundary),
    ensures
        find_mark(lines, boundary) == lines.len(),
    decreases lines.len(),
{
    if lines.len() > 0 {
        let rest = lines.skip(1);
        assert forall|i: int| 0 <= i < rest.len() implies mark(
            #[trigger] rest[i],
            boundary,
        ) is Text by {
            assert(rest[i] == lines[i + 1]);
        }
        assert(mark(lines[0], boundary) is Text);
        lemma_find_no_mark(rest, boundary);
    }
}

/// Lines of two kinds together are lines.
proof fn lemma_are_lines(a: Seq<Seq<u8>>, b: Seq<Seq<u8>>)
    requires
        are_lines(a),
        are_lines(b),
    ensures
        are_lines(a + b),
{
    assert forall|i: int| 0 <= i < (a + b).len() implies !(#[trigger] (a + b)[i]).contains(LF) by {
        if i < a.len() {
            assert((a + b)[i] == a[i]);
        } else {
            assert((a + b)[i] == b[i - a.len()]);
        }
    }
}

/// What stands before the first delimiter changes nothing, and where there is
/// no delimiter at all the body is refused.
pub proof fn law_preamble_is_ignored(
    before: Seq<Seq<u8>>,
    delimited: Seq<Seq<u8>>,
    boundary: Seq<char>,
)
    requires
        are_lines(before),
        are_text(before, boundary),
        are_lines(delimited),
        delimited.len() > 0 ==> !(mark(delimited[0], boundary) is Text),
        before.len() + delimited.len() > 0,
    ensures
        parts_of(text::join(before + delimited, LF), boundary) == (if delimited.len() > 0 {
            parts_of(text::join(delimited, LF), boundary)
        } else {
            Err(Refusal::NoBoundary)
        }),
{
    let all = before + delimited;
    lemma_are_lines(before, delimited);
    lemmas::lemma_split_join(all, LF);
    if delimited.len() > 0 {
        lemmas::lemma_split_join(delimited, LF);
        lemma_find_mark(before, delimited, boundary);
        assert(find_mark(delimited, boundary) == 0);
        assert(all.skip(before.len() as int + 1) =~= delimited.skip(1));
    } else {
        assert(all =~= before);
        lemma_find_no_mark(before, boundary);
    }
}

/// What stands after the closing delimiter changes nothing.
pub proof fn law_epilogue_is_ignored(close: Seq<u8>, after: Seq<Seq<u8>>, boundary: Seq<char>)
    requires
        !close.contains(LF),
        mark(close, boundary) is Close,
        are_lines(after),
    ensures
        parts_of(text::join(seq![close] + after, LF), boundary) == Ok::<Seq<PartView>, Refusal>(
            seq![],
        ),
{
    lemma_are_lines(seq![close], after);
    lemmas::lemma_split_join(seq![close] + after, LF);
}

/// The lines from one delimiter to the next are one part, and what begins with
/// that next delimiter is the other parts; where no delimiter follows, the
/// body is not closed.
pub proof fn law_part_stands_between_delimiters(
    open: Seq<u8>,
    own: Seq<Seq<u8>>,
    rest: Seq<Seq<u8>>,
    boundary: Seq<char>,
)
    requires
        !open.contains(LF),
        mark(open, boundary) is Open,
        are_lines(own),
        are_text(own, boundary),
        are_lines(rest),
        rest.len() > 0 ==> !(mark(rest[0], boundary) is Text),
    ensures
        parts_of(text::join(seq![open] + own + rest, LF), boundary) == (if rest.len() == 0 {
            Err(Refusal::NotClosed)
        } else {
            match parts_of(text::join(rest, LF), boundary) {
                Ok(parts) => Ok(seq![part_in(own)] + parts),
                Err(refusal) => Err(refusal),
            }
        }),
{
    let all = seq![open] + own + rest;
    lemma_are_lines(seq![open], own);
    lemma_are_lines(seq![open] + own, rest);
    lemmas::lemma_split_join(all, LF);
    assert(find_mark(all, boundary) == 0);
    let after = own + rest;
    assert(all.skip(1) =~= after);
    if rest.len() == 0 {
        assert(after =~= own);
        lemma_find_no_mark(own, boundary);
    } else {
        lemmas::lemma_split_join(rest, LF);
        lemma_find_mark(own, rest, boundary);
        assert(find_mark(rest, boundary) == 0);
        assert(after.take(own.len() as int) =~= own);
        assert(after[own.len() as int] == rest[0]);
        if mark(rest[0], boundary) is Close {
            assert(seq![part_in(own)] + Seq::<PartView>::empty() =~= seq![part_in(own)]);
        } else {
            assert(after.skip(own.len() as int + 1) =~= rest.skip(1));
        }
    }
}

/// A part is its headers, an empty line and its body: the body is every byte
/// between that line and the line break before the next delimiter, whatever
/// the headers are.
pub proof fn law_part_is_read(
    head: Seq<Seq<u8>>,
    empty: Seq<u8>,
    content: Seq<u8>,
)
    requires
        forall|i: int|
            0 <= i < head.len() ==> (#[trigger] head[i]).len() > 0 && head[i] != seq![CR],
        empty == Seq::<u8>::empty() || empty == seq![CR],
    ensures
        part_in(head + seq![empty] + text::split(content + seq![CR], LF)).body == content,
        (content.len() > 0 ==> content.last() != CR) ==> part_in(
            head + seq![empty] + text::split(content, LF),
        ).body == content,
        part_in(head + seq![empty] + text::split(content, LF)).headers == headers_in(head),
        part_in(head).headers == headers_in(head),
        part_in(head).body.len() == 0,
{
    assert forall|i: int| 0 <= i < head.len() implies bare(#[trigger] head[i]).len() > 0 by {
        if bare(head[i]).len() == 0 {
            assert(head[i] =~= seq![CR]);
        }
    }
    let own = content + seq![CR];
    lemma_part_parts(head, empty, text::split(own, LF));
    lemma_part_parts(head, empty, text::split(content, LF));
    lemmas::lemma_join_split(own, LF);
    lemmas::lemma_join_split(content, LF);
    assert(own.drop_last() =~= content);
    lemma_find_no_empty(head);
    assert(head.take(head.len() as int) =~= head);
}

/// The headers are what stands before the first empty line, the body what
/// stands after it.
proof fn lemma_part_parts(head: Seq<Seq<u8>>, empty: Seq<u8>, rest: Seq<Seq<u8>>)
    requires
        forall|i: int| 0 <= i < head.len() ==> bare(#[trigger] head[i]).len() > 0,
        bare(empty).len() == 0,
    ensures
        part_in(head + seq![empty] + rest) == (PartView {
            headers: headers_in(head),
            body: bare(text::join(rest, LF)),
        }),
{
    let all = head + seq![empty] + rest;
    let tail = seq![empty] + rest;
    assert(all =~= head + tail);
    lemma_find_empty(head, tail);
    assert(all.take(head.len() as int) =~= head);
    assert(all.skip(head.len() as int + 1) =~= rest);
}

/// No empty line among lines that are not empty.
proof fn lemma_find_no_empty(lines: Seq<Seq<u8>>)
    requires
        forall|i: int| 0 <= i < lines.len() ==> bare(#[trigger] lines[i]).len() > 0,
    ensures
        find_empty(lines) == lines.len(),
    decreases lines.len(),
{
    if lines.len() > 0 {
        let rest = lines.skip(1);
        assert forall|i: int| 0 <= i < rest.len() implies bare(#[trigger] rest[i]).len() > 0 by {
            assert(rest[i] == lines[i + 1]);
        }
        assert(bare(lines[0]).len() > 0);
        lemma_find_no_empty(rest);
    }
}

/// A line of a header block is a header where it holds a colon: the name is
/// what stands before the first, the value what stands after it, white space
/// around each apart, and the lines after it are read all the same. A line
/// without a colon is passed over.
pub proof fn law_header_line_is_read(
    name: Seq<char>,
    value: Seq<char>,
    words: Seq<char>,
    more: Seq<Seq<u8>>,
)
    requires
        !name.contains(':'),
        !words.contains(':'),
        words.len() > 0 ==> words.last() != '\r',
        value.len() > 0 ==> value.last() != '\r',
    ensures
        headers_in(seq![vstd::utf8::encode_utf8(name + ":"@ + value)] + more) == seq![
            (text::trim(name), text::trim(value)),
        ] + headers_in(more),
        headers_in(seq![vstd::utf8::encode_utf8(name + ":"@ + value + "\r"@)] + more) == seq![
            (text::trim(name), text::trim(value)),
        ] + headers_in(more),
        headers_in(seq![vstd::utf8::encode_utf8(words)] + more) == headers_in(more),
        headers_in(seq![vstd::utf8::encode_utf8(words + "\r"@)] + more) == headers_in(more),
        headers_in(Seq::<Seq<u8>>::empty()) == Seq::<(Seq<char>, Seq<char>)>::empty(),
{
    reveal_strlit(":");
    let line = name + ":"@ + value;
    assert(line =~= name + seq![':'] + value);
    lemmas::lemma_split_once(name, ':', value);
    lemmas::lemma_split_none(words, ':');
    lemma_bare_line(line);
    lemma_bare_line(words);
    law_text_comes_back(line);
    law_text_comes_back(words);
    lemma_headers_step(vstd::utf8::encode_utf8(line), more);
    lemma_headers_step(vstd::utf8::encode_utf8(line + "\r"@), more);
    lemma_headers_step(vstd::utf8::encode_utf8(words), more);
    lemma_headers_step(vstd::utf8::encode_utf8(words + "\r"@), more);
}

/// A line of text without its carriage return is the text.
proof fn lemma_bare_line(line: Seq<char>)
    requires
        line.len() > 0 ==> line.last() != '\r',
    ensures
        bare(vstd::utf8::encode_utf8(line)) == vstd::utf8::encode_utf8(line),
        bare(vstd::utf8::encode_utf8(line + "\r"@)) == vstd::utf8::encode_utf8(line),
{
    lemma_line_break();
    lemmas::lemma_encode_concat(line, "\r"@);
    assert((vstd::utf8::encode_utf8(line) + seq![CR]).drop_last() =~= vstd::utf8::encode_utf8(
        line,
    ));
    if line.len() > 0 {
        lemma_encode_last(line);
    }
}

/// The headers of a block are those of its first line and those of the rest.
proof fn lemma_headers_step(line: Seq<u8>, more: Seq<Seq<u8>>)
    ensures
        headers_in(seq![line] + more) == (match text::split_once(text_from(bare(line)), ':') {
            Some((name, value)) => seq![(text::trim(name), text::trim(value))] + headers_in(more),
            None => headers_in(more),
        }),
{
    assert((seq![line] + more).skip(1) =~= more);
}

} // verus!
