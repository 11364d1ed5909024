//! The Message Disposition Notification: what the receiver answers a
//! message with, RFC 4130 section 7 over RFC 3798.
//!
//! A `multipart/report` of two parts: a human-readable line and a
//! `message/disposition-notification` whose fields say which message this
//! answers, what became of it and the MIC the receiver computed. The sender
//! compares that MIC with its own: matching MICs are the proof the partner
//! got exactly the bytes sent, which is what AS2 exists to give.
use vstd::prelude::*;

use crate::error::{protocol_error, ErrorView, TransportError};
use crate::mime::{media_type, parameter, Part, PartView};
use crate::multipart::{read, to_text};
use crate::signer::{Entity, EntityView};
use crate::text::{chars_of, find_char, lowered, same, text_of, trimmed};
use crate::{base64, error, http, lemmas, mime, multipart, text};

verus! {

/// The `Content-Type` of a receipt before any signature is put around it.
pub const REPORT: &'static str = "multipart/report; report-type=disposition-notification";

/// The media type of the part that carries the notification's fields.
pub const NOTIFICATION: &'static str = "message/disposition-notification";

/// What the receiver reports.
#[derive(Debug, PartialEq, Eq)]
pub struct Mdn {
    /// The `Message-ID` this answers.
    pub original_message_id: String,
    /// The partner reporting, as `AS2-To` named it.
    pub recipient: String,
    /// `processed`, or `processed/error: …` and its kin.
    pub disposition: String,
    /// The MIC the receiver computed and the digest it used.
    pub mic: Option<(Vec<u8>, String)>,
}

/// An [`Mdn`] as a mathematical value.
pub struct MdnView {
    pub original_message_id: Seq<char>,
    pub recipient: Seq<char>,
    pub disposition: Seq<char>,
    pub mic: Option<(Seq<u8>, Seq<char>)>,
}

/// A MIC and its digest as a mathematical value.
pub open spec fn mic_view(mic: Option<(Vec<u8>, String)>) -> Option<(Seq<u8>, Seq<char>)> {
    match mic {
        Some((digest, micalg)) => Some((digest@, micalg@)),
        None => None,
    }
}

impl View for Mdn {
    type V = MdnView;

    open spec fn view(&self) -> MdnView {
        MdnView {
            original_message_id: self.original_message_id@,
            recipient: self.recipient@,
            disposition: self.disposition@,
            mic: mic_view(self.mic),
        }
    }
}

impl Clone for Mdn {
    fn clone(&self) -> (copy: Self)
        ensures
            copy@ == self@,
    {
        Mdn {
            original_message_id: self.original_message_id.clone(),
            recipient: self.recipient.clone(),
            disposition: self.disposition.clone(),
            mic: match &self.mic {
                Some((digest, micalg)) => Some((digest.clone(), micalg.clone())),
                None => None,
            },
        }
    }
}

/// The receipt that says a message was processed.
pub open spec fn receipt(
    original_message_id: Seq<char>,
    recipient: Seq<char>,
    digest: Seq<u8>,
    micalg: Seq<char>,
) -> MdnView {
    MdnView {
        original_message_id,
        recipient,
        disposition: "automatic-action/MDN-sent-automatically; processed"@,
        mic: Some((digest, micalg)),
    }
}

/// Whether a disposition says that the message was processed without error:
/// what follows its last semicolon is `processed` and nothing else.
pub open spec fn says_processed(disposition: Seq<char>) -> bool {
    text::lower(text::trim(text::split(disposition, ';').last())) == "processed"@
}

/// The field that carries the MIC, where there is one.
pub open spec fn mic_field(mic: Option<(Seq<u8>, Seq<char>)>) -> http::HeadersView {
    match mic {
        Some((digest, micalg)) => seq![
            ("Received-Content-MIC"@, base64::encoded(digest) + ", "@ + micalg),
        ],
        None => seq![],
    }
}

/// The fields of the notification.
pub open spec fn fields(mdn: MdnView) -> http::HeadersView {
    seq![
        ("Reporting-UA"@, "xmip"@),
        ("Original-Recipient"@, "rfc822; "@ + mdn.recipient),
        ("Final-Recipient"@, "rfc822; "@ + mdn.recipient),
        ("Original-Message-ID"@, mdn.original_message_id),
        ("Disposition"@, mdn.disposition),
    ] + mic_field(mdn.mic)
}

/// The line for a human reader.
pub open spec fn remark(mdn: MdnView) -> Seq<char> {
    if says_processed(mdn.disposition) {
        "The message was processed."@
    } else {
        "The message was not processed."@
    }
}

/// The two parts of the report.
pub open spec fn report_parts(mdn: MdnView) -> Seq<PartView> {
    seq![
        PartView {
            headers: seq![("Content-Type"@, "text/plain"@)],
            body: vstd::utf8::encode_utf8(remark(mdn)),
        },
        PartView {
            headers: seq![("Content-Type"@, NOTIFICATION@)],
            body: vstd::utf8::encode_utf8(multipart::header_lines(fields(mdn))),
        },
    ]
}

/// The report as an entity, its parts delimited by `boundary`.
pub open spec fn report(mdn: MdnView, boundary: Seq<char>) -> EntityView {
    EntityView {
        content_type: REPORT@ + "; boundary=\""@ + boundary + "\""@,
        body: multipart::written(boundary, report_parts(mdn)),
    }
}

/// The body of the first part that is a disposition notification.
pub open spec fn notification_among(parts: Seq<PartView>) -> Option<Seq<u8>>
    decreases parts.len(),
{
    if parts.len() == 0 {
        None
    } else {
        match http::header_value(parts[0].headers, "Content-Type"@) {
            Some(content_type) if mime::media_type_of(content_type) == NOTIFICATION@ => Some(
                parts[0].body,
            ),
            _ => notification_among(parts.skip(1)),
        }
    }
}

/// The value of the first field of that name among `lines`, whatever the
/// case of its letters, white space trimmed.
pub open spec fn field_among(lines: Seq<Seq<char>>, name: Seq<char>) -> Option<Seq<char>>
    decreases lines.len(),
{
    if lines.len() == 0 {
        None
    } else {
        match text::split_once(lines[0], ':') {
            Some((key, value)) if text::lower(text::trim(key)) == text::lower(name) => Some(
                text::trim(value),
            ),
            _ => field_among(lines.skip(1), name),
        }
    }
}

/// The value of a field of a notification. A line ends in a line feed; a
/// carriage return before it is white space at the end of the value.
pub open spec fn field_in(notification: Seq<char>, name: Seq<char>) -> Option<Seq<char>> {
    field_among(text::split(notification, '\n'), name)
}

/// The MIC and the digest that a `Received-Content-MIC` names, where it is
/// base 64, a comma and a name.
pub open spec fn mic_in(value: Seq<char>) -> Option<(Seq<u8>, Seq<char>)> {
    match text::split_once(value, ',') {
        Some((digest, micalg)) => match base64::decoded(text::trim(digest)) {
            Some(bytes) => Some((bytes, text::lower(text::trim(micalg)))),
            None => None,
        },
        None => None,
    }
}

/// The partner that a `Final-Recipient` names after its address type.
pub open spec fn recipient_in(value: Seq<char>) -> Seq<char> {
    match text::split_once(value, ';') {
        Some((_, who)) => text::trim(who),
        None => seq![],
    }
}

/// What a notification reports, or why it reports nothing.
pub open spec fn notified(notification: Seq<char>) -> Result<MdnView, ErrorView> {
    match field_in(notification, "Original-Message-ID"@) {
        Some(original_message_id) => Ok(
            MdnView {
                original_message_id,
                recipient: match field_in(notification, "Final-Recipient"@) {
                    Some(value) => recipient_in(value),
                    None => seq![],
                },
                disposition: match field_in(notification, "Disposition"@) {
                    Some(value) => value,
                    None => seq![],
                },
                mic: match field_in(notification, "Received-Content-MIC"@) {
                    Some(value) => mic_in(value),
                    None => None,
                },
            },
        ),
        None => Err(error::refused("a notification with no Original-Message-ID"@)),
    }
}

/// What the parts of a report say, or why they say nothing.
pub open spec fn parts_report(parts: Seq<PartView>) -> Result<MdnView, ErrorView> {
    match notification_among(parts) {
        Some(body) => notified(multipart::text_from(body)),
        None => Err(error::refused("a report with no disposition notification in it"@)),
    }
}

/// The boundary that a `multipart/report` names, or why there is none.
pub open spec fn report_boundary(content_type: Seq<char>) -> Result<Seq<char>, ErrorView> {
    if mime::media_type_of(content_type) != "multipart/report"@ {
        Err(error::refused("an answer that is not an MDN: "@ + content_type))
    } else {
        match mime::parameter_of(content_type, "boundary"@) {
            Some(boundary) => Ok(boundary),
            None => Err(error::refused("a multipart report with no boundary"@)),
        }
    }
}

/// What an entity reports, or why it reports nothing.
pub open spec fn reported(entity: EntityView) -> Result<MdnView, ErrorView> {
    match report_boundary(entity.content_type) {
        Ok(boundary) => match multipart::parts_of(entity.body, boundary) {
            Ok(parts) => parts_report(parts),
            Err(refusal) => Err(error::refused(refusal.words())),
        },
        Err(e) => Err(e),
    }
}

impl Mdn {
    /// A receipt saying `original_message_id` was processed, with `mic` in
    /// `micalg` over what arrived.
    #[must_use]
    pub fn processed(
        original_message_id: &str,
        recipient: &str,
        mic: Vec<u8>,
        micalg: &str,
    ) -> (mdn: Self)
        ensures
            mdn@ == receipt(original_message_id@, recipient@, mic@, micalg@),
    {
        Mdn {
            original_message_id: original_message_id.to_string(),
            recipient: recipient.to_string(),
            disposition: "automatic-action/MDN-sent-automatically; processed".to_string(),
            mic: Some((mic, micalg.to_string())),
        }
    }

    /// Whether the receiver says the message was processed without error.
    #[must_use]
    pub fn is_processed(&self) -> (done: bool)
        ensures
            done == says_processed(self@.disposition),
    {
        let chars = chars_of(&self.disposition);
        let mut rest: &[char] = &chars;
        loop
            invariant
                text::split(rest@, ';').last() == text::split(self.disposition@, ';').last(),
            decreases rest@.len(),
        {
            let end = find_char(rest, ';');
            if end == rest.len() {
                return same(&lowered(trimmed(rest)), &chars_of("processed"));
            }
            assert(rest@.subrange(end + 1, rest@.len() as int) =~= rest@.skip(end + 1));
            proof {
                text::lemma_split_len(rest@.skip(end + 1), ';');
            }
            rest = &rest[end + 1..rest.len()];
        }
    }

    /// This receipt as the entity that goes back in the answer, its parts
    /// delimited by `boundary`.
    #[must_use]
    pub fn entity(&self, boundary: &str) -> (entity: Entity)
        ensures
            entity@ == report(self@, boundary@),
    {
        let mut lines = String::new();
        let ghost none: http::HeadersView = seq![];
        let ghost ua = none.push(("Reporting-UA"@, "xmip"@));
        let ghost original = ua.push(("Original-Recipient"@, "rfc822; "@ + self.recipient@));
        let ghost last = original.push(("Final-Recipient"@, "rfc822; "@ + self.recipient@));
        let ghost id = last.push(("Original-Message-ID"@, self.original_message_id@));
        let ghost five = id.push(("Disposition"@, self.disposition@));
        push_field(&mut lines, "Reporting-UA", "xmip", Ghost(none));
        let mut address = "rfc822; ".to_string();
        address.append(&self.recipient);
        push_field(&mut lines, "Original-Recipient", &address, Ghost(ua));
        push_field(&mut lines, "Final-Recipient", &address, Ghost(original));
        push_field(&mut lines, "Original-Message-ID", &self.original_message_id, Ghost(last));
        push_field(&mut lines, "Disposition", &self.disposition, Ghost(id));
        if let Some((digest, micalg)) = &self.mic {
            let mut value = text_of(&base64::encode(digest));
            value.append(", ");
            value.append(micalg);
            push_field(&mut lines, "Received-Content-MIC", &value, Ghost(five));
            assert(fields(self@) =~= five.push(("Received-Content-MIC"@, value@)));
        } else {
            assert(fields(self@) =~= five);
        }
        let remark = if self.is_processed() {
            "The message was processed."
        } else {
            "The message was not processed."
        };
        let first = Part::new(vstd::slice::slice_to_vec(remark.as_bytes())).header(
            "Content-Type",
            "text/plain",
        );
        let second = Part::new(vstd::slice::slice_to_vec(lines.as_str().as_bytes())).header(
            "Content-Type",
            NOTIFICATION,
        );
        let mut parts: Vec<Part> = Vec::new();
        parts.push(first);
        parts.push(second);
        assert(first@.headers =~= report_parts(self@)[0].headers);
        assert(second@.headers =~= report_parts(self@)[1].headers);
        assert(mime::parts_view(parts@) =~= report_parts(self@));
        let mut content_type = REPORT.to_string();
        content_type.append("; boundary=\"");
        content_type.append(boundary);
        content_type.append("\"");
        Entity::new(&content_type, multipart::write(boundary, &parts))
    }

    /// The receipt an entity carries.
    ///
    /// # Errors
    /// Where the entity is not a `multipart/report` with a disposition
    /// notification in it, or the notification lacks its message id.
    pub fn from_entity(entity: &Entity) -> (mdn: Result<Self, TransportError>)
        ensures
            error::outcome(mdn) == reported(entity@),
    {
        let boundary = match boundary_of(&entity.content_type) {
            Ok(boundary) => boundary,
            Err(e) => return Err(e),
        };
        match read(&entity.body, &boundary) {
            Ok(parts) => Mdn::from_parts(&parts),
            Err(refusal) => Err(protocol_error(refusal.to_text())),
        }
    }

    /// The receipt that the parts of a report carry.
    ///
    /// # Errors
    /// Where none of the parts is a disposition notification, or the
    /// notification lacks its message id.
    pub fn from_parts(parts: &Vec<Part>) -> (mdn: Result<Self, TransportError>)
        ensures
            error::outcome(mdn) == parts_report(mime::parts_view(parts@)),
    {
        let ghost all = mime::parts_view(parts@);
        let mut i: usize = 0;
        assert(all.skip(0) =~= all);
        while i < parts.len()
            invariant
                i <= parts@.len(),
                all == mime::parts_view(parts@),
                notification_among(all.skip(i as int)) == notification_among(all),
            decreases parts@.len() - i,
        {
            assert(all.skip(i as int)[0] == parts@[i as int]@);
            if let Some(content_type) = parts[i].content_type() {
                if media_type(content_type) == NOTIFICATION.to_string() {
                    return Mdn::from_notification(&to_text(&parts[i].body));
                }
            }
            assert(all.skip(i as int).skip(1) =~= all.skip(i + 1));
            i += 1;
        }
        Err(protocol_error("a report with no disposition notification in it".to_string()))
    }

    /// The receipt that the fields of a notification carry.
    ///
    /// # Errors
    /// Where the notification lacks its message id.
    pub fn from_notification(notification: &str) -> (mdn: Result<Self, TransportError>)
        ensures
            error::outcome(mdn) == notified(notification@),
    {
        let chars = chars_of(notification);
        let original_message_id = match field(&chars, "Original-Message-ID") {
            Some(id) => text_of(&id),
            None => return Err(
                protocol_error("a notification with no Original-Message-ID".to_string()),
            ),
        };
        let recipient = match field(&chars, "Final-Recipient") {
            Some(value) => {
                let semicolon = find_char(&value, ';');
                if semicolon < value.len() {
                    assert(value@.subrange(semicolon + 1, value@.len() as int) =~= value@.skip(
                        semicolon + 1,
                    ));
                    text_of(trimmed(&value[semicolon + 1..value.len()]))
                } else {
                    String::new()
                }
            },
            None => String::new(),
        };
        let disposition = match field(&chars, "Disposition") {
            Some(value) => text_of(&value),
            None => String::new(),
        };
        let mic = match field(&chars, "Received-Content-MIC") {
            Some(value) => read_mic(&value),
            None => None,
        };
        Ok(Mdn { original_message_id, recipient, disposition, mic })
    }
}

/// Appends one field on a line of its own to those that `lines` holds.
fn push_field(
    lines: &mut String,
    name: &str,
    value: &str,
    Ghost(before): Ghost<http::HeadersView>,
)
    requires
        old(lines)@ == multipart::header_lines(before),
    ensures
        final(lines)@ == multipart::header_lines(before.push((name@, value@))),
{
    proof {
        multipart::lemma_header_lines_push(before, name@, value@);
    }
    lines.append(name);
    lines.append(": ");
    lines.append(value);
    lines.append("\r\n");
    assert(lines@ =~= multipart::header_lines(before.push((name@, value@))));
}

/// The value of the first field of that name in a notification.
fn field(notification: &[char], name: &str) -> (value: Option<Vec<char>>)
    ensures
        field_in(notification@, name@) == (match value {
            Some(chars) => Some(chars@),
            None => None,
        }),
{
    let wanted = lowered(&chars_of(name));
    let mut rest: &[char] = notification;
    loop
        invariant
            wanted@ == text::lower(name@),
            field_among(text::split(rest@, '\n'), name@) == field_in(notification@, name@),
        decreases rest@.len(),
    {
        let end = find_char(rest, '\n');
        let ghost lines = text::split(rest@, '\n');
        let line: &[char] = &rest[0..end];
        assert(line@ =~= rest@.take(end as int));
        assert(rest@.take(rest@.len() as int) =~= rest@);
        assert(lines[0] == line@);
        let colon = find_char(line, ':');
        if colon < line.len() {
            assert(line@.subrange(0, colon as int) =~= line@.take(colon as int));
            assert(line@.subrange(colon + 1, line@.len() as int) =~= line@.skip(colon + 1));
            if same(&lowered(trimmed(&line[0..colon])), &wanted) {
                return Some(vstd::slice::slice_to_vec(trimmed(&line[colon + 1..line.len()])));
            }
        }
        if end == rest.len() {
            assert(lines.skip(1) =~= seq![]);
            assert(field_among(lines.skip(1), name@) is None);
            return None;
        }
        assert(lines.skip(1) =~= text::split(rest@.skip(end + 1), '\n'));
        assert(rest@.subrange(end + 1, rest@.len() as int) =~= rest@.skip(end + 1));
        rest = &rest[end + 1..rest.len()];
    }
}

/// The MIC and the digest that a `Received-Content-MIC` names.
fn read_mic(value: &[char]) -> (mic: Option<(Vec<u8>, String)>)
    ensures
        mic_view(mic) == mic_in(value@),
{
    let comma = find_char(value, ',');
    if comma == value.len() {
        return None;
    }
    assert(value@.subrange(0, comma as int) =~= value@.take(comma as int));
    assert(value@.subrange(comma + 1, value@.len() as int) =~= value@.skip(comma + 1));
    match base64::decode(trimmed(&value[0..comma])) {
        Some(digest) => Some(
            (digest, text_of(&lowered(trimmed(&value[comma + 1..value.len()])))),
        ),
        None => None,
    }
}

/// The boundary a `multipart/report` names.
fn boundary_of(content_type: &str) -> (boundary: Result<String, TransportError>)
    ensures
        error::outcome(boundary) == report_boundary(content_type@),
{
    if media_type(content_type) != "multipart/report".to_string() {
        let mut reason = "an answer that is not an MDN: ".to_string();
        reason.append(content_type);
        return Err(protocol_error(reason));
    }
    match parameter(content_type, "boundary") {
        Some(boundary) => Ok(boundary),
        None => Err(protocol_error("a multipart report with no boundary".to_string())),
    }
}

impl MdnView {
    /// Whether each thing the receipt says fits on a line.
    pub open spec fn on_one_line(self) -> bool {
        &&& !self.original_message_id.contains('\n')
        &&& !self.recipient.contains('\n')
        &&& !self.disposition.contains('\n')
        &&& self.mic matches Some((_, micalg)) ==> !micalg.contains('\n')
    }

    /// The receipt with the white space around each thing it says trimmed,
    /// and the digest's name in lower case.
    pub open spec fn as_read(self) -> MdnView {
        MdnView {
            original_message_id: text::trim(self.original_message_id),
            recipient: text::trim(self.recipient),
            disposition: text::trim(self.disposition),
            mic: match self.mic {
                Some((digest, micalg)) => Some((digest, text::lower(text::trim(micalg)))),
                None => None,
            },
        }
    }

    /// Whether what the receipt says goes into a report and comes back: each
    /// thing on one line, without white space around it, and the digest's
    /// name in lower case.
    pub open spec fn reads_back(self) -> bool {
        self.on_one_line() && self.as_read() == self
    }
}

/// Whether a boundary can be named in a `Content-Type` and delimit the report.
pub open spec fn is_report_boundary(boundary: Seq<char>) -> bool {
    multipart::is_boundary(boundary) && !boundary.contains('"')
}

/// The boundary that a report names is the one it was written with.
proof fn lemma_report_boundary(mdn: MdnView, boundary: Seq<char>)
    requires
        !boundary.contains('"'),
    ensures
        report_boundary(report(mdn, boundary).content_type) == Ok::<Seq<char>, ErrorView>(boundary),
{
    reveal_strlit("multipart/report; report-type=disposition-notification");
    reveal_strlit("; boundary=\"");
    reveal_strlit("\"");
    reveal_strlit("multipart/report");
    reveal_strlit("boundary");
    let kind = "multipart/report"@;
    let key = REPORT@.subrange(18, 29);
    let value = REPORT@.skip(30);
    let name = "boundary"@;
    lemmas::lemma_trimmed(key);
    lemmas::lemma_trimmed(name);
    lemmas::lemma_trimmed(kind);
    mime::lemma_last_parameter(kind, key, value, name, boundary);
    assert(report(mdn, boundary).content_type =~= kind + (seq![';'] + (seq![' '] + key + seq!['=']
        + value + (seq![';'] + (seq![' '] + name + seq!['='] + (seq!['"'] + boundary + seq!['"']))))));
    assert(text::lower(kind) =~= kind);
}

/// The fields stand on one line each where what the receipt says does.
proof fn lemma_fields(mdn: MdnView)
    requires
        mdn.on_one_line(),
    ensures
        forall|i: int|
            0 <= i < fields(mdn).len() ==> multipart::on_one_line(#[trigger] fields(mdn)[i]),
        forall|i: int|
            0 <= i < fields(mdn).len() ==> is_field_name((#[trigger] fields(mdn)[i]).0),
{
    reveal_strlit("Reporting-UA");
    reveal_strlit("xmip");
    reveal_strlit("Original-Recipient");
    reveal_strlit("Final-Recipient");
    reveal_strlit("rfc822; ");
    reveal_strlit("Original-Message-ID");
    reveal_strlit("Disposition");
    reveal_strlit("Received-Content-MIC");
    reveal_strlit(", ");
    lemmas::lemma_holds("rfc822; "@, mdn.recipient, '\n');
    lemmas::lemma_trimmed("Reporting-UA"@);
    lemmas::lemma_trimmed("Original-Recipient"@);
    lemmas::lemma_trimmed("Final-Recipient"@);
    lemmas::lemma_trimmed("Original-Message-ID"@);
    lemmas::lemma_trimmed("Disposition"@);
    lemmas::lemma_trimmed("Received-Content-MIC"@);
    if let Some((digest, micalg)) = mdn.mic {
        base64::lemma_symbols(digest);
        let encoded = base64::encoded(digest);
        lemmas::lemma_holds(encoded, ", "@, '\n');
        lemmas::lemma_holds(encoded + ", "@, micalg, '\n');
    }
    let first = fields(mdn).take(5);
    let last = mic_field(mdn.mic);
    assert(fields(mdn) =~= first + last);
}

/// Whether a name is one that a field is written under: a letter first, no
/// colon in it, and no white space around it.
spec fn is_field_name(name: Seq<char>) -> bool {
    &&& name.len() > 0
    &&& 'A' <= name[0] <= 'Z'
    &&& !name.contains(':')
    &&& text::trim(name) == name
}

/// The lines of a written block of fields.
spec fn field_rows(written: http::HeadersView) -> Seq<Seq<char>> {
    written.map_values(|f: (Seq<char>, Seq<char>)| f.0 + ": "@ + f.1 + "\r"@) + seq![seq![]]
}

proof fn lemma_field_rows(written: http::HeadersView)
    requires
        forall|i: int| 0 <= i < written.len() ==> multipart::on_one_line(#[trigger] written[i]),
    ensures
        text::split(multipart::header_lines(written), '\n') == field_rows(written),
    decreases written.len(),
{
    if written.len() == 0 {
        lemmas::lemma_split_none(Seq::<char>::empty(), '\n');
        assert(field_rows(written) =~= seq![seq![]]);
    } else {
        let rest = written.skip(1);
        assert forall|i: int| 0 <= i < rest.len() implies multipart::on_one_line(
            #[trigger] rest[i],
        ) by {
            assert(rest[i] == written[i + 1]);
        }
        lemma_field_rows(rest);
        let (name, value) = written[0];
        assert(multipart::on_one_line(written[0]));
        reveal_strlit(": ");
        multipart::lemma_line_break();
        let line = name + ": "@ + value + "\r"@;
        lemmas::lemma_holds(name, ": "@, '\n');
        lemmas::lemma_holds(name + ": "@, value, '\n');
        lemmas::lemma_holds(name + ": "@ + value, "\r"@, '\n');
        let more = multipart::header_lines(rest);
        assert(multipart::header_lines(written) =~= line + seq!['\n'] + more);
        lemmas::lemma_split_once(line, '\n', more);
        assert(field_rows(written) =~= seq![line] + field_rows(rest));
    }
}

/// The line of one field gives its name and its value.
proof fn lemma_field_row(name: Seq<char>, value: Seq<char>)
    requires
        is_field_name(name),
    ensures
        text::split_once(name + ": "@ + value + "\r"@, ':') matches Some((k, v)) && k == name
            && text::trim(v) == text::trim(value),
{
    reveal_strlit(": ");
    multipart::lemma_line_break();
    let after = seq![' '] + value + "\r"@;
    assert(name + ": "@ + value + "\r"@ =~= name + seq![':'] + after);
    lemmas::lemma_split_once(name, ':', after);
    lemmas::lemma_trim_padded(seq![' '], value, "\r"@);
}

/// The field at `i` is the one found where none before it has a name of that
/// length.
proof fn lemma_field_at(written: http::HeadersView, name: Seq<char>, i: int)
    requires
        0 <= i < written.len(),
        written[i].0 == name,
        forall|j: int| 0 <= j < written.len() ==> is_field_name((#[trigger] written[j]).0),
        forall|j: int| 0 <= j < i ==> (#[trigger] written[j]).0.len() != name.len(),
    ensures
        field_among(field_rows(written), name) == Some(text::trim(written[i].1)),
    decreases i,
{
    let rows = field_rows(written);
    assert(is_field_name(written[0].0));
    lemma_field_row(written[0].0, written[0].1);
    assert(rows[0] == written[0].0 + ": "@ + written[0].1 + "\r"@);
    if i > 0 {
        let rest = written.skip(1);
        assert(written[0].0.len() != name.len());
        assert(text::lower(written[0].0).len() != text::lower(name).len());
        assert forall|j: int| 0 <= j < i - 1 implies (#[trigger] rest[j]).0.len()
            != name.len() by {
            assert(rest[j] == written[j + 1]);
        }
        assert forall|j: int| 0 <= j < rest.len() implies is_field_name((#[trigger] rest[j]).0) by {
            assert(rest[j] == written[j + 1]);
        }
        lemma_field_at(rest, name, i - 1);
        assert(rows.skip(1) =~= field_rows(rest));
    }
}

/// None is found where none has a name of that length.
proof fn lemma_no_field(written: http::HeadersView, name: Seq<char>)
    requires
        forall|j: int| 0 <= j < written.len() ==> is_field_name((#[trigger] written[j]).0),
        forall|j: int| 0 <= j < written.len() ==> (#[trigger] written[j]).0.len() != name.len(),
    ensures
        field_among(field_rows(written), name) is None,
    decreases written.len(),
{
    let rows = field_rows(written);
    if written.len() == 0 {
        lemmas::lemma_split_none(Seq::<char>::empty(), ':');
        assert(rows =~= seq![seq![]]);
        assert(rows.skip(1) =~= seq![]);
        assert(field_among(rows.skip(1), name) is None);
    } else {
        let rest = written.skip(1);
        assert(is_field_name(written[0].0));
        lemma_field_row(written[0].0, written[0].1);
        assert(rows[0] == written[0].0 + ": "@ + written[0].1 + "\r"@);
        assert(written[0].0.len() != name.len());
        assert(text::lower(written[0].0).len() != text::lower(name).len());
        assert forall|j: int| 0 <= j < rest.len() implies (#[trigger] rest[j]).0.len()
            != name.len() by {
            assert(rest[j] == written[j + 1]);
        }
        assert forall|j: int| 0 <= j < rest.len() implies is_field_name((#[trigger] rest[j]).0) by {
            assert(rest[j] == written[j + 1]);
        }
        lemma_no_field(rest, name);
        assert(rows.skip(1) =~= field_rows(rest));
    }
}

/// A `Content-Type` stands on its line as any header does, and the line is
/// no delimiter.
proof fn lemma_content_type_fits(value: Seq<char>, boundary: Seq<char>)
    requires
        !value.contains('\n'),
        text::trim(value) == value,
    ensures
        multipart::header_fits(("Content-Type"@, value)),
        multipart::mark(multipart::header_row(("Content-Type"@, value)), boundary) is Text,
{
    reveal_strlit("Content-Type");
    lemmas::lemma_trimmed("Content-Type"@);
    let line = "Content-Type"@ + ": "@ + value + "\r"@;
    assert(line[0] == 'C');
    lemmas::lemma_encode_first(line);
    multipart::lemma_no_mark(vstd::utf8::encode_utf8(line), boundary);
}

/// The line for a human reader fits between any delimiters.
proof fn lemma_remark_fits(mdn: MdnView, boundary: Seq<char>)
    ensures
        multipart::part_fits(report_parts(mdn)[0], boundary),
{
    reveal_strlit("text/plain");
    reveal_strlit("The message was processed.");
    reveal_strlit("The message was not processed.");
    let part = report_parts(mdn)[0];
    let rows = multipart::part_rows(part);
    let words = remark(mdn);
    let last = vstd::utf8::encode_utf8(words) + seq![multipart::CR];
    lemmas::lemma_trimmed("text/plain"@);
    lemma_content_type_fits("text/plain"@, boundary);
    multipart::lemma_no_mark(seq![multipart::CR], boundary);
    lemmas::lemma_encode_first(words);
    lemmas::lemma_encode_ascii(words, '\n');
    lemmas::lemma_holds(vstd::utf8::encode_utf8(words), seq![multipart::CR], multipart::LF);
    assert(!seq![multipart::CR].contains(multipart::LF));
    lemmas::lemma_split_none(last, multipart::LF);
    multipart::lemma_no_mark(last, boundary);
    assert(rows =~= seq![
        multipart::header_row(("Content-Type"@, "text/plain"@)),
        seq![multipart::CR],
        last,
    ]);
}

/// The notification fits between any delimiters.
proof fn lemma_notification_fits(mdn: MdnView, boundary: Seq<char>)
    requires
        mdn.on_one_line(),
    ensures
        multipart::part_fits(report_parts(mdn)[1], boundary),
{
    reveal_strlit("message/disposition-notification");
    let part = report_parts(mdn)[1];
    let rows = multipart::part_rows(part);
    let end = seq![multipart::CR];
    lemmas::lemma_trimmed(NOTIFICATION@);
    lemma_content_type_fits(NOTIFICATION@, boundary);
    multipart::lemma_no_mark(end, boundary);
    lemma_fields(mdn);
    multipart::lemma_header_rows(fields(mdn), end);
    assert(!end.contains(multipart::LF));
    lemmas::lemma_split_none(end, multipart::LF);
    let own = fields(mdn).map_values(|h: (Seq<char>, Seq<char>)| multipart::header_row(h));
    assert(rows =~= seq![multipart::header_row(("Content-Type"@, NOTIFICATION@)), end] + own + seq![
        end,
    ]);
    assert forall|i: int| 0 <= i < own.len() implies multipart::mark(
        #[trigger] own[i],
        boundary,
    ) is Text by {
        let h = fields(mdn)[i];
        assert(is_field_name(h.0));
        let line = h.0 + ": "@ + h.1 + "\r"@;
        assert(line[0] == h.0[0]);
        lemmas::lemma_encode_first(line);
        multipart::lemma_no_mark(own[i], boundary);
    }
    assert forall|i: int| 0 <= i < rows.len() implies multipart::mark(
        #[trigger] rows[i],
        boundary,
    ) is Text by {
        if 2 <= i < own.len() + 2 {
            assert(rows[i] == own[i - 2]);
        }
    }
}

/// The parts of a report are read back, and the second is the notification.
proof fn lemma_report_parts(mdn: MdnView, boundary: Seq<char>)
    requires
        is_report_boundary(boundary),
        mdn.on_one_line(),
    ensures
        reported(report(mdn, boundary)) == notified(multipart::header_lines(fields(mdn))),
{
    lemma_report_boundary(mdn, boundary);
    lemma_remark_fits(mdn, boundary);
    lemma_notification_fits(mdn, boundary);
    let parts = report_parts(mdn);
    multipart::law_parts_read_back(boundary, parts);
    reveal_strlit("text/plain");
    reveal_strlit("message/disposition-notification");
    assert(parts.skip(1)[0] == parts[1]);
    http::lemma_header_at(parts[0].headers, "Content-Type"@, 0);
    http::lemma_header_at(parts[1].headers, "Content-Type"@, 0);
    let plain = "text/plain"@;
    lemmas::lemma_split_none(plain, ';');
    assert(plain.take(plain.len() as int) =~= plain);
    lemmas::lemma_trimmed(plain);
    assert(mime::media_type_of(plain).len() != NOTIFICATION@.len());
    lemmas::lemma_split_none(NOTIFICATION@, ';');
    assert(NOTIFICATION@.take(NOTIFICATION@.len() as int) =~= NOTIFICATION@);
    lemmas::lemma_trimmed(NOTIFICATION@);
    assert(text::lower(NOTIFICATION@) =~= NOTIFICATION@);
    let lines = multipart::header_lines(fields(mdn));
    assert(notification_among(parts.skip(1)) == Some(parts[1].body));
    assert(notification_among(parts) == Some(parts[1].body));
    vstd::utf8::encode_utf8_valid_utf8(lines);
    vstd::utf8::encode_utf8_decode_utf8(lines);
}

/// What a recipient's field says is read off it.
proof fn lemma_recipient(recipient: Seq<char>)
    ensures
        recipient_in(text::trim("rfc822; "@ + recipient)) == text::trim(recipient),
{
    reveal_strlit("rfc822; ");
    let kind = "rfc822; "@.take(6);
    let tail = seq![' '] + recipient;
    assert("rfc822; "@ + recipient =~= kind + seq![';'] + tail);
    let rest = lemmas::lemma_trim_head(kind + seq![';'], tail);
    lemmas::lemma_split_once(kind, ';', rest);
    assert(tail =~= seq![' '] + recipient + seq![]);
    lemmas::lemma_trim_padded(seq![' '], recipient, seq![]);
}

/// What a MIC's field says is read off it.
proof fn lemma_mic(digest: Seq<u8>, micalg: Seq<char>)
    ensures
        mic_in(text::trim(base64::encoded(digest) + ", "@ + micalg)) == Some(
            (digest, text::lower(text::trim(micalg))),
        ),
{
    reveal_strlit(", ");
    let chars = base64::encoded(digest);
    let tail = seq![' '] + micalg;
    base64::lemma_symbols(digest);
    base64::law_decoding_undoes_encoding(digest, chars);
    assert(chars + ", "@ + micalg =~= chars + seq![','] + tail);
    let rest = lemmas::lemma_trim_head(chars + seq![','], tail);
    lemmas::lemma_split_once(chars, ',', rest);
    lemmas::lemma_trimmed(chars);
    assert(tail =~= seq![' '] + micalg + seq![]);
    lemmas::lemma_trim_padded(seq![' '], micalg, seq![]);
}

/// The fields of a notification say what they were written from.
proof fn lemma_notified(mdn: MdnView)
    requires
        mdn.on_one_line(),
    ensures
        notified(multipart::header_lines(fields(mdn))) == Ok::<MdnView, ErrorView>(mdn.as_read()),
{
    reveal_strlit("Reporting-UA");
    reveal_strlit("Original-Recipient");
    reveal_strlit("Final-Recipient");
    reveal_strlit("Original-Message-ID");
    reveal_strlit("Disposition");
    reveal_strlit("Received-Content-MIC");
    let all = fields(mdn);
    lemma_fields(mdn);
    lemma_field_rows(all);
    lemma_field_at(all, "Final-Recipient"@, 2);
    lemma_field_at(all, "Original-Message-ID"@, 3);
    lemma_field_at(all, "Disposition"@, 4);
    lemma_recipient(mdn.recipient);
    match mdn.mic {
        Some((digest, micalg)) => {
            lemma_field_at(all, "Received-Content-MIC"@, 5);
            lemma_mic(digest, micalg);
        },
        None => {
            lemma_no_field(all, "Received-Content-MIC"@);
        },
    }
}

/// A field read off lines is on one line and trimmed.
proof fn lemma_field_clean(lines: Seq<Seq<char>>, name: Seq<char>)
    requires
        forall|i: int| 0 <= i < lines.len() ==> !(#[trigger] lines[i]).contains('\n'),
    ensures
        field_among(lines, name) matches Some(value) ==> !value.contains('\n') && text::trim(value)
            == value,
    decreases lines.len(),
{
    if lines.len() > 0 {
        let rest = lines.skip(1);
        assert forall|i: int| 0 <= i < rest.len() implies !(#[trigger] rest[i]).contains('\n') by {
            assert(rest[i] == lines[i + 1]);
        }
        lemma_field_clean(rest, name);
        assert(!lines[0].contains('\n'));
        if let Some((_, value)) = text::split_once(lines[0], ':') {
            text::lemma_find(lines[0], ':');
            lemmas::lemma_trim_twice(value);
            lemmas::lemma_trim_holds(value, '\n');
        }
    }
}

/// What a notification reports is on one line and trimmed, each thing of it.
proof fn lemma_notified_clean(notification: Seq<char>)
    ensures
        notified(notification) matches Ok(mdn) ==> mdn.reads_back(),
{
    let lines = text::split(notification, '\n');
    lemmas::lemma_join_split(notification, '\n');
    lemma_field_clean(lines, "Original-Message-ID"@);
    lemma_field_clean(lines, "Final-Recipient"@);
    lemma_field_clean(lines, "Disposition"@);
    lemma_field_clean(lines, "Received-Content-MIC"@);
    lemmas::lemma_trimmed(Seq::<char>::empty());
    if let Some(value) = field_in(notification, "Final-Recipient"@) {
        if let Some((_, who)) = text::split_once(value, ';') {
            text::lemma_find(value, ';');
            lemmas::lemma_trim_twice(who);
            lemmas::lemma_trim_holds(who, '\n');
        }
    }
    if let Some(value) = field_in(notification, "Received-Content-MIC"@) {
        if let Some((_, micalg)) = text::split_once(value, ',') {
            text::lemma_find(value, ',');
            lemmas::lemma_clean(micalg, '\n');
        }
    }
}

/// A receipt is read off the report that it was written in, trimmed and with
/// the digest's name in lower case, where each thing it says is on one line.
/// It comes back as it was exactly where that changes nothing of it.
pub proof fn law_receipt_reads_back(mdn: MdnView, boundary: Seq<char>)
    requires
        is_report_boundary(boundary),
    ensures
        mdn.on_one_line() ==> reported(report(mdn, boundary)) == Ok::<MdnView, ErrorView>(
            mdn.as_read(),
        ),
        reported(report(mdn, boundary)) == Ok::<MdnView, ErrorView>(mdn) <==> mdn.reads_back(),
{
    if mdn.on_one_line() {
        lemma_report_parts(mdn, boundary);
        lemma_notified(mdn);
    }
    law_report_is_clean(report(mdn, boundary));
}

/// Whatever an entity reports would come back as it is from a report of its
/// own.
pub proof fn law_report_is_clean(entity: EntityView)
    ensures
        reported(entity) matches Ok(mdn) ==> mdn.reads_back(),
{
    if let Ok(boundary) = report_boundary(entity.content_type) {
        if let Ok(parts) = multipart::parts_of(entity.body, boundary) {
            if let Some(body) = notification_among(parts) {
                lemma_notified_clean(multipart::text_from(body));
            }
        }
    }
}

/// A receipt that says a message was processed is taken for one.
pub proof fn law_receipt_is_processed(
    original_message_id: Seq<char>,
    recipient: Seq<char>,
    digest: Seq<u8>,
    micalg: Seq<char>,
)
    ensures
        says_processed(receipt(original_message_id, recipient, digest, micalg).disposition),
{
    reveal_strlit("automatic-action/MDN-sent-automatically; processed");
    reveal_strlit("processed");
    let disposition = "automatic-action/MDN-sent-automatically; processed"@;
    let mode = disposition.take(39);
    let done = "processed"@;
    assert(disposition =~= mode + seq![';'] + (seq![' '] + done));
    lemmas::lemma_split_once(mode, ';', seq![' '] + done);
    lemmas::lemma_split_none(seq![' '] + done, ';');
    assert(seq![' '] + done =~= seq![' '] + done + seq![]);
    lemmas::lemma_trim_padded(seq![' '], done, seq![]);
    lemmas::lemma_trimmed(done);
    assert(text::lower(done) =~= done);
}

/// What follows the last semicolon of a disposition decides, whatever the mode
/// before it: the message was processed where that, white space around it and
/// the case of its letters apart, is the word `processed`, and in no other
/// case. An outcome with a modifier, `processed/error` among them, is another.
pub proof fn law_last_word_decides(mode: Seq<char>, outcome: Seq<char>)
    requires
        !outcome.contains(';'),
    ensures
        says_processed(outcome) <==> text::lower(text::trim(outcome)) == "processed"@,
        says_processed(mode + seq![';'] + outcome) <==> text::lower(text::trim(outcome))
            == "processed"@,
        says_processed(mode + "; "@ + outcome) <==> text::lower(text::trim(outcome))
            == "processed"@,
        text::lower(text::trim(outcome)).contains('/') || text::lower(text::trim(outcome)).contains(
            ':',
        ) || "failed"@.is_prefix_of(text::lower(text::trim(outcome))) ==> !says_processed(outcome)
            && !says_processed(mode + seq![';'] + outcome) && !says_processed(
            mode + "; "@ + outcome,
        ),
{
    reveal_strlit("; ");
    reveal_strlit("processed");
    reveal_strlit("failed");
    lemmas::lemma_split_none(outcome, ';');
    lemmas::lemma_split_concat(mode, ';', outcome);
    let padded = seq![' '] + outcome;
    lemmas::lemma_holds(seq![' '], outcome, ';');
    assert(!seq![' '].contains(';'));
    assert(mode + "; "@ + outcome =~= mode + seq![';'] + padded);
    lemmas::lemma_split_none(padded, ';');
    lemmas::lemma_split_concat(mode, ';', padded);
    assert(padded =~= seq![' '] + outcome + seq![]);
    lemmas::lemma_trim_padded(seq![' '], outcome, seq![]);
    let word = text::lower(text::trim(outcome));
    if word == "processed"@ {
        assert(word[0] == 'p' && "failed"@[0] == 'f');
        if "failed"@.is_prefix_of(word) {
            assert(word[0] == "failed"@[0]);
        }
    }
}

/// The notification of a report is the first part whose `Content-Type` names
/// it: what other headers that part carries, and what stands in the parts
/// before it and after it, is all one.
pub proof fn law_first_notification_is_read(
    before: Seq<PartView>,
    part: PartView,
    after: Seq<PartView>,
    content_type: Seq<char>,
)
    requires
        forall|i: int|
            0 <= i < before.len() ==> (http::header_value(
                (#[trigger] before[i]).headers,
                "Content-Type"@,
            ) matches Some(other) ==> mime::media_type_of(other)
                != "message/disposition-notification"@),
        http::header_value(part.headers, "Content-Type"@) == Some(content_type),
        mime::media_type_of(content_type) == "message/disposition-notification"@,
    ensures
        notification_among(before + seq![part] + after) == Some(part.body),
        parts_report(before + seq![part] + after) == notified(multipart::text_from(part.body)),
    decreases before.len(),
{
    let all = before + seq![part] + after;
    if before.len() == 0 {
        assert(all[0] == part);
    } else {
        let rest = before.skip(1);
        assert forall|i: int| 0 <= i < rest.len() implies (http::header_value(
            (#[trigger] rest[i]).headers,
            "Content-Type"@,
        ) matches Some(other) ==> mime::media_type_of(other)
            != "message/disposition-notification"@) by {
            assert(rest[i] == before[i + 1]);
        }
        assert(all[0] == before[0]);
        law_first_notification_is_read(rest, part, after, content_type);
        assert(all.skip(1) =~= rest + seq![part] + after);
    }
}

/// A report none of whose parts is a notification is refused for good.
pub proof fn law_report_without_notification_is_refused(parts: Seq<PartView>)
    requires
        forall|i: int|
            0 <= i < parts.len() ==> (http::header_value(
                (#[trigger] parts[i]).headers,
                "Content-Type"@,
            ) matches Some(other) ==> mime::media_type_of(other)
                != "message/disposition-notification"@),
    ensures
        parts_report(parts) matches Err(e) && !e.retryable && e.message
            == "a report with no disposition notification in it"@,
    decreases parts.len(),
{
    if parts.len() > 0 {
        let rest = parts.skip(1);
        assert forall|i: int| 0 <= i < rest.len() implies (http::header_value(
            (#[trigger] rest[i]).headers,
            "Content-Type"@,
        ) matches Some(other) ==> mime::media_type_of(other)
            != "message/disposition-notification"@) by {
            assert(rest[i] == parts[i + 1]);
        }
        let first = parts[0];
        law_report_without_notification_is_refused(rest);
    }
}

/// The first line of a notification that holds a field of that name gives its
/// value, whatever the case of the name's letters and the white space around
/// either, and whatever the other lines hold. A line's name ends at its first
/// colon.
pub proof fn law_first_field_counts(
    before: Seq<Seq<char>>,
    key: Seq<char>,
    value: Seq<char>,
    after: Seq<Seq<char>>,
    name: Seq<char>,
)
    requires
        forall|i: int| 0 <= i < before.len() ==> !(#[trigger] before[i]).contains('\n'),
        forall|i: int| 0 <= i < after.len() ==> !(#[trigger] after[i]).contains('\n'),
        forall|i: int|
            0 <= i < before.len() ==> (text::split_once(#[trigger] before[i], ':') matches Some(
                other,
            ) ==> text::lower(text::trim(other.0)) != text::lower(name)),
        !key.contains(':') && !key.contains('\n') && !value.contains('\n'),
        text::lower(text::trim(key)) == text::lower(name),
    ensures
        field_in(text::join(before + seq![key + seq![':'] + value] + after, '\n'), name) == Some(
            text::trim(value),
        ),
{
    let line = key + seq![':'] + value;
    let lines = before + seq![line] + after;
    lemmas::lemma_holds(key, seq![':'], '\n');
    lemmas::lemma_holds(key + seq![':'], value, '\n');
    assert(!seq![':'].contains('\n'));
    assert forall|i: int| 0 <= i < lines.len() implies !(#[trigger] lines[i]).contains('\n') by {
        if i < before.len() {
            assert(lines[i] == before[i]);
        } else if i > before.len() {
            assert(lines[i] == after[i - before.len() - 1]);
        }
    }
    lemmas::lemma_split_join(lines, '\n');
    lemma_first_field(before, key, value, after, name);
}

/// The same, among lines.
proof fn lemma_first_field(
    before: Seq<Seq<char>>,
    key: Seq<char>,
    value: Seq<char>,
    after: Seq<Seq<char>>,
    name: Seq<char>,
)
    requires
        forall|i: int|
            0 <= i < before.len() ==> (text::split_once(#[trigger] before[i], ':') matches Some(
                other,
            ) ==> text::lower(text::trim(other.0)) != text::lower(name)),
        !key.contains(':'),
        text::lower(text::trim(key)) == text::lower(name),
    ensures
        field_among(before + seq![key + seq![':'] + value] + after, name) == Some(
            text::trim(value),
        ),
    decreases before.len(),
{
    let line = key + seq![':'] + value;
    let lines = before + seq![line] + after;
    if before.len() == 0 {
        assert(lines[0] == line);
        lemmas::lemma_split_once(key, ':', value);
    } else {
        let rest = before.skip(1);
        assert forall|i: int| 0 <= i < rest.len() implies (text::split_once(
            #[trigger] rest[i],
            ':',
        ) matches Some(other) ==> text::lower(text::trim(other.0)) != text::lower(name)) by {
            assert(rest[i] == before[i + 1]);
        }
        assert(lines[0] == before[0]);
        lemma_first_field(rest, key, value, after, name);
        assert(lines.skip(1) =~= rest + seq![line] + after);
    }
}

/// A field that no line holds is not there.
pub proof fn law_no_field_is_made_up(notification: Seq<char>, name: Seq<char>)
    requires
        forall|i: int|
            0 <= i < text::split(notification, '\n').len() ==> (text::split_once(
                #[trigger] text::split(notification, '\n')[i],
                ':',
            ) matches Some(other) ==> text::lower(text::trim(other.0)) != text::lower(name)),
    ensures
        field_in(notification, name) is None,
{
    lemma_no_line(text::split(notification, '\n'), name);
}

/// The same, among lines.
proof fn lemma_no_line(lines: Seq<Seq<char>>, name: Seq<char>)
    requires
        forall|i: int|
            0 <= i < lines.len() ==> (text::split_once(#[trigger] lines[i], ':') matches Some(
                other,
            ) ==> text::lower(text::trim(other.0)) != text::lower(name)),
    ensures
        field_among(lines, name) is None,
    decreases lines.len(),
{
    if lines.len() > 0 {
        let rest = lines.skip(1);
        assert forall|i: int| 0 <= i < rest.len() implies (text::split_once(
            #[trigger] rest[i],
            ':',
        ) matches Some(other) ==> text::lower(text::trim(other.0)) != text::lower(name)) by {
            assert(rest[i] == lines[i + 1]);
        }
        let first = lines[0];
        lemma_no_line(rest, name);
    }
}

/// A MIC is base 64, a comma and the digest's name: the bytes are those that
/// were encoded, the name is in lower case, and white space around either says
/// nothing.
pub proof fn law_mic_is_read(
    before: Seq<char>,
    digest: Seq<u8>,
    after: Seq<char>,
    micalg: Seq<char>,
)
    requires
        forall|j: int| 0 <= j < before.len() ==> text::is_space(#[trigger] before[j]),
        forall|j: int| 0 <= j < after.len() ==> text::is_space(#[trigger] after[j]),
    ensures
        mic_in(before + base64::encoded(digest) + after + seq![','] + micalg) == Some(
            (digest, text::lower(text::trim(micalg))),
        ),
{
    let chars = base64::encoded(digest);
    let padded = before + chars + after;
    base64::lemma_symbols(digest);
    base64::law_decoding_undoes_encoding(digest, chars);
    lemmas::lemma_holds(before, chars, ',');
    lemmas::lemma_holds(before + chars, after, ',');
    assert(!before.contains(',') && !after.contains(','));
    lemmas::lemma_split_once(padded, ',', micalg);
    lemmas::lemma_trimmed(chars);
    lemmas::lemma_trim_padded(before, chars, after);
}

/// What is not base 64, or names no digest after a comma, is no MIC.
pub proof fn law_no_mic_is_made_up(digest: Seq<char>, micalg: Seq<char>)
    requires
        !digest.contains(','),
    ensures
        mic_in(digest) is None,
        (forall|bytes: Seq<u8>| #[trigger] base64::encoded(bytes) != text::trim(digest)) ==> mic_in(
            digest + seq![','] + micalg,
        ) is None,
{
    lemmas::lemma_split_once(digest, ',', micalg);
    lemmas::lemma_split_none(digest, ',');
}

/// The recipient is what follows the first semicolon, behind the type of its
/// address, white space around it apart; without a semicolon it is nobody.
pub proof fn law_recipient_follows_its_type(kind: Seq<char>, who: Seq<char>)
    requires
        !kind.contains(';'),
    ensures
        recipient_in(kind + seq![';'] + who) == text::trim(who),
        recipient_in(kind).len() == 0,
{
    lemmas::lemma_split_once(kind, ';', who);
    lemmas::lemma_split_none(kind, ';');
}

/// A notification reports if and only if it names the message it answers. Each
/// thing it reports is read off the field of its own name, and what no field
/// says is empty.
pub proof fn law_notification_is_read(notification: Seq<char>)
    ensures
        notified(notification) is Ok <==> field_in(notification, "Original-Message-ID"@) is Some,
        notified(notification) matches Err(e) ==> !e.retryable && e.message
            == "a notification with no Original-Message-ID"@,
        notified(notification) matches Ok(mdn) ==> {
            &&& field_in(notification, "Original-Message-ID"@) == Some(mdn.original_message_id)
            &&& field_in(notification, "Final-Recipient"@) matches Some(value) ==> mdn.recipient
                == recipient_in(value)
            &&& field_in(notification, "Final-Recipient"@) is None ==> mdn.recipient.len() == 0
            &&& field_in(notification, "Disposition"@) matches Some(value) ==> mdn.disposition
                == value
            &&& field_in(notification, "Disposition"@) is None ==> mdn.disposition.len() == 0
            &&& field_in(notification, "Received-Content-MIC"@) matches Some(value) ==> mdn.mic
                == mic_in(value)
            &&& field_in(notification, "Received-Content-MIC"@) is None ==> mdn.mic is None
        },
{
}

/// An entity reports what its parts report where it is a `multipart/report`,
/// whatever the case of that and whatever its other parameters; any other
/// entity, one that names no boundary, and one whose body is not delimited by
/// it are refused for good.
pub proof fn law_entity_is_read(entity: EntityView)
    ensures
        ({
            let boundary = mime::parameter_of(entity.content_type, "boundary"@);
            if mime::media_type_of(entity.content_type) != "multipart/report"@ {
                reported(entity) matches Err(e) && !e.retryable && e.message
                    == "an answer that is not an MDN: "@ + entity.content_type
            } else if boundary is None {
                reported(entity) matches Err(e) && !e.retryable && e.message
                    == "a multipart report with no boundary"@
            } else {
                match multipart::parts_of(entity.body, boundary->Some_0) {
                    Ok(parts) => reported(entity) == parts_report(parts),
                    Err(multipart::Refusal::NoBoundary) => reported(entity) matches Err(e)
                        && !e.retryable && e.message == "a multipart body without its boundary"@,
                    Err(multipart::Refusal::NotClosed) => reported(entity) matches Err(e)
                        && !e.retryable && e.message == "a multipart body that is not closed"@,
                }
            }
        }),
{
}

/// A receipt that says a message was processed names that message, who
/// received it, its MIC and the digest.
pub proof fn law_receipt_names_the_message(
    original_message_id: Seq<char>,
    recipient: Seq<char>,
    digest: Seq<u8>,
    micalg: Seq<char>,
)
    ensures
        receipt(original_message_id, recipient, digest, micalg).original_message_id
            == original_message_id,
        receipt(original_message_id, recipient, digest, micalg).recipient == recipient,
        receipt(original_message_id, recipient, digest, micalg).mic == Some((digest, micalg)),
        receipt(original_message_id, recipient, digest, micalg).disposition
            == "automatic-action/MDN-sent-automatically; processed"@,
{
}

/// A report is a `multipart/report` of two parts: a line that says whether the
/// message was processed, and the notification, whose fields stand in this
/// order, one to a line, the MIC last and only where there is one.
pub proof fn law_report_is_written(mdn: MdnView, boundary: Seq<char>)
    ensures
        ({
            let entity = report(mdn, boundary);
            let parts = report_parts(mdn);
            let mic: Seq<char> = match mdn.mic {
                Some((digest, micalg)) => "Received-Content-MIC"@ + ": "@ + (base64::encoded(digest)
                    + ", "@ + micalg) + "\r\n"@,
                None => seq![],
            };
            &&& entity.content_type
                == "multipart/report; report-type=disposition-notification"@ + "; boundary=\""@
                + boundary + "\""@
            &&& entity.body == multipart::written(boundary, parts)
            &&& parts.len() == 2
            &&& parts[0].headers == seq![("Content-Type"@, "text/plain"@)]
            &&& says_processed(mdn.disposition) ==> parts[0].body == vstd::utf8::encode_utf8(
                "The message was processed."@,
            )
            &&& !says_processed(mdn.disposition) ==> parts[0].body == vstd::utf8::encode_utf8(
                "The message was not processed."@,
            )
            &&& parts[1].headers == seq![("Content-Type"@, "message/disposition-notification"@)]
            &&& parts[1].body == vstd::utf8::encode_utf8(
                "Reporting-UA"@ + ": "@ + "xmip"@ + "\r\n"@ + ("Original-Recipient"@ + ": "@ + (
                "rfc822; "@ + mdn.recipient) + "\r\n"@) + ("Final-Recipient"@ + ": "@ + ("rfc822; "@
                    + mdn.recipient) + "\r\n"@) + ("Original-Message-ID"@ + ": "@
                    + mdn.original_message_id + "\r\n"@) + ("Disposition"@ + ": "@ + mdn.disposition
                    + "\r\n"@) + mic,
            )
        }),
{
    let none: http::HeadersView = seq![];
    let one = none.push(("Reporting-UA"@, "xmip"@));
    let two = one.push(("Original-Recipient"@, "rfc822; "@ + mdn.recipient));
    let three = two.push(("Final-Recipient"@, "rfc822; "@ + mdn.recipient));
    let four = three.push(("Original-Message-ID"@, mdn.original_message_id));
    let five = four.push(("Disposition"@, mdn.disposition));
    multipart::lemma_header_lines_push(none, "Reporting-UA"@, "xmip"@);
    multipart::lemma_header_lines_push(one, "Original-Recipient"@, "rfc822; "@ + mdn.recipient);
    multipart::lemma_header_lines_push(two, "Final-Recipient"@, "rfc822; "@ + mdn.recipient);
    multipart::lemma_header_lines_push(three, "Original-Message-ID"@, mdn.original_message_id);
    multipart::lemma_header_lines_push(four, "Disposition"@, mdn.disposition);
    assert(multipart::header_lines(none) =~= seq![]);
    let first = "Reporting-UA"@ + ": "@ + "xmip"@ + "\r\n"@;
    assert(Seq::<char>::empty() + first =~= first);
    match mdn.mic {
        Some((digest, micalg)) => {
            let value = base64::encoded(digest) + ", "@ + micalg;
            multipart::lemma_header_lines_push(five, "Received-Content-MIC"@, value);
            assert(fields(mdn) =~= five.push(("Received-Content-MIC"@, value)));
        },
        None => {
            assert(fields(mdn) =~= five);
            assert(multipart::header_lines(five) + Seq::<char>::empty() =~= multipart::header_lines(
                five,
            ));
        },
    }
}

} // verus!
