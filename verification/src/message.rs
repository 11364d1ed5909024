//! One AS2 message: the partner headers RFC 4130 section 6 puts on an HTTP
//! POST, the entity that is its body, and the MIC the receipt hashes it to.
//!
//! `AS2-From` and `AS2-To` are the partners as the agreement names them,
//! `Message-ID` is what the receipt answers, and
//! `Disposition-Notification-To` is the ask for that receipt, with
//! `Disposition-Notification-Options` saying it should be signed, and with
//! what. The four are read back off a request the same way they were
//! written on to it.
use std::time::{Duration, SystemTime, SystemTimeError};

use sha2::{Digest, Sha256};
use vstd::prelude::*;

use crate::error::{protocol_error, ErrorView, TransportError};
use crate::http::{Request, RequestView};
use crate::numbers::Numbers;
use crate::signer::{Entity, EntityView};
use crate::text::{after, chars_of, copied, find_char, lowered, push_decimal, same, text_of, trimmed};
use crate::{error, http, lemmas, numbers, text};

verus! {

/// The `AS2-Version` written on every message and receipt.
pub const VERSION: &'static str = "1.2";

/// One message as the headers describe it.
#[derive(Debug, PartialEq, Eq)]
pub struct Message {
    pub from: String,
    pub to: String,
    pub message_id: String,
    /// Where the sender wants the receipt, or `None` where none was asked for.
    pub notification_to: Option<String>,
    /// The digest the sender wants the receipt's MIC in, where it asked for one.
    pub micalg: Option<String>,
    pub entity: Entity,
}

/// A [`Message`] as a mathematical value.
pub struct MessageView {
    pub from: Seq<char>,
    pub to: Seq<char>,
    pub message_id: Seq<char>,
    pub notification_to: Option<Seq<char>>,
    pub micalg: Option<Seq<char>>,
    pub entity: EntityView,
}

impl View for Message {
    type V = MessageView;

    open spec fn view(&self) -> MessageView {
        MessageView {
            from: self.from@,
            to: self.to@,
            message_id: self.message_id@,
            notification_to: text::optional(self.notification_to),
            micalg: text::optional(self.micalg),
            entity: self.entity@,
        }
    }
}

impl Clone for Message {
    fn clone(&self) -> (copy: Self)
        ensures
            copy@ == self@,
    {
        Message {
            from: self.from.clone(),
            to: self.to.clone(),
            message_id: self.message_id.clone(),
            notification_to: self.notification_to.clone(),
            micalg: self.micalg.clone(),
            entity: self.entity.clone(),
        }
    }
}

/// A message from `from` to `to` under `message_id`, asking for its receipt
/// back in `micalg`.
pub open spec fn composed(
    from: Seq<char>,
    to: Seq<char>,
    micalg: Seq<char>,
    entity: EntityView,
    message_id: Seq<char>,
) -> MessageView {
    MessageView {
        from,
        to,
        message_id,
        notification_to: Some(from),
        micalg: Some(micalg),
        entity,
    }
}

/// What `Disposition-Notification-Options` says before it names the digest.
pub const OPTIONS: &'static str =
    "signed-receipt-protocol=optional, pkcs7-signature; signed-receipt-micalg=optional, ";

/// The headers that every message carries.
pub open spec fn partner_headers(message: MessageView, authority: Seq<char>) -> http::HeadersView {
    seq![
        ("Host"@, authority),
        ("AS2-Version"@, VERSION@),
        ("AS2-From"@, message.from),
        ("AS2-To"@, message.to),
        ("Message-ID"@, message.message_id),
        ("Content-Type"@, message.entity.content_type),
    ]
}

/// The headers that ask for a receipt, as far as the message asks for one.
pub open spec fn receipt_headers(message: MessageView) -> http::HeadersView {
    let asked: http::HeadersView = match message.notification_to {
        Some(to) => seq![("Disposition-Notification-To"@, to)],
        None => seq![],
    };
    match message.micalg {
        Some(micalg) => asked.push(("Disposition-Notification-Options"@, OPTIONS@ + micalg)),
        None => asked,
    }
}

/// The POST that carries `message` to `path`, `Host` set to `authority`.
pub open spec fn posted(message: MessageView, authority: Seq<char>, path: Seq<char>) -> RequestView {
    RequestView {
        method: "POST"@,
        path,
        headers: partner_headers(message, authority) + receipt_headers(message),
        body: message.entity.body,
    }
}

/// A header that an AS2 message must carry, and not empty.
pub open spec fn required(headers: http::HeadersView, name: Seq<char>) -> Result<Seq<char>, ErrorView> {
    match http::header_value(headers, name) {
        Some(value) if value.len() > 0 => Ok(value),
        _ => Err(error::refused("a POST with no "@ + name + " header"@)),
    }
}

/// The first of the parameters, white space trimmed, that begins with
/// `prefix`: what follows it.
pub open spec fn first_after(parameters: Seq<Seq<char>>, prefix: Seq<char>) -> Option<Seq<char>>
    decreases parameters.len(),
{
    if parameters.len() == 0 {
        None
    } else {
        match text::strip_prefix(text::trim(parameters[0]), prefix) {
            Some(value) => Some(value),
            None => first_after(parameters.skip(1), prefix),
        }
    }
}

/// The digest that a `Disposition-Notification-Options` header asks for: the
/// second of the items of its `signed-receipt-micalg`, in lower case.
pub open spec fn asked_micalg(options: Seq<char>) -> Option<Seq<char>> {
    match first_after(text::split(options, ';'), "signed-receipt-micalg="@) {
        Some(value) => {
            let items = text::split(value, ',');
            if items.len() > 1 {
                Some(text::lower(text::trim(items[1])))
            } else {
                None
            }
        },
        None => None,
    }
}

/// The message that a request carries, or why it carries none.
pub open spec fn received(request: RequestView) -> Result<MessageView, ErrorView> {
    let headers = request.headers;
    if request.method != "POST"@ {
        Err(error::refused("an AS2 message is a POST, not a "@ + request.method))
    } else {
        match (
            required(headers, "AS2-From"@),
            required(headers, "AS2-To"@),
            required(headers, "Message-ID"@),
        ) {
            (Err(e), _, _) => Err(e),
            (_, Err(e), _) => Err(e),
            (_, _, Err(e)) => Err(e),
            (Ok(from), Ok(to), Ok(message_id)) => Ok(
                MessageView {
                    from,
                    to,
                    message_id,
                    notification_to: http::header_value(headers, "Disposition-Notification-To"@),
                    micalg: match http::header_value(headers, "Disposition-Notification-Options"@) {
                        Some(options) => asked_micalg(options),
                        None => None,
                    },
                    entity: EntityView {
                        content_type: match http::header_value(headers, "Content-Type"@) {
                            Some(content_type) => content_type,
                            None => "application/octet-stream"@,
                        },
                        body: request.body,
                    },
                },
            ),
        }
    }
}

impl Message {
    /// A message from `from` to `to`, asking for its receipt back on the
    /// connection in `micalg`, under an id that no other message drawn from
    /// `numbers` carries.
    #[must_use]
    pub fn new(from: &str, to: &str, micalg: &str, entity: Entity, numbers: &mut Numbers) -> (message:
        Self)
        ensures
            exists|nanos: u128|
                message@ == composed(
                    from@,
                    to@,
                    micalg@,
                    entity@,
                    #[trigger] id_of(nanos, old(numbers)@),
                ),
            may_draw(old(numbers)@, message@.message_id, final(numbers)@),
    {
        let message_id = next_message_id(numbers);
        Message::identified(from, to, micalg, entity, message_id)
    }

    /// A message from `from` to `to` under that id, asking for its receipt
    /// back on the connection in `micalg`.
    #[must_use]
    pub fn identified(from: &str, to: &str, micalg: &str, entity: Entity, message_id: String) -> (message:
        Self)
        ensures
            message@ == composed(from@, to@, micalg@, entity@, message_id@),
    {
        Message {
            from: from.to_string(),
            to: to.to_string(),
            message_id,
            notification_to: Some(from.to_string()),
            micalg: Some(micalg.to_string()),
            entity,
        }
    }

    /// The POST that carries this message to `path`, `Host` set to
    /// `authority`.
    #[must_use]
    pub fn request(&self, authority: &str, path: &str) -> (request: Request)
        ensures
            request@ == posted(self@, authority@, path@),
    {
        let mut request = Request::new("POST", path)
            .header("Host", authority)
            .header("AS2-Version", VERSION)
            .header("AS2-From", &self.from)
            .header("AS2-To", &self.to)
            .header("Message-ID", &self.message_id)
            .header("Content-Type", &self.entity.content_type)
            .body(&self.entity.body);
        if let Some(to) = &self.notification_to {
            request = request.header("Disposition-Notification-To", to);
        }
        if let Some(micalg) = &self.micalg {
            let mut options = OPTIONS.to_string();
            options.append(micalg);
            request = request.header("Disposition-Notification-Options", &options);
        }
        assert(request@.headers =~= posted(self@, authority@, path@).headers);
        request
    }

    /// The message a POST carries.
    ///
    /// # Errors
    /// Where the request is not a POST, or `AS2-From`, `AS2-To` or
    /// `Message-ID` is missing: a peer that is not speaking AS2.
    pub fn from_request(request: &Request) -> (message: Result<Self, TransportError>)
        ensures
            error::outcome(message) == received(request@),
    {
        if request.method != "POST".to_string() {
            let mut reason = "an AS2 message is a POST, not a ".to_string();
            reason.append(&request.method);
            return Err(protocol_error(reason));
        }
        let micalg = match request.header_value("Disposition-Notification-Options") {
            Some(options) => requested_micalg(options),
            None => None,
        };
        let from = match required_header(request, "AS2-From") {
            Ok(from) => from,
            Err(e) => return Err(e),
        };
        let to = match required_header(request, "AS2-To") {
            Ok(to) => to,
            Err(e) => return Err(e),
        };
        let message_id = match required_header(request, "Message-ID") {
            Ok(message_id) => message_id,
            Err(e) => return Err(e),
        };
        let content_type = match request.header_value("Content-Type") {
            Some(content_type) => content_type,
            None => "application/octet-stream",
        };
        Ok(
            Message {
                from,
                to,
                message_id,
                notification_to: copied(request.header_value("Disposition-Notification-To")),
                micalg,
                entity: Entity::new(content_type, request.body.clone()),
            },
        )
    }

    /// Whether the sender asked for a receipt at all.
    #[must_use]
    pub fn wants_receipt(&self) -> (wanted: bool)
        ensures
            wanted == (self@.notification_to is Some),
    {
        self.notification_to.is_some()
    }
}

/// The value of a header that an AS2 message must carry, and not empty.
fn required_header(request: &Request, name: &str) -> (value: Result<String, TransportError>)
    ensures
        error::outcome(value) == required(request@.headers, name@),
{
    if let Some(value) = request.header_value(name) {
        if !value.is_empty() {
            return Ok(value.to_string());
        }
    }
    let mut reason = "a POST with no ".to_string();
    reason.append(name);
    reason.append(" header");
    Err(protocol_error(reason))
}

/// The `signed-receipt-micalg` a `Disposition-Notification-Options` header
/// asks for: `sha-256` out of
/// `signed-receipt-protocol=optional, pkcs7-signature; signed-receipt-micalg=optional, sha-256`.
#[must_use]
pub fn requested_micalg(options: &str) -> (micalg: Option<String>)
    ensures
        text::optional(micalg) == asked_micalg(options@),
{
    let chars = chars_of(options);
    let prefix = chars_of("signed-receipt-micalg=");
    let mut rest: &[char] = &chars;
    loop
        invariant
            prefix@ == "signed-receipt-micalg="@,
            first_after(text::split(rest@, ';'), prefix@) == first_after(
                text::split(options@, ';'),
                prefix@,
            ),
        decreases rest@.len(),
    {
        let end = find_char(rest, ';');
        let ghost pieces = text::split(rest@, ';');
        assert(rest@.take(rest@.len() as int) =~= rest@);
        assert(pieces[0] == rest@.take(end as int));
        if let Some(value) = after(trimmed(&rest[0..end]), &prefix) {
            assert(rest@.subrange(0, end as int) =~= rest@.take(end as int));
            return second_item(value);
        }
        assert(rest@.subrange(0, end as int) =~= rest@.take(end as int));
        if end == rest.len() {
            assert(pieces.skip(1) =~= seq![]);
            assert(first_after(pieces.skip(1), prefix@) is None);
            return None;
        }
        assert(pieces.skip(1) =~= text::split(rest@.skip(end + 1), ';'));
        assert(rest@.subrange(end + 1, rest@.len() as int) =~= rest@.skip(end + 1));
        rest = &rest[end + 1..rest.len()];
    }
}

/// The second of the items between commas, trimmed and in lower case.
fn second_item(value: &[char]) -> (item: Option<String>)
    ensures
        text::optional(item) == ({
            let items = text::split(value@, ',');
            if items.len() > 1 {
                Some(text::lower(text::trim(items[1])))
            } else {
                None
            }
        }),
{
    let comma = find_char(value, ',');
    if comma == value.len() {
        return None;
    }
    let rest: &[char] = &value[comma + 1..value.len()];
    assert(rest@ =~= value@.skip(comma + 1));
    let end = find_char(rest, ',');
    assert(rest@.subrange(0, end as int) =~= rest@.take(end as int));
    assert(rest@.take(rest@.len() as int) =~= rest@);
    assert(text::split(rest@, ',')[0] == rest@.take(end as int));
    assert(text::split(value@, ',')[1] == text::split(rest@, ',')[0]);
    Some(text_of(&lowered(trimmed(&rest[0..end]))))
}

/// The SHA-256 digest of a byte string.
pub uninterp spec fn sha256_digest(body: Seq<u8>) -> Seq<u8>;

/// `sha2::Sha256::digest`: the 32 bytes of the SHA-256 digest of `body`,
/// which depend on the bytes of `body` alone. Which bytes they are is left
/// to the crate.
#[verifier::external_body]
fn sha256(body: &[u8]) -> (digest: Vec<u8>)
    ensures
        digest@ == sha256_digest(body@),
        digest@.len() == 32,
{
    Sha256::digest(body).to_vec()
}

/// The MIC of a body in the digest that `micalg` names, or why there is none.
pub open spec fn digested(micalg: Seq<char>, body: Seq<u8>) -> Result<Seq<u8>, ErrorView> {
    let name = text::lower(micalg);
    if name == "sha-256"@ || name == "sha256"@ {
        Ok(sha256_digest(body))
    } else {
        Err(error::refused("a receipt digest this transport does not compute: "@ + name))
    }
}

/// The MIC of an entity in `micalg`: RFC 4130 section 7.3.1, the digest
/// over the content as it travelled. Only `sha-256` is spoken.
///
/// # Errors
/// Where `micalg` names a digest this crate does not compute.
pub fn mic(micalg: &str, body: &[u8]) -> (digest: Result<Vec<u8>, TransportError>)
    ensures
        error::outcome(digest) == digested(micalg@, body@),
        digest matches Ok(bytes) ==> bytes@.len() == 32,
{
    let name = lowered(&chars_of(micalg));
    if same(&name, &chars_of("sha-256")) || same(&name, &chars_of("sha256")) {
        Ok(sha256(body))
    } else {
        let mut reason = "a receipt digest this transport does not compute: ".to_string();
        reason.append(&text_of(&name));
        Err(protocol_error(reason))
    }
}

/// `<nanos.n@xmip>`.
pub open spec fn id_of(nanos: u128, n: u64) -> Seq<char> {
    "<"@ + text::decimal(nanos as nat) + "."@ + text::decimal(n as nat) + "@xmip>"@
}

/// The `Message-ID` of the `n`th message, made `nanos` nanoseconds into the
/// epoch: `<nanos.n@xmip>`.
#[must_use]
pub fn message_id(nanos: u128, n: u64) -> (id: String)
    ensures
        id@ == id_of(nanos, n),
{
    let mut id = "<".to_string();
    push_decimal(&mut id, nanos);
    id.append(".");
    push_decimal(&mut id, n as u128);
    id.append("@xmip>");
    id
}

#[verifier::external_type_specification]
#[verifier::external_body]
pub struct ExSystemTimeError(std::time::SystemTimeError);

/// `SystemTime::elapsed`, of the start of the epoch: how long ago that was by
/// the machine's clock, or the error of a clock set before it. Nothing is
/// claimed of what the clock says.
#[verifier::external_body]
fn since_epoch() -> Result<Duration, SystemTimeError> {
    SystemTime::UNIX_EPOCH.elapsed()
}

/// The whole of a duration in nanoseconds.
pub uninterp spec fn whole_nanos(duration: Duration) -> u128;

/// `Duration::as_nanos`: the whole of a duration in nanoseconds, a number that
/// depends on the duration alone. A duration is opaque here, so which number
/// it is is left to the standard library.
pub assume_specification[ std::time::Duration::as_nanos ](duration: &std::time::Duration) -> (nanos:
    u128)
    ensures
        nanos == whole_nanos(*duration),
;

/// The nanoseconds into the epoch that a clock shows: none where it is set
/// before the epoch.
pub open spec fn nanos_shown(since: Result<Duration, SystemTimeError>) -> u128 {
    match since {
        Ok(duration) => whole_nanos(duration),
        Err(_) => 0,
    }
}

/// The `Message-ID` of the `n`th message, made when the clock showed that.
#[must_use]
pub fn message_id_at(since: Result<Duration, SystemTimeError>, n: u64) -> (id: String)
    ensures
        id@ == id_of(nanos_shown(since), n),
{
    let nanos: u128 = match since {
        Ok(duration) => duration.as_nanos(),
        Err(_) => 0,
    };
    message_id(nanos, n)
}

/// Whether drawing an id where `before` is the next number may end in `id`,
/// with `after` the next number then: the id is made of that number, whatever
/// the clock says, and the number is used up.
pub open spec fn may_draw(before: u64, id: Seq<char>, after: u64) -> bool {
    &&& exists|nanos: u128| id == #[trigger] id_of(nanos, before)
    &&& after == numbers::successor(before)
}

/// A `Message-ID` that no other message drawn from `numbers` carries:
/// `<nanos.n@xmip>`. The clock decides the nanoseconds.
#[must_use]
pub fn next_message_id(numbers: &mut Numbers) -> (id: String)
    ensures
        may_draw(old(numbers)@, id@, final(numbers)@),
{
    message_id_at(since_epoch(), numbers.next())
}

impl MessageView {
    /// The message with the digest's name trimmed and in lower case.
    pub open spec fn as_read(self) -> MessageView {
        MessageView {
            micalg: match self.micalg {
                Some(micalg) => Some(text::lower(text::trim(micalg))),
                None => None,
            },
            ..self
        }
    }

    /// Whether what the message says goes into headers and comes back: its
    /// partners and its id are not empty, and the digest it asks for is one
    /// name in lower case, without a separator in it and without white space
    /// around it.
    pub open spec fn reads_back(self) -> bool {
        &&& self.from.len() > 0
        &&& self.to.len() > 0
        &&& self.message_id.len() > 0
        &&& self.micalg matches Some(micalg) ==> is_name(micalg)
    }
}

/// Whether a digest's name is in lower case, without a separator in it and
/// without white space around it.
pub open spec fn is_name(micalg: Seq<char>) -> bool {
    &&& text::lower(text::trim(micalg)) == micalg
    &&& !micalg.contains(';')
    &&& !micalg.contains(',')
}

/// The headers of a message, each where it was written.
proof fn lemma_posted_headers(m: MessageView, authority: Seq<char>, path: Seq<char>)
    ensures
        ({
            let headers = posted(m, authority, path).headers;
            &&& http::header_value(headers, "AS2-From"@) == Some(m.from)
            &&& http::header_value(headers, "AS2-To"@) == Some(m.to)
            &&& http::header_value(headers, "Message-ID"@) == Some(m.message_id)
            &&& http::header_value(headers, "Content-Type"@) == Some(m.entity.content_type)
            &&& http::header_value(headers, "Disposition-Notification-To"@) == m.notification_to
            &&& http::header_value(headers, "Disposition-Notification-Options"@) == (
            match m.micalg {
                Some(micalg) => Some(OPTIONS@ + micalg),
                None => None,
            })
        }),
{
    reveal_strlit("Host");
    reveal_strlit("AS2-Version");
    reveal_strlit("AS2-From");
    reveal_strlit("AS2-To");
    reveal_strlit("Message-ID");
    reveal_strlit("Content-Type");
    reveal_strlit("Disposition-Notification-To");
    reveal_strlit("Disposition-Notification-Options");
    let headers = posted(m, authority, path).headers;
    let first = partner_headers(m, authority);
    let second = receipt_headers(m);
    assert forall|j: int| 0 <= j < headers.len() implies #[trigger] headers[j] == (if j < 6 {
        first[j]
    } else {
        second[j - 6]
    }) by {}
    assert(first.len() == 6);
    http::lemma_header_at(headers, "AS2-From"@, 2);
    http::lemma_header_at(headers, "AS2-To"@, 3);
    http::lemma_header_at(headers, "Message-ID"@, 4);
    http::lemma_header_at(headers, "Content-Type"@, 5);
    match m.notification_to {
        Some(_) => {
            assert(headers[6] == second[0]);
            http::lemma_header_at(headers, "Disposition-Notification-To"@, 6);
        },
        None => {
            http::lemma_no_header(headers, "Disposition-Notification-To"@);
        },
    }
    match m.micalg {
        Some(_) => {
            assert(headers.last() == second.last());
            http::lemma_header_at(headers, "Disposition-Notification-Options"@, headers.len() - 1);
        },
        None => {
            http::lemma_no_header(headers, "Disposition-Notification-Options"@);
        },
    }
}

/// What the options say of the digest: that it is optional, and what stands
/// before the next semicolon.
proof fn lemma_asked_value(micalg: Seq<char>) -> (rest: Seq<char>)
    ensures
        first_after(text::split(OPTIONS@ + micalg, ';'), "signed-receipt-micalg="@) == Some(
            "optional,"@ + rest,
        ),
        text::trim(rest) == text::trim(micalg.take(text::find(micalg, ';'))),
        rest.is_prefix_of(seq![' '] + micalg.take(text::find(micalg, ';'))),
{
    reveal_strlit(
        "signed-receipt-protocol=optional, pkcs7-signature; signed-receipt-micalg=optional, ",
    );
    reveal_strlit("signed-receipt-micalg=");
    reveal_strlit("optional,");
    let prefix = "signed-receipt-micalg="@;
    let protocol = OPTIONS@.take(49);
    let start = OPTIONS@.skip(50);
    let named = OPTIONS@.subrange(51, 82);
    let all = OPTIONS@ + micalg;
    // The first parameter is the protocol's.
    assert(all =~= protocol + seq![';'] + (start + micalg));
    assert(!protocol.contains(';'));
    lemmas::lemma_split_once(protocol, ';', start + micalg);
    lemmas::lemma_trimmed(protocol);
    assert(protocol[15] != prefix[15]);
    let parameters = text::split(all, ';');
    assert(parameters.skip(1) =~= text::split(start + micalg, ';'));
    assert(first_after(parameters, prefix) == first_after(parameters.skip(1), prefix));
    // The second names the digest, up to the next separator.
    let own = micalg.take(text::find(micalg, ';'));
    assert(!start.contains(';'));
    assert(parameters[1] == start + own) by {
        lemma_first_piece(start, micalg);
    }
    let tail = seq![' '] + own;
    assert(start + own =~= seq![' '] + (named + tail) + seq![]);
    lemmas::lemma_trim_padded(seq![' '], named + tail, seq![]);
    let rest = lemmas::lemma_trim_head(named, tail);
    assert(tail =~= seq![' '] + own + seq![]);
    lemmas::lemma_trim_padded(seq![' '], own, seq![]);
    let value = named + rest;
    assert(prefix.is_prefix_of(value));
    assert(value.skip(22) =~= "optional,"@ + rest);
    assert(parameters.skip(1)[0] == start + own);
    rest
}

/// The first piece of a text that begins with no semicolon runs to the first
/// semicolon of what follows.
proof fn lemma_first_piece(start: Seq<char>, s: Seq<char>)
    requires
        !start.contains(';'),
    ensures
        text::split(start + s, ';')[0] == start + s.take(text::find(s, ';')),
{
    text::lemma_find(s, ';');
    let own = s.take(text::find(s, ';'));
    assert(!own.contains(';'));
    lemmas::lemma_holds(start, own, ';');
    if s.contains(';') {
        let tail = s.skip(text::find(s, ';') + 1);
        assert(start + s =~= start + own + seq![';'] + tail);
        lemmas::lemma_split_once(start + own, ';', tail);
    } else {
        assert(own =~= s);
        lemmas::lemma_split_none(start + s, ';');
    }
}

/// The digest that the options ask for is a name, and a name is asked for as
/// it is.
proof fn lemma_asked_micalg(micalg: Seq<char>)
    ensures
        is_name(micalg) <==> asked_micalg(OPTIONS@ + micalg) == Some(micalg),
        !micalg.contains(';') && !micalg.contains(',') ==> asked_micalg(OPTIONS@ + micalg) == Some(
            text::lower(text::trim(micalg)),
        ),
{
    reveal_strlit("optional,");
    let own = micalg.take(text::find(micalg, ';'));
    text::lemma_find(micalg, ';');
    let rest = lemma_asked_value(micalg);
    let optional = "optional,"@.take(8);
    let value = "optional,"@ + rest;
    assert(value =~= optional + seq![','] + rest);
    assert(!optional.contains(','));
    lemmas::lemma_split_once(optional, ',', rest);
    text::lemma_find(rest, ',');
    let item = rest.take(text::find(rest, ','));
    assert(text::split(value, ',')[1] == text::split(rest, ',')[0]);
    assert(rest.take(rest.len() as int) =~= rest);
    assert(asked_micalg(OPTIONS@ + micalg) == Some(text::lower(text::trim(item))));
    lemmas::lemma_clean(item, ';');
    lemmas::lemma_clean(item, ',');
    let padded = seq![' '] + own;
    assert forall|i: int| 0 <= i < item.len() implies #[trigger] item[i] != ';' && item[i]
        != ',' by {
        assert(item[i] == rest[i] && rest[i] == padded[i]);
        if i > 0 {
            assert(padded[i] == micalg[i - 1]);
        }
    }
    if !micalg.contains(';') && !micalg.contains(',') {
        assert(own =~= micalg);
        assert(!rest.contains(',')) by {
            if rest.contains(',') {
                let i = choose|i: int| 0 <= i < rest.len() && rest[i] == ',';
                assert(padded[i] == ',');
                assert(micalg[i - 1] == ',');
            }
        }
        assert(item =~= rest);
    }
}

/// A message reads back off the request it wrote, whatever the endpoint it
/// was written for, where its partners and its id are not empty and the
/// digest it asks for is one name; and no other message does. A digest's name
/// with white space around it or in upper case comes back without.
pub proof fn law_message_reads_back(m: MessageView, authority: Seq<char>, path: Seq<char>)
    ensures
        received(posted(m, authority, path)) == Ok::<MessageView, ErrorView>(m) <==> m.reads_back(),
        m.from.len() > 0 && m.to.len() > 0 && m.message_id.len() > 0 && (m.micalg matches Some(
            micalg,
        ) ==> !micalg.contains(';') && !micalg.contains(',')) ==> received(
            posted(m, authority, path),
        ) == Ok::<MessageView, ErrorView>(m.as_read()),
{
    lemma_posted_headers(m, authority, path);
    if let Some(micalg) = m.micalg {
        lemma_asked_micalg(micalg);
    }
}

/// A message id stands for the nanoseconds and the number that it was made
/// of: two ids are the same only where both are.
pub proof fn law_message_ids_differ(nanos: u128, n: u64, other_nanos: u128, other: u64)
    ensures
        id_of(nanos, n) == id_of(other_nanos, other) <==> nanos == other_nanos && n == other,
{
    reveal_strlit("<");
    reveal_strlit(".");
    reveal_strlit("@xmip>");
    let (a, b) = (text::decimal(nanos as nat), text::decimal(n as nat));
    let (c, d) = (text::decimal(other_nanos as nat), text::decimal(other as nat));
    lemmas::lemma_decimal(nanos as nat);
    lemmas::lemma_decimal(other_nanos as nat);
    assert(!("<"@ + a).contains('.'));
    assert(!("<"@ + c).contains('.'));
    assert(id_of(nanos, n) =~= "<"@ + a + seq!['.'] + (b + "@xmip>"@));
    assert(id_of(other_nanos, other) =~= "<"@ + c + seq!['.'] + (d + "@xmip>"@));
    lemmas::lemma_split_once("<"@ + a, '.', b + "@xmip>"@);
    lemmas::lemma_split_once("<"@ + c, '.', d + "@xmip>"@);
    if id_of(nanos, n) == id_of(other_nanos, other) {
        assert(("<"@ + a).skip(1) =~= a);
        assert(("<"@ + c).skip(1) =~= c);
        assert((b + "@xmip>"@).take(b.len() as int) =~= b);
        assert((d + "@xmip>"@).take(d.len() as int) =~= d);
        lemmas::lemma_decimal_differs(nanos as nat, other_nanos as nat);
        lemmas::lemma_decimal_differs(n as nat, other as nat);
    }
}

/// Of the ids drawn one after another, from the numbers that `states` run
/// through, no two are the same, whatever the clock said at each: as long as
/// there are numbers that were not used.
pub proof fn law_no_id_is_drawn_twice(states: Seq<u64>, ids: Seq<Seq<char>>)
    requires
        states.len() == ids.len() + 1,
        ids.len() <= 0x1_0000_0000_0000_0000,
        forall|i: int|
            0 <= i < ids.len() ==> may_draw(states[i], #[trigger] ids[i], states[i + 1]),
    ensures
        forall|i: int, j: int|
            0 <= i < j < ids.len() ==> #[trigger] ids[i] != #[trigger] ids[j],
{
    assert forall|i: int, j: int| 0 <= i < j < ids.len() implies #[trigger] ids[i]
        != #[trigger] ids[j] by {
        lemma_states(states, ids, i as nat);
        lemma_states(states, ids, j as nat);
        numbers::law_numbers_in_turn_differ(states[0], i as nat, j as nat);
        let nanos = choose|nanos: u128| ids[i] == #[trigger] id_of(nanos, states[i]);
        let other_nanos = choose|nanos: u128| ids[j] == #[trigger] id_of(nanos, states[j]);
        law_message_ids_differ(nanos, states[i], other_nanos, states[j]);
    }
}

/// The numbers that drawing ids runs through are the numbers in turn.
proof fn lemma_states(states: Seq<u64>, ids: Seq<Seq<char>>, i: nat)
    requires
        states.len() == ids.len() + 1,
        forall|i: int|
            0 <= i < ids.len() ==> may_draw(states[i], #[trigger] ids[i], states[i + 1]),
        i <= ids.len(),
    ensures
        states[i as int] == numbers::nth(states[0], i),
    decreases i,
{
    if i > 0 {
        lemma_states(states, ids, (i - 1) as nat);
        assert(may_draw(states[i - 1], ids[i - 1], states[i - 1 + 1]));
    }
}

/// A message id fits a header and a receipt: it is not empty, is on one line,
/// and has no white space around it.
pub proof fn law_message_id_fits(nanos: u128, n: u64)
    ensures
        id_of(nanos, n).len() > 0,
        !id_of(nanos, n).contains('\n'),
        text::trim(id_of(nanos, n)) == id_of(nanos, n),
{
    reveal_strlit("<");
    reveal_strlit(".");
    reveal_strlit("@xmip>");
    let (a, b) = (text::decimal(nanos as nat), text::decimal(n as nat));
    lemmas::lemma_decimal(nanos as nat);
    lemmas::lemma_decimal(n as nat);
    lemmas::lemma_holds("<"@, a, '\n');
    lemmas::lemma_holds("<"@ + a, "."@, '\n');
    lemmas::lemma_holds("<"@ + a + "."@, b, '\n');
    lemmas::lemma_holds("<"@ + a + "."@ + b, "@xmip>"@, '\n');
    lemmas::lemma_trimmed(id_of(nanos, n));
}

/// The letters of a digest's name may be of either case, and the hyphen in it
/// may be missing.
pub proof fn law_digest_goes_by_many_names(micalg: Seq<char>, other: Seq<char>, body: Seq<u8>)
    requires
        text::lower(micalg) == text::lower(other),
    ensures
        digested(micalg, body) == digested(other, body),
        digested("sha256"@, body) == digested("sha-256"@, body),
{
    reveal_strlit("sha256");
    reveal_strlit("sha-256");
    assert(text::lower("sha256"@) =~= "sha256"@);
    assert(text::lower("sha-256"@) =~= "sha-256"@);
}

/// The request that carries a message is a POST for exactly the path it is
/// sent to, at exactly that authority, with the entity's bytes for its body;
/// each thing that the message says stands in the header of its name, and no
/// header says anything else.
pub proof fn law_request_carries_the_message(
    m: MessageView,
    authority: Seq<char>,
    path: Seq<char>,
    name: Seq<char>,
)
    ensures
        ({
            let request = posted(m, authority, path);
            &&& request.method == "POST"@
            &&& request.path == path
            &&& request.body == m.entity.body
            &&& http::header_value(request.headers, "Host"@) == Some(authority)
            &&& http::header_value(request.headers, "AS2-Version"@) == Some("1.2"@)
            &&& http::header_value(request.headers, "AS2-From"@) == Some(m.from)
            &&& http::header_value(request.headers, "AS2-To"@) == Some(m.to)
            &&& http::header_value(request.headers, "Message-ID"@) == Some(m.message_id)
            &&& http::header_value(request.headers, "Content-Type"@) == Some(m.entity.content_type)
            &&& http::header_value(request.headers, "Disposition-Notification-To"@)
                == m.notification_to
            &&& http::header_value(request.headers, "Disposition-Notification-Options"@) == (
            match m.micalg {
                Some(micalg) => Some(
                    "signed-receipt-protocol=optional, pkcs7-signature; signed-receipt-micalg=optional, "@
                        + micalg,
                ),
                None => None,
            })
            &&& request.headers.len() == 6 + (if m.notification_to is Some {
                1int
            } else {
                0
            }) + (if m.micalg is Some {
                1int
            } else {
                0
            })
            &&& http::header_value(request.headers, name) is Some ==> seq![
                text::lower("Host"@),
                text::lower("AS2-Version"@),
                text::lower("AS2-From"@),
                text::lower("AS2-To"@),
                text::lower("Message-ID"@),
                text::lower("Content-Type"@),
                text::lower("Disposition-Notification-To"@),
                text::lower("Disposition-Notification-Options"@),
            ].contains(text::lower(name))
        }),
{
    lemma_posted_headers(m, authority, path);
    reveal_strlit("Host");
    reveal_strlit("AS2-Version");
    let headers = posted(m, authority, path).headers;
    assert(headers[0] == ("Host"@, authority));
    assert(headers[1] == ("AS2-Version"@, VERSION@));
    http::lemma_header_at(headers, "Host"@, 0);
    http::lemma_header_at(headers, "AS2-Version"@, 1);
    let names = seq![
        text::lower("Host"@),
        text::lower("AS2-Version"@),
        text::lower("AS2-From"@),
        text::lower("AS2-To"@),
        text::lower("Message-ID"@),
        text::lower("Content-Type"@),
        text::lower("Disposition-Notification-To"@),
        text::lower("Disposition-Notification-Options"@),
    ];
    if !names.contains(text::lower(name)) {
        assert forall|i: int| 0 <= i < headers.len() implies text::lower((#[trigger] headers[i]).0)
            != text::lower(name) by {
            if i < 6 {
                assert(headers[i] == partner_headers(m, authority)[i]);
                assert(names[i] == text::lower(headers[i].0));
            } else {
                assert(headers[i] == receipt_headers(m)[i - 6]);
                if i == 6 && m.notification_to is Some {
                    assert(names[6] == text::lower(headers[i].0));
                } else {
                    assert(names[7] == text::lower(headers[i].0));
                }
            }
        }
        http::law_no_header_is_made_up(headers, name);
    }
}

/// A request carries a message if and only if it is a POST whose first
/// `AS2-From`, `AS2-To` and `Message-ID` are there and not empty. The message
/// says what its headers say, and its entity is the whole body; nothing else
/// of the request counts. What carries none is refused for good, and told what
/// it lacks first.
pub proof fn law_request_is_read(request: RequestView)
    ensures
        ({
            let from = http::header_value(request.headers, "AS2-From"@);
            let to = http::header_value(request.headers, "AS2-To"@);
            let id = http::header_value(request.headers, "Message-ID"@);
            let has_from = from matches Some(v) && v.len() > 0;
            let has_to = to matches Some(v) && v.len() > 0;
            let has_id = id matches Some(v) && v.len() > 0;
            &&& received(request) is Ok <==> request.method == "POST"@ && has_from && has_to
                && has_id
            &&& received(request) matches Ok(m) ==> {
                &&& from == Some(m.from)
                &&& to == Some(m.to)
                &&& id == Some(m.message_id)
                &&& m.notification_to == http::header_value(
                    request.headers,
                    "Disposition-Notification-To"@,
                )
                &&& m.micalg == (match http::header_value(
                    request.headers,
                    "Disposition-Notification-Options"@,
                ) {
                    Some(options) => asked_micalg(options),
                    None => None,
                })
                &&& m.entity.body == request.body
                &&& m.entity.content_type == (match http::header_value(
                    request.headers,
                    "Content-Type"@,
                ) {
                    Some(content_type) => content_type,
                    None => "application/octet-stream"@,
                })
            }
            &&& received(request) matches Err(e) ==> !e.retryable && e.message == (
            if request.method != "POST"@ {
                "an AS2 message is a POST, not a "@ + request.method
            } else if !has_from {
                "a POST with no "@ + "AS2-From"@ + " header"@
            } else if !has_to {
                "a POST with no "@ + "AS2-To"@ + " header"@
            } else {
                "a POST with no "@ + "Message-ID"@ + " header"@
            })
        }),
{
}

/// The digest asked for is the second item, between commas, of the first
/// parameter, between semicolons, that is a `signed-receipt-micalg`: white
/// space around it and the case of its letters say nothing. Where that
/// parameter has one item alone, none is asked for.
pub proof fn law_micalg_is_the_second_item(
    options: Seq<char>,
    i: int,
    first: Seq<char>,
    second: Seq<char>,
    tail: Seq<char>,
)
    requires
        0 <= i < text::split(options, ';').len(),
        forall|j: int|
            0 <= j < i ==> !"signed-receipt-micalg="@.is_prefix_of(
                text::trim(#[trigger] text::split(options, ';')[j]),
            ),
        !first.contains(','),
        !second.contains(','),
        tail.len() > 0 ==> tail[0] == ',',
    ensures
        text::trim(text::split(options, ';')[i]) == "signed-receipt-micalg="@ + (first + seq![',']
            + (second + tail)) ==> asked_micalg(options) == Some(text::lower(text::trim(second))),
        text::trim(text::split(options, ';')[i]) == "signed-receipt-micalg="@ + first
            ==> asked_micalg(options) is None,
{
    let prefix = "signed-receipt-micalg="@;
    let parameters = text::split(options, ';');
    let given = text::trim(parameters[i]);
    let value = first + seq![','] + (second + tail);
    if given == prefix + value {
        lemmas::law_prefix_is_taken_off(given, prefix, value);
        lemma_first_after(parameters, prefix, i);
        lemmas::lemma_split_once(first, ',', second + tail);
        assert(text::split(value, ',')[1] == text::split(second + tail, ',')[0]);
        if tail.len() > 0 {
            assert(second + tail =~= second + seq![','] + tail.skip(1));
            lemmas::lemma_split_once(second, ',', tail.skip(1));
        } else {
            assert(second + tail =~= second);
            lemmas::lemma_split_none(second, ',');
        }
        text::lemma_split_len(second + tail, ',');
    }
    if given == prefix + first {
        lemmas::law_prefix_is_taken_off(given, prefix, first);
        lemma_first_after(parameters, prefix, i);
        lemmas::lemma_split_none(first, ',');
    }
}

/// No digest is asked for where no parameter is a `signed-receipt-micalg`.
pub proof fn law_no_micalg_is_made_up(options: Seq<char>)
    requires
        forall|j: int|
            0 <= j < text::split(options, ';').len() ==> !"signed-receipt-micalg="@.is_prefix_of(
                text::trim(#[trigger] text::split(options, ';')[j]),
            ),
    ensures
        asked_micalg(options) is None,
{
    lemma_none_after(text::split(options, ';'), "signed-receipt-micalg="@);
}

/// The first parameter that begins so is the one found.
proof fn lemma_first_after(parameters: Seq<Seq<char>>, prefix: Seq<char>, i: int)
    requires
        0 <= i < parameters.len(),
        forall|j: int| 0 <= j < i ==> !prefix.is_prefix_of(text::trim(#[trigger] parameters[j])),
        prefix.is_prefix_of(text::trim(parameters[i])),
    ensures
        first_after(parameters, prefix) == text::strip_prefix(text::trim(parameters[i]), prefix),
    decreases i,
{
    if i > 0 {
        let rest = parameters.skip(1);
        assert(!prefix.is_prefix_of(text::trim(parameters[0])));
        assert forall|j: int| 0 <= j < i - 1 implies !prefix.is_prefix_of(
            text::trim(#[trigger] rest[j]),
        ) by {
            assert(rest[j] == parameters[j + 1]);
        }
        assert(rest[i - 1] == parameters[i]);
        lemma_first_after(rest, prefix, i - 1);
    }
}

/// None is found where none begins so.
proof fn lemma_none_after(parameters: Seq<Seq<char>>, prefix: Seq<char>)
    requires
        forall|j: int|
            0 <= j < parameters.len() ==> !prefix.is_prefix_of(
                text::trim(#[trigger] parameters[j]),
            ),
    ensures
        first_after(parameters, prefix) is None,
    decreases parameters.len(),
{
    if parameters.len() > 0 {
        let rest = parameters.skip(1);
        assert(!prefix.is_prefix_of(text::trim(parameters[0])));
        assert forall|j: int| 0 <= j < rest.len() implies !prefix.is_prefix_of(
            text::trim(#[trigger] rest[j]),
        ) by {
            assert(rest[j] == parameters[j + 1]);
        }
        lemma_none_after(rest, prefix);
    }
}

/// A MIC is computed if and only if the digest's name, the case of its letters
/// apart, is `sha-256` or `sha256`, and it is the SHA-256 digest of the body.
/// Any other digest is refused for good, and named.
pub proof fn law_only_sha_256_is_spoken(micalg: Seq<char>, body: Seq<u8>)
    ensures
        digested(micalg, body) is Ok <==> seq!["sha-256"@, "sha256"@].contains(text::lower(micalg)),
        digested(micalg, body) matches Ok(digest) ==> digest == sha256_digest(body),
        digested(micalg, body) matches Err(e) ==> !e.retryable && e.message
            == "a receipt digest this transport does not compute: "@ + text::lower(micalg),
        digested("sha1"@, body) is Err,
        digested("sha-1"@, body) is Err,
        digested("md5"@, body) is Err,
        digested("sha-384"@, body) is Err,
        digested("sha-512"@, body) is Err,
{
    reveal_strlit("sha-256");
    reveal_strlit("sha256");
    reveal_strlit("sha1");
    reveal_strlit("sha-1");
    reveal_strlit("md5");
    reveal_strlit("sha-384");
    reveal_strlit("sha-512");
    let spoken = seq!["sha-256"@, "sha256"@];
    assert(spoken[0] == "sha-256"@ && spoken[1] == "sha256"@);
    assert(text::lower("sha1"@).len() == 4);
    assert(text::lower("sha-1"@).len() == 5);
    assert(text::lower("md5"@).len() == 3);
    assert(text::lower("sha-384"@)[4] == '3');
    assert(text::lower("sha-512"@)[4] == '5');
}

/// A message id is, between angle brackets, the nanoseconds, a full stop, the
/// number and `@xmip`, each number in its digits.
pub proof fn law_message_id_spells_its_numbers(nanos: u128, n: u64)
    ensures
        exists|a: Seq<char>, b: Seq<char>|
            #![trigger lemmas::number(a), lemmas::number(b)]
            id_of(nanos, n) == "<"@ + a + "."@ + b + "@xmip>"@ && lemmas::number(a) == nanos
                && lemmas::number(b) == n && (forall|i: int|
                0 <= i < a.len() ==> '0' <= #[trigger] a[i] <= '9') && (forall|i: int|
                0 <= i < b.len() ==> '0' <= #[trigger] b[i] <= '9'),
{
    let (a, b) = (text::decimal(nanos as nat), text::decimal(n as nat));
    lemmas::law_digits_stand_for_the_number(nanos as nat);
    lemmas::law_digits_stand_for_the_number(n as nat);
    assert(lemmas::number(a) == nanos && lemmas::number(b) == n);
}

/// A clock that is set before the epoch shows no nanoseconds, and any other
/// shows all of the time since.
pub proof fn law_clock_is_read(since: Result<Duration, SystemTimeError>)
    ensures
        since is Err ==> nanos_shown(since) == 0,
        since matches Ok(duration) ==> nanos_shown(since) == whole_nanos(duration),
{
}

/// A message asks for its receipt, to its own sender and in that digest, and
/// carries what it was given.
pub proof fn law_message_asks_for_its_receipt(
    from: Seq<char>,
    to: Seq<char>,
    micalg: Seq<char>,
    entity: EntityView,
    message_id: Seq<char>,
)
    ensures
        composed(from, to, micalg, entity, message_id).from == from,
        composed(from, to, micalg, entity, message_id).to == to,
        composed(from, to, micalg, entity, message_id).message_id == message_id,
        composed(from, to, micalg, entity, message_id).notification_to == Some(from),
        composed(from, to, micalg, entity, message_id).micalg == Some(micalg),
        composed(from, to, micalg, entity, message_id).entity == entity,
{
}

} // verus!
