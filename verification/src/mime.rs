//! The parts of a multipart body, and what a `Content-Type` says: its media
//! type and its parameters, RFC 2045 section 5.1.
use vstd::prelude::*;

use crate::http::find_header;
use crate::text::{chars_of, find_char, lowered, same, text_of, trimmed};
use crate::{http, lemmas, text};

verus! {

/// One part of a multipart body.
#[derive(Debug, PartialEq, Eq)]
pub struct Part {
    pub headers: Vec<(String, String)>,
    pub body: Vec<u8>,
}

/// A [`Part`] as a mathematical value.
pub struct PartView {
    pub headers: http::HeadersView,
    pub body: Seq<u8>,
}

impl View for Part {
    type V = PartView;

    open spec fn view(&self) -> PartView {
        PartView { headers: http::headers_view(self.headers@), body: self.body@ }
    }
}

/// The parts that `parts` holds.
pub open spec fn parts_view(parts: Seq<Part>) -> Seq<PartView> {
    parts.map_values(|part: Part| part@)
}

impl Part {
    /// A part with that body and no headers.
    #[must_use]
    pub fn new(body: Vec<u8>) -> (part: Self)
        ensures
            part@ == (PartView { headers: seq![], body: body@ }),
    {
        let part = Part { headers: Vec::new(), body };
        assert(http::headers_view(part.headers@) =~= seq![]);
        part
    }

    /// This part with one header more.
    #[must_use]
    pub fn header(self, name: &str, value: &str) -> (part: Self)
        ensures
            part@ == (PartView { headers: self@.headers.push((name@, value@)), ..self@ }),
    {
        let mut part = self;
        let ghost before = part.headers@;
        part.headers.push((name.to_string(), value.to_string()));
        assert(http::headers_view(part.headers@) =~= http::headers_view(before).push(
            (name@, value@),
        ));
        part
    }

    /// The `Content-Type` the part carries.
    #[must_use]
    pub fn content_type(&self) -> (value: Option<&String>)
        ensures
            http::header_value(self@.headers, "Content-Type"@) == (match value {
                Some(s) => Some(s@),
                None => None,
            }),
    {
        find_header(&self.headers, "Content-Type")
    }
}

/// The media type that a `Content-Type` names, in lower case and without its
/// parameters.
pub open spec fn media_type_of(content_type: Seq<char>) -> Seq<char> {
    text::lower(text::trim(content_type.take(text::find(content_type, ';'))))
}

/// The media type that a `Content-Type` names, in lower case and without its
/// parameters.
#[must_use]
pub fn media_type(content_type: &str) -> (name: String)
    ensures
        name@ == media_type_of(content_type@),
{
    let chars = chars_of(content_type);
    let end = find_char(&chars, ';');
    assert(chars@.subrange(0, end as int) =~= chars@.take(end as int));
    text_of(&lowered(trimmed(&chars[0..end])))
}

/// The index of the first `;` that no quotation marks enclose, or the length
/// of `s`; `quoted` where a quotation is open at the start of `s`.
pub open spec fn find_semicolon(s: Seq<char>, quoted: bool) -> int
    decreases s.len(),
{
    if s.len() == 0 || (s[0] == ';' && !quoted) {
        0
    } else {
        1 + find_semicolon(s.skip(1), quoted != (s[0] == '"'))
    }
}

/// A parameter's value without the quotation marks around it.
pub open spec fn unquoted(value: Seq<char>) -> Seq<char> {
    if value.len() > 0 && value[0] == '"' {
        value.skip(1).take(text::find(value.skip(1), '"'))
    } else {
        value
    }
}

/// The value of the first parameter of that name among `parameters`, which
/// semicolons separate.
pub open spec fn parameter_among(parameters: Seq<char>, name: Seq<char>) -> Option<Seq<char>>
    decreases parameters.len(),
{
    let end = find_semicolon(parameters, false);
    let rest = if 0 <= end < parameters.len() {
        parameter_among(parameters.skip(end + 1), name)
    } else {
        None
    };
    match text::split_once(parameters.take(end), '=') {
        Some((key, value)) if text::lower(text::trim(key)) == text::lower(name) => Some(
            unquoted(text::trim(value)),
        ),
        _ => rest,
    }
}

/// The value of the first parameter of that name in a `Content-Type`.
pub open spec fn parameter_of(content_type: Seq<char>, name: Seq<char>) -> Option<Seq<char>> {
    let end = find_semicolon(content_type, false);
    if end < content_type.len() {
        parameter_among(content_type.skip(end + 1), name)
    } else {
        None
    }
}

/// What holds no quotation mark, and no `;` outside a quotation, is passed over.
proof fn lemma_find_semicolon(a: Seq<char>, rest: Seq<char>, quoted: bool)
    requires
        !a.contains('"'),
        !quoted ==> !a.contains(';'),
    ensures
        find_semicolon(a + rest, quoted) == a.len() + find_semicolon(rest, quoted),
    decreases a.len(),
{
    if a.len() == 0 {
        assert(a + rest =~= rest);
    } else {
        let tail = a.skip(1);
        assert(a[0] != '"');
        assert(!quoted ==> a[0] != ';');
        assert forall|c: char| tail.contains(c) implies a.contains(c) by {
            let i = choose|i: int| 0 <= i < tail.len() && tail[i] == c;
            assert(a[i + 1] == c);
        }
        lemma_find_semicolon(tail, rest, quoted);
        assert((a + rest).skip(1) =~= tail + rest);
    }
}

/// A parameter of another name is passed over.
proof fn lemma_other_parameter(key: Seq<char>, value: Seq<char>, rest: Seq<char>, name: Seq<char>)
    requires
        !key.contains(';') && !key.contains('"') && !key.contains('='),
        !value.contains(';') && !value.contains('"'),
        text::trim(key) == key,
        key.len() != name.len(),
    ensures
        parameter_among(seq![' '] + key + seq!['='] + value + (seq![';'] + rest), name)
            == parameter_among(rest, name),
{
    let padded = seq![' '] + key;
    let first = padded + seq!['='] + value;
    let all = first + (seq![';'] + rest);
    lemmas::lemma_holds(seq![' '], key, ';');
    lemmas::lemma_holds(seq![' '], key, '"');
    lemmas::lemma_holds(seq![' '], key, '=');
    lemmas::lemma_holds(padded, seq!['='], ';');
    lemmas::lemma_holds(padded, seq!['='], '"');
    lemmas::lemma_holds(padded + seq!['='], value, ';');
    lemmas::lemma_holds(padded + seq!['='], value, '"');
    lemma_find_semicolon(first, seq![';'] + rest, false);
    assert(find_semicolon(seq![';'] + rest, false) == 0);
    assert(find_semicolon(all, false) == first.len());
    assert(all.take(first.len() as int) =~= first);
    assert(all.skip(first.len() as int + 1) =~= rest);
    lemmas::lemma_split_once(padded, '=', value);
    assert(padded =~= seq![' '] + key + seq![]);
    lemmas::lemma_trim_padded(seq![' '], key, seq![]);
    assert(text::lower(key).len() != text::lower(name).len());
}

/// A parameter in quotation marks runs to the end, and its value is what is
/// between them.
proof fn lemma_quoted_parameter(name: Seq<char>, quoted: Seq<char>)
    requires
        !name.contains(';') && !name.contains('"') && !name.contains('='),
        !quoted.contains('"'),
        text::trim(name) == name,
    ensures
        parameter_among(seq![' '] + name + seq!['='] + (seq!['"'] + quoted + seq!['"']), name)
            == Some(quoted),
{
    let given = seq!['"'] + quoted + seq!['"'];
    let padded = seq![' '] + name;
    let opening = padded + seq!['='];
    let all = opening + given;
    let after = quoted + seq!['"'];
    lemmas::lemma_holds(seq![' '], name, ';');
    lemmas::lemma_holds(seq![' '], name, '"');
    lemmas::lemma_holds(seq![' '], name, '=');
    lemmas::lemma_holds(padded, seq!['='], ';');
    lemmas::lemma_holds(padded, seq!['='], '"');
    lemma_find_semicolon(opening, given, false);
    assert(given.skip(1) =~= after);
    assert(given[0] == '"');
    assert(find_semicolon(given, false) == 1 + find_semicolon(after, true));
    lemma_find_semicolon(quoted, seq!['"'], true);
    assert(seq!['"'].skip(1) =~= Seq::<char>::empty());
    assert(find_semicolon(seq!['"'].skip(1), false) == 0);
    assert(find_semicolon(seq!['"'], true) == 1);
    assert(find_semicolon(all, false) == all.len());
    assert(all.take(all.len() as int) =~= all);
    assert(all =~= padded + seq!['='] + given);
    lemmas::lemma_split_once(padded, '=', given);
    assert(padded =~= seq![' '] + name + seq![]);
    lemmas::lemma_trim_padded(seq![' '], name, seq![]);
    lemmas::lemma_trimmed(given);
    assert(after =~= quoted + seq!['"'] + seq![]);
    lemmas::lemma_split_once(quoted, '"', seq![]);
    assert(after.take(quoted.len() as int) =~= quoted);
}

/// A `Content-Type` of two parameters, the second in quotation marks.
pub proof fn lemma_last_parameter(
    kind: Seq<char>,
    key: Seq<char>,
    value: Seq<char>,
    name: Seq<char>,
    quoted: Seq<char>,
)
    requires
        !kind.contains(';') && !kind.contains('"'),
        !key.contains(';') && !key.contains('"') && !key.contains('='),
        !value.contains(';') && !value.contains('"'),
        !name.contains(';') && !name.contains('"') && !name.contains('='),
        !quoted.contains('"'),
        text::trim(key) == key,
        text::trim(name) == name,
        key.len() != name.len(),
    ensures
        ({
            let content_type = kind + (seq![';'] + (seq![' '] + key + seq!['='] + value + (seq![';']
                + (seq![' '] + name + seq!['='] + (seq!['"'] + quoted + seq!['"'])))));
            &&& parameter_of(content_type, name) == Some(quoted)
            &&& media_type_of(content_type) == text::lower(text::trim(kind))
        }),
{
    let last = seq![' '] + name + seq!['='] + (seq!['"'] + quoted + seq!['"']);
    let tail = seq![' '] + key + seq!['='] + value + (seq![';'] + last);
    let content_type = kind + (seq![';'] + tail);
    assert(content_type =~= kind + seq![';'] + tail);
    lemmas::lemma_split_once(kind, ';', tail);
    assert(content_type.take(kind.len() as int) =~= kind);
    lemma_find_semicolon(kind, seq![';'] + tail, false);
    assert(find_semicolon(seq![';'] + tail, false) == 0);
    assert(content_type.skip(kind.len() as int + 1) =~= tail);
    lemma_other_parameter(key, value, last, name);
    lemma_quoted_parameter(name, quoted);
}

fn semicolon(s: &[char]) -> (i: usize)
    ensures
        i == find_semicolon(s@, false),
        i <= s@.len(),
{
    let mut i: usize = 0;
    let mut quoted = false;
    assert(s@.skip(0) =~= s@);
    while i < s.len() && (quoted || s[i] != ';')
        invariant
            i <= s@.len(),
            find_semicolon(s@, false) == i + find_semicolon(s@.skip(i as int), quoted),
        decreases s@.len() - i,
    {
        assert(s@.skip(i as int).skip(1) =~= s@.skip(i + 1));
        quoted = quoted != (s[i] == '"');
        i += 1;
    }
    i
}

/// The value of the first parameter of that name in a `Content-Type`, without
/// the quotation marks around it.
#[must_use]
pub fn parameter(content_type: &str, name: &str) -> (value: Option<String>)
    ensures
        text::optional(value) == parameter_of(content_type@, name@),
{
    let chars = chars_of(content_type);
    let wanted = lowered(&chars_of(name));
    let start = semicolon(&chars);
    if start == chars.len() {
        return None;
    }
    let mut rest: &[char] = &chars[start + 1..chars.len()];
    assert(rest@ =~= content_type@.skip(start + 1));
    loop
        invariant
            wanted@ == text::lower(name@),
            parameter_among(rest@, name@) == parameter_of(content_type@, name@),
        decreases rest@.len(),
    {
        let end = semicolon(rest);
        let piece: &[char] = &rest[0..end];
        assert(piece@ =~= rest@.take(end as int));
        let equals = find_char(piece, '=');
        if equals < piece.len() {
            assert(piece@.subrange(0, equals as int) =~= piece@.take(equals as int));
            assert(piece@.subrange(equals + 1, piece@.len() as int) =~= piece@.skip(equals + 1));
            if same(&lowered(trimmed(&piece[0..equals])), &wanted) {
                let value = trimmed(&piece[equals + 1..piece.len()]);
                if value.len() > 0 && value[0] == '"' {
                    let inner: &[char] = &value[1..value.len()];
                    assert(inner@ =~= value@.skip(1));
                    let close = find_char(inner, '"');
                    assert(inner@.subrange(0, close as int) =~= inner@.take(close as int));
                    return Some(text_of(&inner[0..close]));
                }
                return Some(text_of(value));
            }
        }
        if end == rest.len() {
            return None;
        }
        assert(rest@.subrange(end + 1, rest@.len() as int) =~= rest@.skip(end + 1));
        rest = &rest[end + 1..rest.len()];
    }
}

/// A media type is what stands before the first semicolon, or the whole where
/// there is none: white space around it and the case of its letters say
/// nothing, and neither does anything after the semicolon.
pub proof fn law_media_type_stands_before_its_parameters(
    before: Seq<char>,
    kind: Seq<char>,
    after: Seq<char>,
    rest: Seq<char>,
)
    requires
        !kind.contains(';'),
        text::trim(kind) == kind,
        forall|j: int| 0 <= j < before.len() ==> text::is_space(#[trigger] before[j]),
        forall|j: int| 0 <= j < after.len() ==> text::is_space(#[trigger] after[j]),
    ensures
        media_type_of(before + kind + after + seq![';'] + rest) == text::lower(kind),
        media_type_of(before + kind + after) == text::lower(kind),
{
    let named = before + kind + after;
    lemmas::lemma_holds(before, kind, ';');
    lemmas::lemma_holds(before + kind, after, ';');
    assert(!named.contains(';'));
    lemmas::lemma_split_once(named, ';', rest);
    lemmas::lemma_split_none(named, ';');
    assert((named + seq![';'] + rest).take(named.len() as int) =~= named);
    assert(named.take(named.len() as int) =~= named);
    lemmas::lemma_trim_padded(before, kind, after);
}

/// Whether a parameter ends where `tail` begins.
pub open spec fn ends_here(tail: Seq<char>) -> bool {
    tail.len() > 0 ==> tail[0] == ';'
}

/// A parameter is its name, an equals sign and its value: it is the one asked
/// for where its name is, case and white space apart, and otherwise what
/// follows it is asked.
pub proof fn law_parameter_is_read(
    kind: Seq<char>,
    key: Seq<char>,
    value: Seq<char>,
    tail: Seq<char>,
    name: Seq<char>,
)
    requires
        !kind.contains(';') && !kind.contains('"'),
        !key.contains(';') && !key.contains('"') && !key.contains('='),
        !value.contains(';') && !value.contains('"'),
        ends_here(tail),
    ensures
        parameter_of(kind + seq![';'] + key + seq!['='] + value + tail, name) == (if text::lower(
            text::trim(key),
        ) == text::lower(name) {
            Some(text::trim(value))
        } else {
            parameter_of(tail, name)
        }),
{
    let opening = key + seq!['='];
    let piece = opening + value;
    lemmas::lemma_holds(key, seq!['='], ';');
    lemmas::lemma_holds(key, seq!['='], '"');
    lemmas::lemma_holds(opening, value, ';');
    lemmas::lemma_holds(opening, value, '"');
    assert(!seq!['='].contains(';') && !seq!['='].contains('"'));
    lemma_find_semicolon(piece, tail, false);
    lemma_piece(kind, key, value, tail, name);
    assert(kind + seq![';'] + key + seq!['='] + value + tail =~= kind + seq![';'] + (piece + tail));
    lemmas::lemma_trim_holds(value, '"');
    let shown = text::trim(value);
    if shown.len() > 0 {
        assert(shown.contains(shown[0]));
    }
}

/// The value of a parameter in quotation marks is what stands between them,
/// as it is, semicolons and white space with it.
pub proof fn law_quoted_parameter_is_read(
    kind: Seq<char>,
    key: Seq<char>,
    before: Seq<char>,
    quoted: Seq<char>,
    after: Seq<char>,
    tail: Seq<char>,
    name: Seq<char>,
)
    requires
        !kind.contains(';') && !kind.contains('"'),
        !key.contains(';') && !key.contains('"') && !key.contains('='),
        forall|j: int| 0 <= j < before.len() ==> text::is_space(#[trigger] before[j]),
        forall|j: int| 0 <= j < after.len() ==> text::is_space(#[trigger] after[j]),
        !quoted.contains('"'),
        ends_here(tail),
    ensures
        parameter_of(
            kind + seq![';'] + key + seq!['='] + (before + (seq!['"'] + quoted + seq!['"']) + after)
                + tail,
            name,
        ) == (if text::lower(text::trim(key)) == text::lower(name) {
            Some(quoted)
        } else {
            parameter_of(tail, name)
        }),
{
    let given = seq!['"'] + quoted + seq!['"'];
    let value = before + given + after;
    let opening = key + seq!['='] + before;
    let piece = key + seq!['='] + value;
    lemmas::lemma_holds(key, seq!['='], ';');
    lemmas::lemma_holds(key, seq!['='], '"');
    lemmas::lemma_holds(key + seq!['='], before, ';');
    lemmas::lemma_holds(key + seq!['='], before, '"');
    assert(!seq!['='].contains(';') && !seq!['='].contains('"'));
    assert(!before.contains(';') && !before.contains('"'));
    assert(!after.contains(';') && !after.contains('"'));
    // Up to the quotation, through it, and to the end.
    let last = after + tail;
    let closing = seq!['"'] + last;
    let inside = quoted + closing;
    let rest = seq!['"'] + inside;
    assert(piece + tail =~= opening + rest);
    lemma_find_semicolon(opening, rest, false);
    assert(rest.skip(1) =~= inside);
    assert(find_semicolon(rest, false) == 1 + find_semicolon(inside, true));
    lemma_find_semicolon(quoted, closing, true);
    assert(closing.skip(1) =~= last);
    assert(find_semicolon(closing, true) == 1 + find_semicolon(last, false));
    lemma_find_semicolon(after, tail, false);
    lemma_piece(kind, key, value, tail, name);
    assert(kind + seq![';'] + key + seq!['='] + value + tail =~= kind + seq![';'] + (piece + tail));
    lemmas::lemma_trimmed(given);
    lemmas::lemma_trim_padded(before, given, after);
    assert(given.skip(1) =~= quoted + seq!['"'] + seq![]);
    lemmas::lemma_split_once(quoted, '"', seq![]);
    assert(given.skip(1).take(quoted.len() as int) =~= quoted);
}

/// What is no parameter is passed over, and a media type alone has none.
pub proof fn law_no_parameter_is_made_up(
    kind: Seq<char>,
    word: Seq<char>,
    tail: Seq<char>,
    name: Seq<char>,
)
    requires
        !kind.contains(';') && !kind.contains('"'),
        !word.contains(';') && !word.contains('"') && !word.contains('='),
        ends_here(tail),
    ensures
        parameter_of(kind, name) is None,
        parameter_of(kind + seq![';'] + word + tail, name) == parameter_of(tail, name),
{
    let none = Seq::<char>::empty();
    lemma_find_semicolon(kind, none, false);
    assert(kind + none =~= kind);
    let after = word + tail;
    assert(kind + seq![';'] + word + tail =~= kind + (seq![';'] + after));
    lemma_find_semicolon(kind, seq![';'] + after, false);
    assert((kind + (seq![';'] + after)).skip(kind.len() as int + 1) =~= after);
    lemma_find_semicolon(word, tail, false);
    assert(after.take(word.len() as int) =~= word);
    lemma_tail(word, tail);
}

/// What follows a piece is the tail behind its semicolon.
proof fn lemma_tail(piece: Seq<char>, tail: Seq<char>)
    requires
        ends_here(tail),
    ensures
        tail.len() > 0 ==> (piece + tail).skip(piece.len() as int + 1) == tail.skip(1),
        find_semicolon(tail, false) == 0,
{
    if tail.len() > 0 {
        assert((piece + tail).skip(piece.len() as int + 1) =~= tail.skip(1));
    }
}

/// A piece that runs up to the tail is read, or passed over.
proof fn lemma_piece(
    kind: Seq<char>,
    key: Seq<char>,
    value: Seq<char>,
    tail: Seq<char>,
    name: Seq<char>,
)
    requires
        !kind.contains(';') && !kind.contains('"'),
        !key.contains('='),
        ends_here(tail),
        find_semicolon(key + seq!['='] + value + tail, false) == (key + seq!['='] + value).len(),
    ensures
        parameter_of(kind + seq![';'] + (key + seq!['='] + value + tail), name) == (if text::lower(
            text::trim(key),
        ) == text::lower(name) {
            Some(unquoted(text::trim(value)))
        } else {
            parameter_of(tail, name)
        }),
{
    let piece = key + seq!['='] + value;
    let after = piece + tail;
    let all = kind + seq![';'] + after;
    assert(all =~= kind + (seq![';'] + after));
    lemma_find_semicolon(kind, seq![';'] + after, false);
    assert(find_semicolon(seq![';'] + after, false) == 0);
    assert(all.skip(kind.len() as int + 1) =~= after);
    assert(after.take(piece.len() as int) =~= piece);
    lemmas::lemma_split_once(key, '=', value);
    lemma_tail(piece, tail);
}

/// Parts are read part by part, in order, each with its headers and its body.
pub proof fn law_parts_are_read_in_order(parts: Seq<Part>)
    ensures
        parts_view(parts).len() == parts.len(),
        forall|i: int|
            0 <= i < parts.len() ==> (#[trigger] parts_view(parts)[i]).body == parts[i].body@
                && parts_view(parts)[i].headers == http::headers_view(parts[i].headers@),
{
}

} // verus!
