//! A request and its answer, as the exchange reads and writes them.
use vstd::prelude::*;

use crate::text;
use crate::text::{chars_of, lowered, same};

verus! {

/// A header list as a mathematical value: names and values in order.
pub type HeadersView = Seq<(Seq<char>, Seq<char>)>;

/// The header list that `headers` holds.
pub open spec fn headers_view(headers: Seq<(String, String)>) -> HeadersView {
    headers.map_values(|h: (String, String)| (h.0@, h.1@))
}

/// The value of the first header of that name, whatever the case of its letters.
pub open spec fn header_value(headers: HeadersView, name: Seq<char>) -> Option<Seq<char>>
    decreases headers.len(),
{
    if headers.len() == 0 {
        None
    } else if text::lower(headers[0].0) == text::lower(name) {
        Some(headers[0].1)
    } else {
        header_value(headers.skip(1), name)
    }
}

/// The header at `i` is the one found where none before it has a name of
/// that length.
pub proof fn lemma_header_at(headers: HeadersView, name: Seq<char>, i: int)
    requires
        0 <= i < headers.len(),
        headers[i].0 == name,
        forall|j: int| 0 <= j < i ==> (#[trigger] headers[j]).0.len() != name.len(),
    ensures
        header_value(headers, name) == Some(headers[i].1),
    decreases i,
{
    if i > 0 {
        let rest = headers.skip(1);
        assert(headers[0].0.len() != name.len());
        assert(text::lower(headers[0].0).len() != text::lower(name).len());
        assert forall|j: int| 0 <= j < i - 1 implies (#[trigger] rest[j]).0.len()
            != name.len() by {
            assert(rest[j] == headers[j + 1]);
        }
        lemma_header_at(rest, name, i - 1);
    }
}

/// None is found where none has a name of that length.
pub proof fn lemma_no_header(headers: HeadersView, name: Seq<char>)
    requires
        forall|j: int|
            0 <= j < headers.len() ==> (#[trigger] headers[j]).0.len() != name.len(),
    ensures
        header_value(headers, name) is None,
    decreases headers.len(),
{
    if headers.len() > 0 {
        let rest = headers.skip(1);
        assert(headers[0].0.len() != name.len());
        assert(text::lower(headers[0].0).len() != text::lower(name).len());
        assert forall|j: int| 0 <= j < rest.len() implies (#[trigger] rest[j]).0.len()
            != name.len() by {
            assert(rest[j] == headers[j + 1]);
        }
        lemma_no_header(rest, name);
    }
}

/// The value of the first header of that name, whatever the case of its letters.
pub fn find_header<'a>(headers: &'a Vec<(String, String)>, name: &str) -> (value: Option<&'a String>)
    ensures
        header_value(headers_view(headers@), name@) == (match value {
            Some(text) => Some(text@),
            None => None,
        }),
{
    let wanted = lowered(&chars_of(name));
    let ghost all = headers_view(headers@);
    let mut i: usize = 0;
    assert(all.skip(0) =~= all);
    while i < headers.len()
        invariant
            i <= headers@.len(),
            all == headers_view(headers@),
            wanted@ == text::lower(name@),
            header_value(all.skip(i as int), name@) == header_value(all, name@),
        decreases headers@.len() - i,
    {
        assert(all.skip(i as int)[0] == (headers@[i as int].0@, headers@[i as int].1@));
        if same(&lowered(&chars_of(&headers[i].0)), &wanted) {
            return Some(&headers[i].1);
        }
        assert(all.skip(i as int).skip(1) =~= all.skip(i + 1));
        i += 1;
    }
    None
}

/// An HTTP request: its method, the path it asks for, its headers and its body.
#[derive(Debug, PartialEq, Eq)]
pub struct Request {
    pub method: String,
    pub path: String,
    pub headers: Vec<(String, String)>,
    pub body: Vec<u8>,
}

/// A [`Request`] as a mathematical value.
pub struct RequestView {
    pub method: Seq<char>,
    pub path: Seq<char>,
    pub headers: HeadersView,
    pub body: Seq<u8>,
}

impl View for Request {
    type V = RequestView;

    open spec fn view(&self) -> RequestView {
        RequestView {
            method: self.method@,
            path: self.path@,
            headers: headers_view(self.headers@),
            body: self.body@,
        }
    }
}

impl RequestView {
    /// This request with one header more.
    pub open spec fn header(self, name: Seq<char>, value: Seq<char>) -> RequestView {
        RequestView { headers: self.headers.push((name, value)), ..self }
    }
}

impl Request {
    /// A request with neither headers nor body.
    #[must_use]
    pub fn new(method: &str, path: &str) -> (request: Self)
        ensures
            request@ == (RequestView {
                method: method@,
                path: path@,
                headers: seq![],
                body: seq![],
            }),
    {
        let request = Request {
            method: method.to_string(),
            path: path.to_string(),
            headers: Vec::new(),
            body: Vec::new(),
        };
        assert(headers_view(request.headers@) =~= seq![]);
        request
    }

    /// This request with one header more.
    #[must_use]
    pub fn header(self, name: &str, value: &str) -> (request: Self)
        ensures
            request@ == self@.header(name@, value@),
    {
        let mut request = self;
        let ghost before = request.headers@;
        request.headers.push((name.to_string(), value.to_string()));
        assert(headers_view(request.headers@) =~= headers_view(before).push((name@, value@)));
        request
    }

    /// This request with `body` as its body.
    #[must_use]
    pub fn body(self, body: &[u8]) -> (request: Self)
        ensures
            request@ == (RequestView { body: body@, ..self@ }),
    {
        let mut request = self;
        request.body = vstd::slice::slice_to_vec(body);
        request
    }

    /// The value of the first header of that name, whatever the case of its
    /// letters.
    #[must_use]
    pub fn header_value(&self, name: &str) -> (value: Option<&str>)
        ensures
            header_value(self@.headers, name@) == (match value {
                Some(text) => Some(text@),
                None => None,
            }),
    {
        match find_header(&self.headers, name) {
            Some(text) => Some(text.as_str()),
            None => None,
        }
    }
}

/// The answer to a request: its status, its headers and its body.
#[derive(Debug, PartialEq, Eq)]
pub struct Response {
    pub status: u16,
    pub headers: Vec<(String, String)>,
    pub body: Vec<u8>,
}

/// A [`Response`] as a mathematical value.
pub struct ResponseView {
    pub status: u16,
    pub headers: HeadersView,
    pub body: Seq<u8>,
}

impl View for Response {
    type V = ResponseView;

    open spec fn view(&self) -> ResponseView {
        ResponseView {
            status: self.status,
            headers: headers_view(self.headers@),
            body: self.body@,
        }
    }
}

impl ResponseView {
    /// This answer with one header more.
    pub open spec fn header(self, name: Seq<char>, value: Seq<char>) -> ResponseView {
        ResponseView { headers: self.headers.push((name, value)), ..self }
    }
}

/// The answer of that status with neither headers nor body.
pub open spec fn bare_response(status: u16) -> ResponseView {
    ResponseView { status, headers: seq![], body: seq![] }
}

impl Response {
    /// The answer of that status with neither headers nor body.
    #[must_use]
    pub fn new(status: u16) -> (response: Self)
        ensures
            response@ == bare_response(status),
    {
        let response = Response { status, headers: Vec::new(), body: Vec::new() };
        assert(headers_view(response.headers@) =~= seq![]);
        response
    }

    /// This answer with one header more.
    #[must_use]
    pub fn header(self, name: &str, value: &str) -> (response: Self)
        ensures
            response@ == self@.header(name@, value@),
    {
        let mut response = self;
        let ghost before = response.headers@;
        response.headers.push((name.to_string(), value.to_string()));
        assert(headers_view(response.headers@) =~= headers_view(before).push((name@, value@)));
        response
    }

    /// This answer with `body` as its body.
    #[must_use]
    pub fn body(self, body: &[u8]) -> (response: Self)
        ensures
            response@ == (ResponseView { body: body@, ..self@ }),
    {
        let mut response = self;
        response.body = vstd::slice::slice_to_vec(body);
        response
    }

    /// The value of the first header of that name, whatever the case of its
    /// letters.
    #[must_use]
    pub fn header_value(&self, name: &str) -> (value: Option<&str>)
        ensures
            header_value(self@.headers, name@) == (match value {
                Some(text) => Some(text@),
                None => None,
            }),
    {
        match find_header(&self.headers, name) {
            Some(text) => Some(text.as_str()),
            None => None,
        }
    }
}

/// The first header of a name counts, whatever the case of its letters, and
/// whatever stands before and after it under other names.
pub proof fn law_first_header_counts(
    before: HeadersView,
    found: (Seq<char>, Seq<char>),
    after: HeadersView,
    name: Seq<char>,
)
    requires
        text::lower(found.0) == text::lower(name),
        forall|i: int|
            0 <= i < before.len() ==> text::lower((#[trigger] before[i]).0) != text::lower(name),
    ensures
        header_value(before + seq![found] + after, name) == Some(found.1),
    decreases before.len(),
{
    let all = before + seq![found] + after;
    if before.len() == 0 {
        assert(all[0] == found);
    } else {
        let rest = before.skip(1);
        assert forall|i: int| 0 <= i < rest.len() implies text::lower((#[trigger] rest[i]).0)
            != text::lower(name) by {
            assert(rest[i] == before[i + 1]);
        }
        assert(all[0] == before[0]);
        law_first_header_counts(rest, found, after, name);
        assert(all.skip(1) =~= rest + seq![found] + after);
    }
}

/// No header is found where none has that name.
pub proof fn law_no_header_is_made_up(headers: HeadersView, name: Seq<char>)
    requires
        forall|i: int|
            0 <= i < headers.len() ==> text::lower((#[trigger] headers[i]).0) != text::lower(name),
    ensures
        header_value(headers, name) is None,
    decreases headers.len(),
{
    if headers.len() > 0 {
        let rest = headers.skip(1);
        assert forall|i: int| 0 <= i < rest.len() implies text::lower((#[trigger] rest[i]).0)
            != text::lower(name) by {
            assert(rest[i] == headers[i + 1]);
        }
        assert(text::lower(headers[0].0) != text::lower(name));
        law_no_header_is_made_up(rest, name);
    }
}

/// One header more changes nothing else of a request or of an answer, and is
/// found where no header had that name.
pub proof fn law_header_is_added(
    request: RequestView,
    response: ResponseView,
    name: Seq<char>,
    value: Seq<char>,
    other: Seq<char>,
)
    ensures
        request.header(name, value).method == request.method,
        request.header(name, value).path == request.path,
        request.header(name, value).body == request.body,
        response.header(name, value).status == response.status,
        response.header(name, value).body == response.body,
        header_value(request.header(name, value).headers, other) == (match header_value(
            request.headers,
            other,
        ) {
            Some(old_value) => Some(old_value),
            None => if text::lower(name) == text::lower(other) {
                Some(value)
            } else {
                None
            },
        }),
        header_value(response.header(name, value).headers, other) == (match header_value(
            response.headers,
            other,
        ) {
            Some(old_value) => Some(old_value),
            None => if text::lower(name) == text::lower(other) {
                Some(value)
            } else {
                None
            },
        }),
{
    lemma_pushed_header(request.headers, name, value, other);
    lemma_pushed_header(response.headers, name, value, other);
}

/// A header at the end is found where none before it has that name.
proof fn lemma_pushed_header(
    headers: HeadersView,
    name: Seq<char>,
    value: Seq<char>,
    other: Seq<char>,
)
    ensures
        header_value(headers.push((name, value)), other) == (match header_value(headers, other) {
            Some(old_value) => Some(old_value),
            None => if text::lower(name) == text::lower(other) {
                Some(value)
            } else {
                None
            },
        }),
    decreases headers.len(),
{
    let all = headers.push((name, value));
    if headers.len() > 0 {
        lemma_pushed_header(headers.skip(1), name, value, other);
        assert(all.skip(1) =~= headers.skip(1).push((name, value)));
    } else {
        assert(header_value(all.skip(1), other) is None);
    }
}

/// An answer starts with its status alone.
pub proof fn law_bare_answer_is_bare(status: u16, name: Seq<char>)
    ensures
        bare_response(status).status == status,
        bare_response(status).body.len() == 0,
        bare_response(status).headers.len() == 0,
        header_value(bare_response(status).headers, name) is None,
{
}

/// A header list is read header by header, in order.
pub proof fn law_headers_are_read_in_order(headers: Seq<(String, String)>)
    ensures
        headers_view(headers).len() == headers.len(),
        forall|i: int|
            0 <= i < headers.len() ==> #[trigger] headers_view(headers)[i] == (
                headers[i].0@,
                headers[i].1@,
            ),
{
}

} // verus!
