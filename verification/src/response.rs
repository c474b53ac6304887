//! Responses and their byte-exact form on the wire.

use vstd::prelude::*;
use vstd::utf8::*;
use crate::status::{status_code, status_text, three_digits, HttpStatus};

verus! {

/// A response as application logic builds it. Header names are unique:
/// setting a header again replaces its value and keeps its place.
#[derive(Debug, Clone)]
pub struct Response {
    pub status: HttpStatus,
    pub headers: Vec<(String, String)>,
    pub body: Vec<u8>,
    pub version: String,
}

/// A response as a mathematical value.
pub struct ResponseView {
    pub status: HttpStatus,
    pub headers: Seq<(Seq<char>, Seq<char>)>,
    pub body: Seq<u8>,
    pub version: Seq<char>,
}

/// The header list as pairs of texts.
pub open spec fn header_pairs(headers: Seq<(String, String)>) -> Seq<(Seq<char>, Seq<char>)> {
    Seq::new(headers.len(), |i: int| (headers[i].0@, headers[i].1@))
}

impl View for Response {
    type V = ResponseView;

    open spec fn view(&self) -> ResponseView {
        ResponseView {
            status: self.status,
            headers: header_pairs(self.headers@),
            body: self.body@,
            version: self.version@,
        }
    }
}

/// No two headers of the list share a name.
pub open spec fn unique_names(headers: Seq<(Seq<char>, Seq<char>)>) -> bool {
    forall|i: int, j: int|
        0 <= i < j < headers.len() ==> (#[trigger] headers[i]).0 != (#[trigger] headers[j]).0
}

/// The index of the last header called `name`, or -1 where there is none.
pub open spec fn position(headers: Seq<(Seq<char>, Seq<char>)>, name: Seq<char>) -> int
    decreases headers.len(),
{
    if headers.len() == 0 {
        -1
    } else if headers.last().0 == name {
        headers.len() - 1
    } else {
        position(headers.drop_last(), name)
    }
}

/// The list holds a header called `name`.
pub open spec fn has_header(headers: Seq<(Seq<char>, Seq<char>)>, name: Seq<char>) -> bool {
    position(headers, name) >= 0
}

/// The header list after `name` is set to `value`: an entry of that name
/// gets the new value where it stands, otherwise a new entry is appended.
pub open spec fn with_header(
    headers: Seq<(Seq<char>, Seq<char>)>,
    name: Seq<char>,
    value: Seq<char>,
) -> Seq<(Seq<char>, Seq<char>)> {
    let at = position(headers, name);
    if at >= 0 {
        headers.update(at, (name, value))
    } else {
        headers.push((name, value))
    }
}

/// The character of a decimal digit.
pub open spec fn digit_char(d: nat) -> char {
    if d == 0 {
        '0'
    } else if d == 1 {
        '1'
    } else if d == 2 {
        '2'
    } else if d == 3 {
        '3'
    } else if d == 4 {
        '4'
    } else if d == 5 {
        '5'
    } else if d == 6 {
        '6'
    } else if d == 7 {
        '7'
    } else if d == 8 {
        '8'
    } else {
        '9'
    }
}

/// A number in decimal, without sign or leading zeros.
pub open spec fn decimal_text(n: nat) -> Seq<char>
    decreases n,
{
    if n < 10 {
        seq![digit_char(n)]
    } else {
        decimal_text(n / 10).push(digit_char(n % 10))
    }
}

/// The line `<version> <code> <reason>` with its line end.
pub open spec fn status_line(version: Seq<char>, status: HttpStatus) -> Seq<u8> {
    encode_utf8(version) + seq![32u8] + three_digits(status_code(status)) + seq![32u8]
        + encode_utf8(status_text(status)) + seq![13u8, 10u8]
}

/// The line `<name>: <value>` with its line end.
pub open spec fn header_line(header: (Seq<char>, Seq<char>)) -> Seq<u8> {
    encode_utf8(header.0) + seq![58u8, 32u8] + encode_utf8(header.1) + seq![13u8, 10u8]
}

/// The lines of a header list, in the list's order.
pub open spec fn header_lines(headers: Seq<(Seq<char>, Seq<char>)>) -> Seq<u8>
    decreases headers.len(),
{
    if headers.len() == 0 {
        Seq::<u8>::empty()
    } else {
        header_lines(headers.drop_last()) + header_line(headers.last())
    }
}

/// The headers that go out with a response: its own, with `Content-Length`
/// set to the length of the body as it is.
pub open spec fn sent_headers(r: ResponseView) -> Seq<(Seq<char>, Seq<char>)> {
    with_header(r.headers, "Content-Length"@, decimal_text(r.body.len()))
}

/// The bytes of a response on the wire: status line, header lines, an empty
/// line, the body.
pub open spec fn wire_of(r: ResponseView) -> Seq<u8> {
    status_line(r.version, r.status) + header_lines(sent_headers(r)) + seq![13u8, 10u8] + r.body
}

/// `position` is within the list and names an entry called `name`.
pub proof fn lemma_position_bounds(headers: Seq<(Seq<char>, Seq<char>)>, name: Seq<char>)
    ensures
        -1 <= position(headers, name) < headers.len(),
        position(headers, name) >= 0 ==> headers[position(headers, name)].0 == name,
        position(headers, name) < 0 ==> forall|k: int|
            0 <= k < headers.len() ==> (#[trigger] headers[k]).0 != name,
    decreases headers.len(),
{
    if headers.len() > 0 && headers.last().0 != name {
        lemma_position_bounds(headers.drop_last(), name);
        assert forall|k: int| 0 <= k < headers.len() && position(headers, name) < 0 implies (
        #[trigger] headers[k]).0 != name by {
            if k < headers.len() - 1 {
                assert(headers.drop_last()[k] == headers[k]);
            }
        }
    }
}

/// An entry called `name` that no entry of that name follows is the one
/// that `position` finds.
pub proof fn lemma_position_is_last(
    headers: Seq<(Seq<char>, Seq<char>)>,
    name: Seq<char>,
    at: int,
)
    requires
        0 <= at < headers.len(),
        headers[at].0 == name,
        forall|k: int| at < k < headers.len() ==> (#[trigger] headers[k]).0 != name,
    ensures
        position(headers, name) == at,
    decreases headers.len(),
{
    if at < headers.len() - 1 {
        lemma_position_is_last(headers.drop_last(), name, at);
    }
}

/// Setting a header keeps the names unique, and afterwards the list holds
/// the name with the new value.
pub proof fn lemma_with_header(
    headers: Seq<(Seq<char>, Seq<char>)>,
    name: Seq<char>,
    value: Seq<char>,
)
    ensures
        unique_names(headers) ==> unique_names(with_header(headers, name, value)),
        exists|at: int|
            0 <= at < with_header(headers, name, value).len() && #[trigger] with_header(
                headers,
                name,
                value,
            )[at] == (name, value),
        forall|k: int|
            0 <= k < headers.len() && headers[k].0 != name ==> #[trigger] with_header(
                headers,
                name,
                value,
            )[k] == headers[k],
{
    lemma_position_bounds(headers, name);
    let after = with_header(headers, name, value);
    let at = position(headers, name);
    if at >= 0 {
        assert(after[at] == (name, value));
    } else {
        assert(after[headers.len() as int] == (name, value));
    }
    if unique_names(headers) {
        assert forall|i: int, j: int| 0 <= i < j < after.len() implies (#[trigger] after[i]).0 != (
        #[trigger] after[j]).0 by {
            if at >= 0 {
                assert(after[i].0 == headers[i].0);
                assert(after[j].0 == headers[j].0);
            } else {
                if j < headers.len() {
                    assert(after[i] == headers[i] && after[j] == headers[j]);
                } else {
                    assert(after[i] == headers[i]);
                }
            }
        }
    }
}

/// Setting a header removes none: a name that the list held, it still
/// holds, and it holds the name that was set.
pub proof fn lemma_with_header_keeps(
    headers: Seq<(Seq<char>, Seq<char>)>,
    name: Seq<char>,
    value: Seq<char>,
    other: Seq<char>,
)
    ensures
        has_header(headers, other) ==> has_header(with_header(headers, name, value), other),
        has_header(with_header(headers, name, value), name),
{
    let after = with_header(headers, name, value);
    lemma_position_bounds(headers, name);
    lemma_position_bounds(headers, other);
    lemma_position_bounds(after, other);
    lemma_position_bounds(after, name);
    let at = position(headers, name);
    if at >= 0 {
        assert(after[at].0 == name);
    } else {
        assert(after[headers.len() as int].0 == name);
    }
    if has_header(headers, other) {
        let p = position(headers, other);
        assert(after[p].0 == other);
    }
}

/// The lines of two lists put together are the lines of the first followed
/// by the lines of the second.
pub proof fn lemma_header_lines_concat(
    a: Seq<(Seq<char>, Seq<char>)>,
    b: Seq<(Seq<char>, Seq<char>)>,
)
    ensures
        header_lines(a + b) == header_lines(a) + header_lines(b),
    decreases b.len(),
{
    if b.len() == 0 {
        assert(a + b =~= a);
        assert(header_lines(a) + header_lines(b) =~= header_lines(a));
    } else {
        lemma_header_lines_concat(a, b.drop_last());
        assert((a + b).drop_last() =~= a + b.drop_last());
        assert((a + b).last() == b.last());
        assert(header_lines(a + b) =~= header_lines(a) + header_lines(b));
    }
}

/// The lines of a list are the lines before an entry, that entry's line,
/// and the lines after it.
pub proof fn lemma_header_lines_split(headers: Seq<(Seq<char>, Seq<char>)>, at: int)
    requires
        0 <= at < headers.len(),
    ensures
        header_lines(headers) == header_lines(headers.take(at)) + header_line(headers[at])
            + header_lines(headers.skip(at + 1)),
{
    let front = headers.take(at);
    let one = seq![headers[at]];
    let back = headers.skip(at + 1);
    assert(headers =~= (front + one) + back);
    lemma_header_lines_concat(front + one, back);
    assert((front + one).drop_last() =~= front);
    assert((front + one).last() == headers[at]);
}

/// Where the `Content-Length` header of the sent list stands: it exists,
/// and carries the decimal length of the body. Sending keeps the names
/// unique and the `Server` header in the list.
pub proof fn lemma_sent_content_length(r: ResponseView)
    ensures
        0 <= position(sent_headers(r), "Content-Length"@) < sent_headers(r).len(),
        sent_headers(r)[position(sent_headers(r), "Content-Length"@)] == (
            "Content-Length"@,
            decimal_text(r.body.len()),
        ),
        unique_names(r.headers) ==> unique_names(sent_headers(r)),
        has_header(r.headers, "Server"@) ==> has_header(sent_headers(r), "Server"@),
{
    let name = "Content-Length"@;
    let value = decimal_text(r.body.len());
    let sent = sent_headers(r);
    let at = position(r.headers, name);
    lemma_position_bounds(r.headers, name);
    lemma_with_header(r.headers, name, value);
    lemma_with_header_keeps(r.headers, name, value, "Server"@);
    if at >= 0 {
        assert(sent[at] == (name, value));
        assert forall|k: int| at < k < sent.len() implies (#[trigger] sent[k]).0 != name by {
            lemma_position_after(r.headers, name, k);
        }
        lemma_position_is_last(sent, name, at);
    } else {
        lemma_position_is_last(sent, name, r.headers.len() as int);
    }
}

/// No entry after the one that `position` finds is called `name`.
pub proof fn lemma_position_after(headers: Seq<(Seq<char>, Seq<char>)>, name: Seq<char>, k: int)
    requires
        0 <= k < headers.len(),
        position(headers, name) < k,
    ensures
        headers[k].0 != name,
    decreases headers.len(),
{
    if headers.last().0 != name {
        if k < headers.len() - 1 {
            lemma_position_after(headers.drop_last(), name, k);
        }
    }
}

/// Whatever `Content-Length` the caller supplied, the bytes on the wire
/// carry a `Content-Length` line with the decimal length of the body as it
/// is: the wire is the status line, the lines of the headers before it, that
/// line, the lines of the headers after it, an empty line and the body. With
/// unique names in the response, no other header sent has that name.
pub proof fn lemma_content_length_recomputed(r: ResponseView)
    ensures
        ({
            let sent = sent_headers(r);
            let at = position(sent, "Content-Length"@);
            &&& 0 <= at < sent.len()
            &&& wire_of(r) == status_line(r.version, r.status) + (header_lines(sent.take(at))
                + header_line(("Content-Length"@, decimal_text(r.body.len()))) + header_lines(
                sent.skip(at + 1),
            )) + seq![13u8, 10u8] + r.body
            &&& unique_names(r.headers) ==> forall|k: int|
                0 <= k < sent.len() && k != at ==> (#[trigger] sent[k]).0 != "Content-Length"@
        }),
{
    let sent = sent_headers(r);
    let at = position(sent, "Content-Length"@);
    lemma_sent_content_length(r);
    lemma_header_lines_split(sent, at);
    if unique_names(r.headers) {
        assert forall|k: int| 0 <= k < sent.len() && k != at implies (#[trigger] sent[k]).0
            != "Content-Length"@ by {
            if k < at {
                assert(sent[k].0 != sent[at].0);
            } else {
                assert(sent[at].0 != sent[k].0);
            }
        }
    }
}

fn digit_text(d: usize) -> (s: &'static str)
    requires
        d < 10,
    ensures
        s@ == seq![digit_char(d as nat)],
{
    proof {
        reveal_strlit("0");
        reveal_strlit("1");
        reveal_strlit("2");
        reveal_strlit("3");
        reveal_strlit("4");
        reveal_strlit("5");
        reveal_strlit("6");
        reveal_strlit("7");
        reveal_strlit("8");
        reveal_strlit("9");
    }
    let s = if d == 0 {
        "0"
    } else if d == 1 {
        "1"
    } else if d == 2 {
        "2"
    } else if d == 3 {
        "3"
    } else if d == 4 {
        "4"
    } else if d == 5 {
        "5"
    } else if d == 6 {
        "6"
    } else if d == 7 {
        "7"
    } else if d == 8 {
        "8"
    } else {
        "9"
    };
    assert(s@ =~= seq![digit_char(d as nat)]);
    s
}

/// Writes a number in decimal.
pub fn decimal_string(n: usize) -> (s: String)
    ensures
        s@ == decimal_text(n as nat),
    decreases n,
{
    if n < 10 {
        digit_text(n).to_owned()
    } else {
        let mut s = decimal_string(n / 10);
        s.append(digit_text(n % 10));
        assert(s@ =~= decimal_text(n as nat));
        s
    }
}

/// Sets `name` to `value` in a header list.
fn set_header(headers: &mut Vec<(String, String)>, name: String, value: String)
    ensures
        header_pairs(final(headers)@) == with_header(header_pairs(old(headers)@), name@, value@),
{
    let ghost before = header_pairs(headers@);
    let mut i: usize = headers.len();
    while i > 0
        invariant
            0 <= i <= headers@.len(),
            headers@ == old(headers)@,
            before == header_pairs(headers@),
            forall|k: int| i <= k < before.len() ==> (#[trigger] before[k]).0 != name@,
        decreases i,
    {
        i -= 1;
        if headers[i].0 == name {
            proof {
                lemma_position_is_last(before, name@, i as int);
            }
            headers.set(i, (name, value));
            assert(header_pairs(headers@) =~= with_header(before, name@, value@));
            return ;
        }
    }
    proof {
        lemma_position_bounds(before, name@);
    }
    headers.push((name, value));
    assert(header_pairs(headers@) =~= with_header(before, name@, value@));
}

fn append_text(out: &mut Vec<u8>, text: &str)
    ensures
        final(out)@ == old(out)@ + encode_utf8(text@),
{
    out.extend_from_slice(text.as_bytes());
    assert(out@ =~= old(out)@ + encode_utf8(text@));
}

impl Response {
    /// The response is well formed: no two of its headers share a name,
    /// and one of them is `Server`.
    pub open spec fn wf(&self) -> bool {
        unique_names(self@.headers) && has_header(self@.headers, "Server"@)
    }

    /// A response with the given status, no body, the `Server` header and
    /// version `HTTP/1.1`.
    pub fn new(status: HttpStatus) -> (r: Self)
        ensures
            r@.status == status,
            r@.headers == seq![("Server"@, "Aegis/0.1"@)],
            r@.body == Seq::<u8>::empty(),
            r@.version == "HTTP/1.1"@,
            r.wf(),
    {
        let mut headers: Vec<(String, String)> = Vec::new();
        headers.push(("Server".to_owned(), "Aegis/0.1".to_owned()));
        let r = Response { status, headers, body: Vec::new(), version: "HTTP/1.1".to_owned() };
        assert(r@.headers =~= seq![("Server"@, "Aegis/0.1"@)]);
        r
    }

    /// Sets a header, replacing the value of an earlier one of that name.
    pub fn header(self, name: &str, value: &str) -> (r: Self)
        ensures
            r@.headers == with_header(self@.headers, name@, value@),
            r@.status == self@.status,
            r@.body == self@.body,
            r@.version == self@.version,
            self.wf() ==> r.wf(),
    {
        let mut r = self;
        set_header(&mut r.headers, name.to_owned(), value.to_owned());
        proof {
            lemma_with_header(self@.headers, name@, value@);
            lemma_with_header_keeps(self@.headers, name@, value@, "Server"@);
        }
        r
    }

    /// Sets the body, and `Content-Length` to its length.
    pub fn body(self, body: Vec<u8>) -> (r: Self)
        ensures
            r@.body == body@,
            r@.headers == with_header(
                self@.headers,
                "Content-Length"@,
                decimal_text(body@.len()),
            ),
            r@.status == self@.status,
            r@.version == self@.version,
            self.wf() ==> r.wf(),
    {
        let mut r = self;
        set_header(&mut r.headers, "Content-Length".to_owned(), decimal_string(body.len()));
        r.body = body;
        proof {
            let length = decimal_text(body@.len());
            lemma_with_header(self@.headers, "Content-Length"@, length);
            lemma_with_header_keeps(self@.headers, "Content-Length"@, length, "Server"@);
        }
        r
    }

    /// The bytes of the response on the wire. `Content-Length` is computed
    /// here from the body, whatever the header list held before.
    pub fn build(self) -> (wire: Vec<u8>)
        ensures
            wire@ == wire_of(self@),
    {
        let mut r = self;
        set_header(&mut r.headers, "Content-Length".to_owned(), decimal_string(r.body.len()));
        let ghost sent = header_pairs(r.headers@);
        let mut out: Vec<u8> = Vec::new();
        append_text(&mut out, r.version.as_str());
        out.push(32u8);
        out.extend_from_slice(r.status.as_bytes());
        out.push(32u8);
        append_text(&mut out, r.status.text());
        out.push(13u8);
        out.push(10u8);
        assert(out@ =~= status_line(self@.version, self@.status));
        let mut i: usize = 0;
        while i < r.headers.len()
            invariant
                0 <= i <= r.headers@.len(),
                sent == header_pairs(r.headers@),
                out@ == status_line(self@.version, self@.status) + header_lines(
                    sent.take(i as int),
                ),
            decreases r.headers@.len() - i,
        {
            proof {
                assert(sent.take(i + 1).drop_last() =~= sent.take(i as int));
                assert(sent.take(i + 1).last() == sent[i as int]);
            }
            let ghost so_far = out@;
            append_text(&mut out, r.headers[i].0.as_str());
            out.push(58u8);
            out.push(32u8);
            append_text(&mut out, r.headers[i].1.as_str());
            out.push(13u8);
            out.push(10u8);
            assert(out@ =~= so_far + header_line(sent[i as int]));
            assert(out@ =~= status_line(self@.version, self@.status) + header_lines(
                sent.take(i + 1),
            ));
            i += 1;
        }
        proof {
            assert(sent.take(r.headers@.len() as int) =~= sent);
        }
        out.push(13u8);
        out.push(10u8);
        out.extend_from_slice(r.body.as_slice());
        assert(out@ =~= wire_of(self@));
        out
    }

    /// An empty `200 OK`.
    pub fn ok() -> (r: Self)
        ensures
            r@.status == HttpStatus::Okay,
            r@.headers == seq![("Server"@, "Aegis/0.1"@)],
            r@.body == Seq::<u8>::empty(),
            r@.version == "HTTP/1.1"@,
            r.wf(),
    {
        Self::new(HttpStatus::Okay)
    }

    /// An empty `404 Not Found`.
    pub fn not_found() -> (r: Self)
        ensures
            r@.status == HttpStatus::NotFound,
            r@.headers == seq![("Server"@, "Aegis/0.1"@)],
            r@.body == Seq::<u8>::empty(),
            r@.version == "HTTP/1.1"@,
            r.wf(),
    {
        Self::new(HttpStatus::NotFound)
    }

    /// An empty `400 Bad Request`.
    pub fn bad_request() -> (r: Self)
        ensures
            r@.status == HttpStatus::BadRequest,
            r@.headers == seq![("Server"@, "Aegis/0.1"@)],
            r@.body == Seq::<u8>::empty(),
            r@.version == "HTTP/1.1"@,
            r.wf(),
    {
        Self::new(HttpStatus::BadRequest)
    }
}

} // verus!
