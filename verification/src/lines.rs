//! A lenient, line-based reader of header blocks: no grammar is enforced,
//! a line is a header where it holds a colon.

use vstd::prelude::*;
use vstd::slice::{slice_subrange, slice_to_vec};
use vstd::utf8::*;
use crate::content::{content_type_of, ContentType};
use crate::meta::RequestMeta;
use crate::text::{contains_ignore_case, eq_ignore_case, mentions, same_ignoring_case};

verus! {

/// The index of the first `byte` in `s`, or the length of `s` where there
/// is none.
pub open spec fn index_of(s: Seq<u8>, byte: u8) -> int
    decreases s.len(),
{
    if s.len() == 0 || s[0] == byte {
        0
    } else {
        1 + index_of(s.skip(1), byte)
    }
}

/// A line without the carriage return at its end, if it has one.
pub open spec fn without_cr(line: Seq<u8>) -> Seq<u8> {
    if line.len() > 0 && line.last() == 13 {
        line.drop_last()
    } else {
        line
    }
}

/// The header that a line holds: what stands before its first colon, and
/// what stands behind it. A line without a colon holds none.
pub open spec fn header_of_line(line: Seq<u8>) -> Option<(Seq<u8>, Seq<u8>)> {
    let text = without_cr(line);
    let colon = index_of(text, 58);
    if colon < text.len() {
        Some((text.take(colon), text.skip(colon + 1)))
    } else {
        None
    }
}

/// The headers of a block: those of its lines, which line feeds separate,
/// in order.
pub open spec fn raw_headers_of(raw: Seq<u8>) -> Seq<(Seq<u8>, Seq<u8>)>
    decreases raw.len(),
{
    let end = index_of(raw, 10);
    let here = match header_of_line(raw.take(end)) {
        Some(h) => seq![h],
        None => Seq::<(Seq<u8>, Seq<u8>)>::empty(),
    };
    if 0 <= end < raw.len() {
        here + raw_headers_of(raw.skip(end + 1))
    } else {
        here
    }
}

/// A value without its spaces.
pub open spec fn unspaced(value: Seq<u8>) -> Seq<u8>
    decreases value.len(),
{
    if value.len() == 0 {
        Seq::<u8>::empty()
    } else if value.last() == 32 {
        unspaced(value.drop_last())
    } else {
        unspaced(value.drop_last()).push(value.last())
    }
}

/// Every byte is one of `0`..`9`.
pub open spec fn all_ascii_digits(s: Seq<u8>) -> bool {
    forall|i: int| 0 <= i < s.len() ==> 48 <= #[trigger] s[i] <= 57
}

/// The number that decimal digits denote; no digits denote zero.
pub open spec fn digits_number(digits: Seq<u8>) -> nat
    decreases digits.len(),
{
    if digits.len() == 0 {
        0
    } else {
        (digits_number(digits.drop_last()) * 10 + (digits.last() - 48)) as nat
    }
}

/// The length that a value denotes when its spaces are left out: all that
/// remains must be digits, and their number must fit in `usize`.
pub open spec fn spaced_number(value: Seq<u8>) -> Option<usize> {
    let digits = unspaced(value);
    if all_ascii_digits(digits) && digits_number(digits) <= usize::MAX {
        Some(digits_number(digits) as usize)
    } else {
        None
    }
}

/// The header list as pairs of byte strings.
pub open spec fn pair_views(headers: Seq<(Vec<u8>, Vec<u8>)>) -> Seq<(Seq<u8>, Seq<u8>)> {
    Seq::new(headers.len(), |i: int| (headers[i].0@, headers[i].1@))
}

/// The name is `target`, up to ASCII letter case.
pub open spec fn raw_named(header: (Seq<u8>, Seq<u8>), target: Seq<char>) -> bool {
    same_ignoring_case(header.0, encode_utf8(target))
}

/// The index of the last header named `target`, or -1 where there is none.
pub open spec fn last_raw_named(headers: Seq<(Seq<u8>, Seq<u8>)>, target: Seq<char>) -> int
    decreases headers.len(),
{
    if headers.len() == 0 {
        -1
    } else if raw_named(headers.last(), target) {
        headers.len() - 1
    } else {
        last_raw_named(headers.drop_last(), target)
    }
}

/// Some `Transfer-Encoding` header of the list mentions `chunked`.
pub open spec fn raw_announces_chunked(headers: Seq<(Seq<u8>, Seq<u8>)>) -> bool
    decreases headers.len(),
{
    if headers.len() == 0 {
        false
    } else {
        raw_announces_chunked(headers.drop_last()) || (raw_named(
            headers.last(),
            "transfer-encoding"@,
        ) && mentions(headers.last().1, encode_utf8("chunked"@)))
    }
}

/// The framing facts of a header list read line by line: of repeated
/// headers the last one wins.
pub open spec fn raw_meta_of(headers: Seq<(Seq<u8>, Seq<u8>)>) -> RequestMeta {
    let length_at = last_raw_named(headers, "content-length"@);
    let type_at = last_raw_named(headers, "content-type"@);
    RequestMeta {
        content_length: if length_at >= 0 {
            spaced_number(headers[length_at].1)
        } else {
            None
        },
        content_type: if type_at >= 0 {
            Some(content_type_of(headers[type_at].1))
        } else {
            None
        },
        is_chunked: raw_announces_chunked(headers),
    }
}

/// The first place at which `\r\n\r\n` stands in a buffer.
pub open spec fn is_head_end(buffer: Seq<u8>, at: int) -> bool {
    &&& 0 <= at
    &&& at + 4 <= buffer.len()
    &&& buffer[at] == 13
    &&& buffer[at + 1] == 10
    &&& buffer[at + 2] == 13
    &&& buffer[at + 3] == 10
}

/// `index_of` is the place before which no `byte` stands and at which one
/// stands, or the end.
pub proof fn lemma_index_of(s: Seq<u8>, byte: u8, at: int)
    requires
        0 <= at <= s.len(),
        forall|j: int| 0 <= j < at ==> s[j] != byte,
        at < s.len() ==> s[at] == byte,
    ensures
        index_of(s, byte) == at,
    decreases at,
{
    if at > 0 {
        let tail = s.skip(1);
        assert forall|j: int| 0 <= j < at - 1 implies tail[j] != byte by {
            assert(tail[j] == s[j + 1]);
        }
        lemma_index_of(tail, byte, at - 1);
    }
}

/// `last_raw_named` is within the list.
pub proof fn lemma_last_raw_named_bounds(headers: Seq<(Seq<u8>, Seq<u8>)>, target: Seq<char>)
    ensures
        -1 <= last_raw_named(headers, target) < headers.len(),
    decreases headers.len(),
{
    if headers.len() > 0 && !raw_named(headers.last(), target) {
        lemma_last_raw_named_bounds(headers.drop_last(), target);
    }
}

/// The digits of a prefix are a prefix of the digits.
pub proof fn lemma_unspaced_prefix(value: Seq<u8>, k: int)
    requires
        0 <= k <= value.len(),
    ensures
        unspaced(value.take(k)).is_prefix_of(unspaced(value)),
    decreases value.len(),
{
    if k == value.len() {
        assert(value.take(k) =~= value);
    } else {
        lemma_unspaced_prefix(value.drop_last(), k);
        assert(value.drop_last().take(k) =~= value.take(k));
    }
}

/// The number of a prefix of digits is at most the number of the digits.
pub proof fn lemma_digits_number_grows(digits: Seq<u8>, k: int)
    requires
        0 <= k <= digits.len(),
        all_ascii_digits(digits),
    ensures
        digits_number(digits.take(k)) <= digits_number(digits),
    decreases digits.len(),
{
    if k == digits.len() {
        assert(digits.take(k) =~= digits);
    } else {
        let front = digits.drop_last();
        assert forall|i: int| 0 <= i < front.len() implies 48 <= #[trigger] front[i] <= 57 by {
            assert(front[i] == digits[i]);
        }
        lemma_digits_number_grows(front, k);
        assert(front.take(k) =~= digits.take(k));
        assert(48 <= digits[digits.len() - 1]);
    }
}

/// Finds the first `byte` in `s[from..to]`; `to` where there is none.
fn find_byte(s: &[u8], from: usize, to: usize, byte: u8) -> (at: usize)
    requires
        from <= to <= s@.len(),
    ensures
        from <= at <= to,
        at - from == index_of(s@.subrange(from as int, to as int), byte),
{
    let mut at: usize = from;
    while at < to && s[at] != byte
        invariant
            from <= at <= to <= s@.len(),
            forall|j: int| from <= j < at ==> s@[j] != byte,
        decreases to - at,
    {
        at += 1;
    }
    proof {
        lemma_index_of(s@.subrange(from as int, to as int), byte, at - from);
    }
    at
}

/// Reads the headers of a block, line by line.
pub fn parse_raw_headers(raw: &[u8]) -> (headers: Vec<(Vec<u8>, Vec<u8>)>)
    ensures
        pair_views(headers@) == raw_headers_of(raw@),
{
    let mut headers: Vec<(Vec<u8>, Vec<u8>)> = Vec::new();
    let mut start: usize = 0;
    let len: usize = raw.len();
    proof {
        assert(raw@.skip(0) =~= raw@);
        assert(pair_views(headers@) + raw_headers_of(raw@) =~= raw_headers_of(raw@));
    }
    loop
        invariant
            len == raw@.len(),
            0 <= start <= len,
            pair_views(headers@) + raw_headers_of(raw@.skip(start as int)) == raw_headers_of(raw@),
        decreases len - start,
    {
        let ghost before = pair_views(headers@);
        let ghost remaining = raw@.skip(start as int);
        let end = find_byte(raw, start, len, 10);
        let mut text_end: usize = end;
        if text_end > start && raw[text_end - 1] == 13 {
            text_end -= 1;
        }
        let colon = find_byte(raw, start, text_end, 58);
        proof {
            assert(remaining =~= raw@.subrange(start as int, len as int));
            let line = remaining.take(end - start);
            assert(line =~= raw@.subrange(start as int, end as int));
            let text = without_cr(line);
            assert(text =~= raw@.subrange(start as int, text_end as int));
            if colon < text_end {
                assert(text.take(colon - start) =~= raw@.subrange(start as int, colon as int));
                assert(text.skip(colon - start + 1) =~= raw@.subrange(
                    colon + 1,
                    text_end as int,
                ));
            }
        }
        if colon < text_end {
            let name = slice_to_vec(slice_subrange(raw, start, colon));
            let value = slice_to_vec(slice_subrange(raw, colon + 1, text_end));
            headers.push((name, value));
            assert(pair_views(headers@) =~= before + seq![(name@, value@)]);
        }
        if end >= len {
            assert(pair_views(headers@) =~= raw_headers_of(raw@));
            return headers;
        }
        proof {
            assert(remaining.skip(end - start + 1) =~= raw@.skip(end + 1));
            assert(pair_views(headers@) + raw_headers_of(raw@.skip(end + 1)) =~= before
                + raw_headers_of(remaining));
        }
        start = end + 1;
    }
}

/// Reads a `Content-Length` value: spaces are skipped, and what remains
/// must be digits whose number fits in `usize`.
pub fn parse_content_length(value: &[u8]) -> (length: Option<usize>)
    ensures
        length == spaced_number(value@),
{
    let mut number: usize = 0;
    let mut i: usize = 0;
    while i < value.len()
        invariant
            0 <= i <= value@.len(),
            all_ascii_digits(unspaced(value@.take(i as int))),
            number == digits_number(unspaced(value@.take(i as int))),
        decreases value@.len() - i,
    {
        let b: u8 = value[i];
        proof {
            let upto = value@.take(i + 1);
            assert(upto.drop_last() =~= value@.take(i as int));
            assert(upto.last() == b);
            lemma_unspaced_prefix(value@, i + 1);
        }
        if b != 32 {
            let ghost digits = unspaced(value@.take(i + 1));
            let ghost all = unspaced(value@);
            proof {
                let sofar = unspaced(value@.take(i as int));
                assert(digits == sofar.push(b));
                assert(digits.drop_last() =~= sofar);
                assert(digits.last() == b);
            }
            if b < 48 || b > 57 {
                assert(all[digits.len() - 1] == digits[digits.len() - 1]);
                return None;
            }
            let digit: usize = (b - 48) as usize;
            if number > (usize::MAX - digit) / 10 {
                proof {
                    assert(digits_number(digits) > usize::MAX) by (nonlinear_arith)
                        requires
                            digits_number(digits) == number * 10 + digit,
                            number > (usize::MAX - digit) / 10,
                            0 <= digit <= 9,
                    ;
                    if all_ascii_digits(all) {
                        assert(all.take(digits.len() as int) =~= digits);
                        lemma_digits_number_grows(all, digits.len() as int);
                    }
                }
                return None;
            }
            assert(number * 10 + digit <= usize::MAX) by (nonlinear_arith)
                requires
                    number <= (usize::MAX - digit) / 10,
                    0 <= digit <= 9,
            ;
            number = number * 10 + digit;
        }
        i += 1;
    }
    proof {
        assert(value@.take(value@.len() as int) =~= value@);
    }
    Some(number)
}

/// Derives the framing facts from a header list read line by line.
pub fn headers_to_meta(headers: &Vec<(Vec<u8>, Vec<u8>)>) -> (meta: RequestMeta)
    ensures
        meta == raw_meta_of(pair_views(headers@)),
{
    let ghost all = pair_views(headers@);
    let mut meta = RequestMeta::new();
    let mut i: usize = 0;
    while i < headers.len()
        invariant
            0 <= i <= headers@.len(),
            all == pair_views(headers@),
            meta == raw_meta_of(all.take(i as int)),
        decreases headers@.len() - i,
    {
        let name = headers[i].0.as_slice();
        let value = headers[i].1.as_slice();
        proof {
            let upto = all.take(i + 1);
            assert(upto.drop_last() =~= all.take(i as int));
            assert(upto.last() == (name@, value@));
            lemma_last_raw_named_bounds(all.take(i as int), "content-length"@);
            lemma_last_raw_named_bounds(all.take(i as int), "content-type"@);
        }
        if eq_ignore_case(name, "content-length".as_bytes()) {
            meta.content_length = parse_content_length(value);
        }
        if eq_ignore_case(name, "content-type".as_bytes()) {
            meta.content_type = Some(ContentType::from_header_value(value));
        }
        if eq_ignore_case(name, "transfer-encoding".as_bytes()) && contains_ignore_case(
            value,
            "chunked".as_bytes(),
        ) {
            meta.is_chunked = true;
        }
        i += 1;
    }
    proof {
        assert(all.take(headers@.len() as int) =~= all);
    }
    meta
}

/// Finds the end of a head: the first place at which `\r\n\r\n` stands.
/// The head is what stands before it, the body what stands four bytes on.
pub fn find_head_end(buffer: &[u8]) -> (end: Option<usize>)
    ensures
        match end {
            Some(at) => is_head_end(buffer@, at as int) && forall|k: int|
                0 <= k < at ==> !is_head_end(buffer@, k),
            None => forall|k: int| !is_head_end(buffer@, k),
        },
{
    if buffer.len() < 4 {
        return None;
    }
    let last: usize = buffer.len() - 4;
    let mut at: usize = 0;
    loop
        invariant
            last == buffer@.len() - 4,
            0 <= at <= last,
            forall|k: int| 0 <= k < at ==> !is_head_end(buffer@, k),
        decreases last - at,
    {
        if buffer[at] == 13 && buffer[at + 1] == 10 && buffer[at + 2] == 13 && buffer[at + 3]
            == 10 {
            return Some(at);
        }
        if at == last {
            return None;
        }
        at += 1;
    }
}

} // verus!
