use crate::resp_result::{RESPError, RESPLength, RESPResult};
use crate::text::{decimal, join_with, join_with_spec, push_decimal, words_of};
use std::string::FromUtf8Error;
use vstd::prelude::*;
use vstd::utf8::*;

verus! {

/// The abstract content of a RESP value.
pub enum RESPView {
    SimpleString(Seq<char>),
    BulkString(Seq<char>),
    Null,
    Array(Seq<RESPView>),
    RDBPrefix(nat),
}

/// A value of the REdis Serialization Protocol.
#[derive(Debug, PartialEq)]
pub enum RESP {
    SimpleString(String),
    BulkString(String),
    Null,
    Array(Vec<RESP>),
    /// The header "$<length>\r\n" that precedes an RDB snapshot sent as raw bytes.
    RDBPrefix(usize),
}

/// The abstract content of a value.
pub open spec fn resp_view(r: RESP) -> RESPView
    decreases r,
{
    match r {
        RESP::SimpleString(s) => RESPView::SimpleString(s@),
        RESP::BulkString(s) => RESPView::BulkString(s@),
        RESP::Null => RESPView::Null,
        RESP::Array(items) => RESPView::Array(resp_views(items@)),
        RESP::RDBPrefix(n) => RESPView::RDBPrefix(n as nat),
    }
}

/// The abstract contents of a sequence of values.
pub open spec fn resp_views(s: Seq<RESP>) -> Seq<RESPView>
    decreases s,
{
    if s.len() == 0 {
        Seq::empty()
    } else {
        resp_views(s.drop_last()).push(resp_view(s.last()))
    }
}

/// `resp_views` maps each value to its content.
pub proof fn lemma_resp_views(s: Seq<RESP>)
    ensures
        resp_views(s).len() == s.len(),
        forall|i: int| 0 <= i < s.len() ==> #[trigger] resp_views(s)[i] == resp_view(s[i]),
    decreases s.len(),
{
    if s.len() > 0 {
        lemma_resp_views(s.drop_last());
        assert forall|i: int| 0 <= i < s.len() implies #[trigger] resp_views(s)[i] == resp_view(s[i]) by {
            if i < s.len() - 1 {
                assert(s.drop_last()[i] == s[i]);
            }
        }
    }
}

impl View for RESP {
    type V = RESPView;

    open spec fn view(&self) -> RESPView {
        resp_view(*self)
    }
}

/// The characters "\r\n".
pub open spec fn crlf_chars() -> Seq<char> {
    seq!['\r', '\n']
}

/// The number of bytes of the UTF-8 form of `s`, as a `usize` holds it (a
/// string in memory always has fewer bytes than `usize::MAX`).
pub open spec fn utf8_len(s: Seq<char>) -> nat {
    (encode_utf8(s).len() as usize) as nat
}

/// The wire form of a value, as characters. A bulk string's length counts
/// the bytes of its UTF-8 form.
pub open spec fn resp_chars(v: RESPView) -> Seq<char>
    decreases v,
{
    match v {
        RESPView::SimpleString(s) => seq!['+'] + s + crlf_chars(),
        RESPView::BulkString(s) => seq!['$'] + decimal(utf8_len(s)) + crlf_chars() + s
            + crlf_chars(),
        RESPView::Null => seq!['$', '-', '1'] + crlf_chars(),
        RESPView::Array(items) => seq!['*'] + decimal(items.len()) + crlf_chars() + items_chars(items),
        RESPView::RDBPrefix(n) => seq!['$'] + decimal(n) + crlf_chars(),
    }
}

/// The wire forms of a sequence of values, one after the other.
pub open spec fn items_chars(items: Seq<RESPView>) -> Seq<char>
    decreases items,
{
    if items.len() == 0 {
        Seq::empty()
    } else {
        items_chars(items.drop_last()) + resp_chars(items.last())
    }
}

/// The byte that opens a simple string.
pub open spec fn simple_string_type_byte() -> u8 {
    43u8
}

/// True when a "\r\n" pair starts at position `j` of `b`.
pub open spec fn is_crlf_at(b: Seq<u8>, j: int) -> bool {
    &&& 0 <= j
    &&& j + 1 < b.len()
    &&& b[j] == 13u8
    &&& b[j + 1] == 10u8
}

/// True when no "\r\n" pair occurs in `b`.
pub open spec fn has_no_crlf(b: Seq<u8>) -> bool {
    forall|k: int| !is_crlf_at(b, k)
}

/// The position of the first "\r\n" pair of `b` that starts at or after `from`.
pub open spec fn find_crlf(b: Seq<u8>, from: int) -> Option<int>
    decreases b.len() - from,
{
    if from + 1 >= b.len() {
        None
    } else if is_crlf_at(b, from) {
        Some(from)
    } else {
        find_crlf(b, from + 1)
    }
}

/// What extracting a line at `i` gives: the bytes up to the next "\r\n" and
/// the index just past it; or an error and the index where reading stopped.
pub open spec fn extract_line_spec(b: Seq<u8>, i: int) -> (Result<Seq<u8>, RESPError>, int) {
    if i >= b.len() {
        (Err(RESPError::OutOfBounds(i as usize)), i)
    } else {
        match find_crlf(b, i) {
            Some(j) => (Ok(b.subrange(i, j)), j + 2),
            None => (Err(RESPError::OutOfBounds(b.len() as usize)), b.len() as int),
        }
    }
}

/// What extracting a line at `i` as UTF-8 text gives.
pub open spec fn extract_line_as_string_spec(b: Seq<u8>, i: int) -> (
    Result<Seq<char>, RESPError>,
    int,
) {
    let (line, next) = extract_line_spec(b, i);
    match line {
        Ok(l) => if valid_utf8(l) {
            (Ok(decode_utf8(l)), next)
        } else {
            (Err(RESPError::FromUtf8), next)
        },
        Err(e) => (Err(e), next),
    }
}

/// What checking the type byte `t` at `i` gives.
pub open spec fn process_type_spec(t: u8, b: Seq<u8>, i: int) -> (Result<(), RESPError>, int) {
    if b[i] != t {
        (Err(RESPError::WrongType), i)
    } else {
        (Ok(()), i + 1)
    }
}

/// What parsing a simple string at `i` gives.
pub open spec fn parse_simple_string_spec(b: Seq<u8>, i: int) -> (Result<RESPView, RESPError>, int) {
    let (typed, next) = process_type_spec(simple_string_type_byte(), b, i);
    match typed {
        Err(e) => (Err(e), next),
        Ok(_) => {
            let (line, after) = extract_line_as_string_spec(b, next);
            match line {
                Ok(s) => (Ok(RESPView::SimpleString(s)), after),
                Err(e) => (Err(e), after),
            }
        },
    }
}

/// True for the bytes of the digits 0-9.
pub open spec fn is_digit_byte(c: u8) -> bool {
    48u8 <= c && c <= 57u8
}

/// True when every byte of `s` is a digit.
pub open spec fn all_digit_bytes(s: Seq<u8>) -> bool {
    forall|i: int| 0 <= i < s.len() ==> is_digit_byte(#[trigger] s[i])
}

/// The number that a string of decimal digit bytes stands for.
pub open spec fn digit_bytes_value(s: Seq<u8>) -> nat
    decreases s.len(),
{
    if s.len() == 0 {
        0
    } else {
        digit_bytes_value(s.drop_last()) * 10 + (s.last() - 48u8) as nat
    }
}

/// True when `s` opens with a "-" sign.
pub open spec fn has_minus(s: Seq<u8>) -> bool {
    s.len() > 0 && s[0] == 45u8
}

/// The digits of a number, without its optional leading "+" or "-".
pub open spec fn unsigned_part(s: Seq<u8>) -> Seq<u8> {
    if s.len() > 0 && (s[0] == 45u8 || s[0] == 43u8) {
        s.drop_first()
    } else {
        s
    }
}

/// The `i32` that `s` names, read as an `i32` is read from text: an optional
/// "+" or "-", then one or more digits, within the range of `i32`.
pub open spec fn parse_i32_spec(s: Seq<u8>) -> Option<i32> {
    let digits = unsigned_part(s);
    let v = digit_bytes_value(digits);
    if digits.len() > 0 && all_digit_bytes(digits) && (if has_minus(s) {
        v <= 2147483648
    } else {
        v <= 2147483647
    }) {
        Some((if has_minus(s) { -(v as int) } else { v as int }) as i32)
    } else {
        None
    }
}

/// What reading a length line at `i` gives: the text up to "\r\n", read as an `i32`.
pub open spec fn parse_length_spec(b: Seq<u8>, i: int) -> (Result<i32, RESPError>, int) {
    let (line, next) = extract_line_spec(b, i);
    match line {
        Err(e) => (Err(e), next),
        Ok(l) => if !valid_utf8(l) {
            (Err(RESPError::FromUtf8), next)
        } else {
            match parse_i32_spec(l) {
                Some(n) => (Ok(n), next),
                None => (Err(RESPError::ParseInt), next),
            }
        },
    }
}

/// The byte that opens a bulk string.
pub open spec fn bulk_string_type_byte() -> u8 {
    36u8
}

/// The byte that opens an array.
pub open spec fn array_type_byte() -> u8 {
    42u8
}

/// What parsing a bulk string at `i` gives: "$", a length line, then that
/// many bytes of UTF-8 text and "\r\n"; the length -1 stands for null.
pub open spec fn parse_bulk_string_spec(b: Seq<u8>, i: int) -> (Result<RESPView, RESPError>, int) {
    let (typed, next) = process_type_spec(bulk_string_type_byte(), b, i);
    match typed {
        Err(e) => (Err(e), next),
        Ok(_) => {
            let (length, j) = parse_length_spec(b, next);
            match length {
                Err(e) => (Err(e), j),
                Ok(n) => if n == -1 {
                    (Ok(RESPView::Null), j)
                } else if n < -1 {
                    (Err(RESPError::IncorrectLength(n)), j)
                } else if j + n + 2 > b.len() {
                    (Err(RESPError::OutOfBounds(b.len() as usize)), b.len() as int)
                } else if !is_crlf_at(b, j + n) {
                    (Err(RESPError::IncorrectLength(n)), j)
                } else if valid_utf8(b.subrange(j, j + n)) {
                    (Ok(RESPView::BulkString(decode_utf8(b.subrange(j, j + n)))), j + n + 2)
                } else {
                    (Err(RESPError::FromUtf8), j + n + 2)
                },
            }
        },
    }
}

/// What parsing a RESP value at `i` gives: a simple string, a bulk string
/// or an array of `n` values, after a length line that gives `n`; the length
/// -1 stands for null.
pub open spec fn parse_spec(b: Seq<u8>, i: int) -> (Result<RESPView, RESPError>, int)
    decreases b.len() - i, 0int,
{
    if !(0 <= i < b.len()) {
        (Err(RESPError::Unknown), i)
    } else if b[i] == simple_string_type_byte() {
        parse_simple_string_spec(b, i)
    } else if b[i] == bulk_string_type_byte() {
        parse_bulk_string_spec(b, i)
    } else if b[i] == array_type_byte() {
        let (length, j) = parse_length_spec(b, i + 1);
        match length {
            Err(e) => (Err(e), j),
            Ok(n) => if n == -1 {
                (Ok(RESPView::Null), j)
            } else if n < -1 {
                (Err(RESPError::IncorrectLength(n)), j)
            } else if i < j && j <= b.len() {
                let (items, k) = parse_items_spec(b, j, n as nat);
                match items {
                    Ok(xs) => (Ok(RESPView::Array(xs)), k),
                    Err(e) => (Err(e), k),
                }
            } else {
                (Err(RESPError::Unknown), j)
            },
        }
    } else {
        (Err(RESPError::Unknown), i)
    }
}

/// What parsing `n` values one after the other from `j` gives.
pub open spec fn parse_items_spec(b: Seq<u8>, j: int, n: nat) -> (Result<Seq<RESPView>, RESPError>, int)
    decreases b.len() - j, 1int,
{
    if n == 0 {
        (Ok(Seq::empty()), j)
    } else {
        let (first, k) = parse_spec(b, j);
        match first {
            Err(e) => (Err(e), k),
            Ok(x) => if j < k && k <= b.len() {
                let (rest, m) = parse_items_spec(b, k, (n - 1) as nat);
                match rest {
                    Ok(xs) => (Ok(seq![x] + xs), m),
                    Err(e) => (Err(e), m),
                }
            } else {
                (Err(RESPError::Unknown), k)
            },
        }
    }
}

/// The result of parsing more values after `prefix` was parsed.
pub open spec fn with_prefix(prefix: Seq<RESPView>, r: (Result<Seq<RESPView>, RESPError>, int)) -> (
    Result<Seq<RESPView>, RESPError>,
    int,
) {
    match r.0 {
        Ok(xs) => (Ok(prefix + xs), r.1),
        Err(e) => (Err(e), r.1),
    }
}

/// `find_crlf` finds the first pair at or after `from`, if there is one.
pub proof fn lemma_find_crlf(b: Seq<u8>, from: int)
    requires
        0 <= from,
    ensures
        match find_crlf(b, from) {
            Some(j) => {
                &&& from <= j
                &&& is_crlf_at(b, j)
                &&& forall|k: int| from <= k < j ==> !is_crlf_at(b, k)
            },
            None => forall|k: int| from <= k ==> !is_crlf_at(b, k),
        },
    decreases b.len() - from,
{
    if from + 1 >= b.len() {
    } else if is_crlf_at(b, from) {
    } else {
        lemma_find_crlf(b, from + 1);
    }
}

/// `find_crlf` from `from` is the first pair position `j` at or after it.
pub proof fn lemma_find_crlf_is(b: Seq<u8>, from: int, j: int)
    requires
        0 <= from <= j,
        is_crlf_at(b, j),
        forall|k: int| from <= k < j ==> !is_crlf_at(b, k),
    ensures
        find_crlf(b, from) == Some(j),
    decreases j - from,
{
    if from < j {
        lemma_find_crlf_is(b, from + 1, j);
    }
}

/// Extraction moves forward, and a line that it gives holds no "\r\n" pair.
pub proof fn lemma_extract_line(b: Seq<u8>, i: int)
    requires
        0 <= i,
    ensures
        extract_line_spec(b, i).1 >= i,
        extract_line_spec(b, i).0 matches Ok(line) ==> has_no_crlf(line),
{
    if i < b.len() {
        lemma_find_crlf(b, i);
        if let Some(j) = find_crlf(b, i) {
            let line = b.subrange(i, j);
            assert forall|k: int| !is_crlf_at(line, k) by {
                if is_crlf_at(line, k) {
                    assert(line[k] == b[i + k] && line[k + 1] == b[i + k + 1]);
                    assert(is_crlf_at(b, i + k));
                }
            }
            assert(has_no_crlf(line));
        }
    }
}

/// Extraction ends within the buffer when it starts within it, and a line it
/// gives is followed by its "\r\n".
pub proof fn lemma_extract_line_bounds(b: Seq<u8>, i: int)
    requires
        0 <= i,
    ensures
        i < b.len() ==> extract_line_spec(b, i).1 <= b.len(),
        extract_line_spec(b, i).0 is Ok ==> i + 2 <= extract_line_spec(b, i).1 <= b.len(),
{
    lemma_find_crlf(b, i);
}

/// Parsing a length moves forward, and to within the buffer when it succeeds.
pub proof fn lemma_length_advances(b: Seq<u8>, i: int)
    requires
        0 <= i,
    ensures
        parse_length_spec(b, i).1 >= i,
        parse_length_spec(b, i).0 is Ok ==> i < parse_length_spec(b, i).1 <= b.len(),
{
    lemma_extract_line(b, i);
    lemma_extract_line_bounds(b, i);
}

/// Parsing a value moves forward, and to within the buffer when it succeeds.
pub proof fn lemma_parse_advances(b: Seq<u8>, i: int)
    requires
        0 <= i,
    ensures
        parse_spec(b, i).1 >= i,
        parse_spec(b, i).0 is Ok ==> i < parse_spec(b, i).1 <= b.len(),
    decreases b.len() - i, 0int,
{
    if 0 <= i < b.len() {
        if b[i] == simple_string_type_byte() {
            lemma_extract_line(b, i + 1);
            lemma_extract_line_bounds(b, i + 1);
        } else if b[i] == bulk_string_type_byte() {
            lemma_length_advances(b, i + 1);
        } else if b[i] == array_type_byte() {
            lemma_length_advances(b, i + 1);
            let (length, j) = parse_length_spec(b, i + 1);
            if let Ok(n) = length {
                if n >= 0 && i < j && j <= b.len() {
                    lemma_items_advance(b, j, n as nat);
                }
            }
        }
    }
}

/// Parsing values one after the other moves forward, and stays within the
/// buffer when it succeeds.
pub proof fn lemma_items_advance(b: Seq<u8>, j: int, n: nat)
    requires
        0 <= j <= b.len(),
    ensures
        parse_items_spec(b, j, n).1 >= j,
        parse_items_spec(b, j, n).0 is Ok ==> parse_items_spec(b, j, n).1 <= b.len(),
    decreases b.len() - j, 1int,
{
    if n > 0 {
        lemma_parse_advances(b, j);
        let (first, k) = parse_spec(b, j);
        if first is Ok && j < k && k <= b.len() {
            lemma_items_advance(b, k, (n - 1) as nat);
        }
    }
}

/// The UTF-8 encoding of a concatenation is the concatenation of the encodings.
pub proof fn lemma_encode_utf8_concat(a: Seq<char>, b: Seq<char>)
    ensures
        encode_utf8(a + b) == encode_utf8(a) + encode_utf8(b),
    decreases a.len(),
{
    if a.len() == 0 {
        assert(a + b =~= b);
        assert(encode_utf8(a) =~= Seq::<u8>::empty());
        assert(encode_utf8(a) + encode_utf8(b) =~= encode_utf8(b));
    } else {
        assert((a + b).drop_first() =~= a.drop_first() + b);
        assert((a + b)[0] == a[0]);
        lemma_encode_utf8_concat(a.drop_first(), b);
        assert(encode_utf8(a + b) =~= encode_scalar(a[0] as u32) + (encode_utf8(a.drop_first())
            + encode_utf8(b)));
    }
}

/// The bytes of the wire form of a simple string: "+", the UTF-8 text, "\r\n".
pub proof fn lemma_simple_string_wire_bytes(s: Seq<char>)
    ensures
        encode_utf8(resp_chars(RESPView::SimpleString(s))) == seq![43u8] + encode_utf8(s) + seq![
            13u8,
            10u8,
        ],
{
    let plus = seq!['+'];
    let crlf = seq!['\r', '\n'];
    lemma_encode_utf8_concat(plus + s, crlf);
    lemma_encode_utf8_concat(plus, s);
    assert(is_ascii_chars(plus));
    assert(is_ascii_chars(crlf));
    is_ascii_chars_encode_utf8(plus);
    is_ascii_chars_encode_utf8(crlf);
    assert(encode_utf8(plus) =~= seq![43u8]);
    assert(encode_utf8(crlf) =~= seq![13u8, 10u8]);
}

/// Parsing the wire form of a simple string gives the same string back and
/// consumes the whole wire form, provided the text holds no "\r\n" pair.
pub proof fn lemma_simple_string_roundtrip(s: Seq<char>)
    requires
        has_no_crlf(encode_utf8(s)),
    ensures
        ({
            let wire = encode_utf8(resp_chars(RESPView::SimpleString(s)));
            parse_spec(wire, 0) == (Ok::<RESPView, RESPError>(RESPView::SimpleString(s)), wire.len() as int)
        }),
{
    let e = encode_utf8(s);
    let n = e.len() as int;
    let wire = encode_utf8(resp_chars(RESPView::SimpleString(s)));
    lemma_simple_string_wire_bytes(s);
    assert(wire.len() == n + 3);
    assert(wire[0] == 43u8);
    assert(wire[n + 1] == 13u8);
    assert(wire[n + 2] == 10u8);
    assert forall|k: int| 1 <= k < n + 1 implies !is_crlf_at(wire, k) by {
        if k + 1 <= n {
            assert(wire[k] == e[k - 1]);
            assert(wire[k + 1] == e[k]);
            assert(!is_crlf_at(e, k - 1));
        } else {
            assert(wire[k + 1] == 13u8);
        }
    }
    assert(is_crlf_at(wire, n + 1));
    lemma_find_crlf_is(wire, 1, n + 1);
    assert(wire.subrange(1, n + 1) =~= e);
    encode_utf8_valid_utf8(s);
    encode_utf8_decode_utf8(s);
}

/// Serializing a parsed simple string gives back exactly the bytes that
/// parsing consumed.
pub proof fn lemma_parse_then_serialize(b: Seq<u8>, i: int)
    requires
        0 <= i < b.len(),
        b[i] == simple_string_type_byte(),
        parse_spec(b, i).0 is Ok,
    ensures
        ({
            let (parsed, next) = parse_spec(b, i);
            encode_utf8(resp_chars(parsed->Ok_0)) == b.subrange(i, next)
        }),
{
    lemma_find_crlf(b, i + 1);
    let j = find_crlf(b, i + 1)->Some_0;
    let line = b.subrange(i + 1, j);
    let s = decode_utf8(line);
    decode_utf8_encode_utf8(line);
    lemma_simple_string_wire_bytes(s);
    assert(encode_utf8(resp_chars(RESPView::SimpleString(s))) =~= b.subrange(i, j + 2));
}

/// `String::from_utf8`: it succeeds exactly when the bytes are valid UTF-8,
/// and the string then holds the characters that the bytes encode.
#[verifier::external_body]
fn string_from_utf8(bytes: Vec<u8>) -> (res: Result<String, FromUtf8Error>)
    ensures
        res is Ok <==> valid_utf8(bytes@),
        res matches Ok(s) ==> s@ == decode_utf8(bytes@),
{
    String::from_utf8(bytes)
}

/// Finds the first "\r\n" pair that starts at or after `start`.
fn find_line_end(buffer: &[u8], start: usize) -> (res: Option<usize>)
    ensures
        res is None <==> find_crlf(buffer@, start as int) is None,
        res matches Some(j) ==> find_crlf(buffer@, start as int) == Some(j as int),
        res matches Some(j) ==> start <= j && j + 1 < buffer@.len(),
{
    let len = buffer.len();
    let mut j = start;
    while j < len && j + 1 < len
        invariant
            len == buffer@.len(),
            start <= j,
            forall|k: int| start <= k < j ==> !is_crlf_at(buffer@, k),
        decreases len - j,
    {
        if buffer[j] == 13u8 && buffer[j + 1] == 10u8 {
            proof {
                lemma_find_crlf_is(buffer@, start as int, j as int);
            }
            return Some(j);
        }
        j = j + 1;
    }
    proof {
        lemma_find_crlf(buffer@, start as int);
        assert(forall|k: int| start <= k ==> !is_crlf_at(buffer@, k));
    }
    None
}

/// Extracts the bytes from `index` up to the next "\r\n" and moves `index`
/// past the separator. Without a separator, `index` moves to the end of the
/// buffer and the error names that position.
pub fn binary_extract_line(buffer: &[u8], index: &mut usize) -> (res: RESPResult<Vec<u8>>)
    ensures
        ({
            let (expected, next) = extract_line_spec(buffer@, *old(index) as int);
            &&& *final(index) == next
            &&& match expected {
                Ok(line) => res matches Ok(v) && v@ == line,
                Err(e) => res == Err::<Vec<u8>, RESPError>(e),
            }
        }),
        *final(index) >= *old(index),
        res matches Ok(v) ==> has_no_crlf(v@),
{
    proof {
        lemma_extract_line(buffer@, *old(index) as int);
    }
    if *index >= buffer.len() {
        return Err(RESPError::OutOfBounds(*index));
    }
    let start = *index;
    match find_line_end(buffer, start) {
        None => {
            *index = buffer.len();
            Err(RESPError::OutOfBounds(*index))
        },
        Some(end) => {
            let mut res: Vec<u8> = Vec::new();
            let mut k = start;
            while k < end
                invariant
                    start <= k <= end,
                    end < buffer@.len(),
                    res@ == buffer@.subrange(start as int, k as int),
                decreases end - k,
            {
                res.push(buffer[k]);
                k = k + 1;
            }
            proof {
                assert(res@ == buffer@.subrange(start as int, end as int));
                lemma_extract_line(buffer@, start as int);
                assert(extract_line_spec(buffer@, start as int).0 == Ok::<Seq<u8>, RESPError>(res@));
            }
            *index = end + 2;
            Ok(res)
        },
    }
}

/// Extracts the bytes up to the next "\r\n", as in `binary_extract_line`,
/// and decodes them as UTF-8 text.
pub fn binary_extract_line_as_string(buffer: &[u8], index: &mut usize) -> (res: RESPResult<String>)
    ensures
        ({
            let (expected, next) = extract_line_as_string_spec(buffer@, *old(index) as int);
            &&& *final(index) == next
            &&& match expected {
                Ok(s) => res matches Ok(r) && r@ == s,
                Err(e) => res == Err::<String, RESPError>(e),
            }
        }),
        *final(index) >= *old(index),
{
    let line = binary_extract_line(buffer, index)?;
    match string_from_utf8(line) {
        Ok(s) => Ok(s),
        Err(e) => Err(RESPError::from(e)),
    }
}

impl RESP {
    /// The wire form of the value: "+text\r\n" for a simple string,
    /// "$length\r\ntext\r\n" for a bulk string, "$-1\r\n" for null,
    /// "*count\r\n" followed by the items for an array, and
    /// "$length\r\n" for an RDB header.
    pub fn to_string(&self) -> (res: String)
        ensures
            res@ == resp_chars(self@),
        decreases self,
    {
        proof {
            reveal_strlit("+");
            reveal_strlit("$");
            reveal_strlit("*");
            reveal_strlit("\r\n");
            reveal_strlit("$-1\r\n");
        }
        match self {
            RESP::SimpleString(data) => {
                let mut out = String::from_str("+");
                out.append(data.as_str());
                out.append("\r\n");
                assert(out@ =~= resp_chars(self@));
                out
            },
            RESP::BulkString(data) => {
                let mut out = String::from_str("$");
                let text = data.as_str();
                let length = text.len();
                assert(length == utf8_len(data@));
                push_decimal(&mut out, length as u64);
                out.append("\r\n");
                out.append(data.as_str());
                out.append("\r\n");
                assert(out@ =~= resp_chars(self@));
                out
            },
            RESP::Null => {
                let out = String::from_str("$-1\r\n");
                assert(out@ =~= resp_chars(self@));
                out
            },
            RESP::Array(items) => {
                let mut out = String::from_str("*");
                push_decimal(&mut out, items.len() as u64);
                out.append("\r\n");
                let ghost head = out@;
                proof {
                    lemma_resp_views(items@);
                }
                let mut i: usize = 0;
                while i < items.len()
                    invariant
                        *self is Array,
                        *items == (*self)->Array_0,
                        i <= items@.len(),
                        resp_views(items@).len() == items@.len(),
                        forall|k: int| 0 <= k < items@.len() ==> #[trigger] resp_views(items@)[k] == resp_view(items@[k]),
                        out@ == head + items_chars(resp_views(items@).take(i as int)),
                    decreases items@.len() - i,
                {
                    proof {
                        assert(*items == (*self)->Array_0);
                        assert(decreases_to!(*self => (*self)->Array_0));
                        assert(decreases_to!(*items => items@));
                        assert(decreases_to!(items@ => items@[i as int]));
                    }
                    let part = items[i].to_string();
                    out.append(part.as_str());
                    proof {
                        let vs = resp_views(items@);
                        assert(vs.take(i + 1).drop_last() =~= vs.take(i as int));
                        assert(vs.take(i + 1).last() == resp_view(items@[i as int]));
                        assert(out@ =~= head + items_chars(vs.take(i + 1)));
                    }
                    i = i + 1;
                }
                proof {
                    assert(resp_views(items@).take(items@.len() as int) =~= resp_views(items@));
                    assert(out@ =~= resp_chars(self@));
                }
                out
            },
            RESP::RDBPrefix(n) => {
                let mut out = String::from_str("$");
                push_decimal(&mut out, *n as u64);
                out.append("\r\n");
                assert(out@ =~= resp_chars(self@));
                out
            },
        }
    }
}

/// A bulk string that holds the lines, with "\r\n" between each two.
pub fn bulk_string_from_vec(lines: Vec<String>) -> (r: RESP)
    ensures
        r@ == RESPView::BulkString(join_with_spec(words_of(lines@), "\r\n"@)),
{
    RESP::BulkString(join_with(&lines, "\r\n"))
}

/// Checks that the byte at `index` is `type_byte` and steps past it.
pub fn resp_process_type(type_byte: char, buffer: &[u8], index: &mut usize) -> (res: RESPResult<()>)
    requires
        *old(index) < buffer@.len(),
    ensures
        ({
            let (expected, next) = process_type_spec(type_byte as u8, buffer@, *old(index) as int);
            &&& res == expected
            &&& *final(index) == next
        }),
{
    if buffer[*index] != type_byte as u8 {
        return Err(RESPError::WrongType);
    }
    *index = *index + 1;
    Ok(())
}

/// Parses a simple string, "+" followed by text up to "\r\n", at `index`.
pub fn resp_parse_simple_string(buffer: &[u8], index: &mut usize) -> (res: RESPResult<RESP>)
    requires
        *old(index) < buffer@.len(),
    ensures
        ({
            let (expected, next) = parse_simple_string_spec(buffer@, *old(index) as int);
            &&& *final(index) == next
            &&& match expected {
                Ok(v) => res matches Ok(r) && r@ == v,
                Err(e) => res == Err::<RESP, RESPError>(e),
            }
        }),
        *final(index) >= *old(index),
{
    resp_process_type('+', buffer, index)?;
    let line: String = binary_extract_line_as_string(buffer, index)?;
    Ok(RESP::SimpleString(line))
}

/// Copies the bytes from `from` up to `to`.
fn copy_range(buffer: &[u8], from: usize, to: usize) -> (res: Vec<u8>)
    requires
        from <= to <= buffer@.len(),
    ensures
        res@ == buffer@.subrange(from as int, to as int),
{
    let mut res: Vec<u8> = Vec::new();
    let mut k = from;
    while k < to
        invariant
            from <= k <= to,
            to <= buffer@.len(),
            res@ == buffer@.subrange(from as int, k as int),
        decreases to - k,
    {
        res.push(buffer[k]);
        k = k + 1;
    }
    res
}

/// Reads the text of a number as an `i32` is read from text.
pub fn parse_i32(text: &[u8]) -> (res: Option<i32>)
    ensures
        res == parse_i32_spec(text@),
{
    let n = text.len();
    let negative = n > 0 && text[0] == 45u8;
    let mut start: usize = 0;
    if n > 0 && (text[0] == 45u8 || text[0] == 43u8) {
        start = 1;
    }
    let ghost digits = unsigned_part(text@);
    assert(digits =~= text@.subrange(start as int, n as int));
    if start == n {
        return None;
    }
    let mut value: u64 = 0;
    let mut k: usize = start;
    while k < n
        invariant
            n == text@.len(),
            start <= k <= n,
            start < n,
            digits == unsigned_part(text@),
            digits =~= text@.subrange(start as int, n as int),
            forall|i: int| start <= i < k ==> is_digit_byte(#[trigger] text@[i]),
            value == (if digit_bytes_value(text@.subrange(start as int, k as int)) > 2147483648 {
                2147483649
            } else {
                digit_bytes_value(text@.subrange(start as int, k as int))
            }),
        decreases n - k,
    {
        let c = text[k];
        if !(c >= 48u8 && c <= 57u8) {
            assert(digits[k - start] == c);
            assert(!is_digit_byte(digits[k - start]));
            assert(!all_digit_bytes(digits));
            return None;
        }
        let d = (c - 48u8) as u64;
        let ghost before = text@.subrange(start as int, k as int);
        let ghost after = text@.subrange(start as int, k + 1);
        assert(after.drop_last() =~= before);
        assert(after.last() == c);
        if value > 214748364 || value * 10 + d > 2147483648 {
            value = 2147483649;
        } else {
            value = value * 10 + d;
        }
        k = k + 1;
    }
    assert(text@.subrange(start as int, n as int) =~= digits);
    assert forall|i: int| 0 <= i < digits.len() implies is_digit_byte(#[trigger] digits[i]) by {
        assert(digits[i] == text@[start + i]);
    }
    assert(all_digit_bytes(digits));
    if negative {
        if value > 2147483648 {
            None
        } else {
            Some((0i64 - value as i64) as i32)
        }
    } else {
        if value > 2147483647 {
            None
        } else {
            Some(value as i32)
        }
    }
}

/// Reads a length line at `index`: the text up to "\r\n", read as an `i32`.
pub fn resp_parse_length(buffer: &[u8], index: &mut usize) -> (res: RESPResult<RESPLength>)
    ensures
        ({
            let (expected, next) = parse_length_spec(buffer@, *old(index) as int);
            &&& *final(index) == next
            &&& res == expected
        }),
{
    let ghost start = *index as int;
    let line = binary_extract_line_as_string(buffer, index)?;
    let text = line.as_str();
    let bytes = text.as_bytes();
    proof {
        let l = extract_line_spec(buffer@, start).0->Ok_0;
        decode_utf8_encode_utf8(l);
        assert(bytes@ == l);
    }
    match parse_i32(bytes) {
        Some(n) => Ok(n),
        None => Err(RESPError::ParseInt),
    }
}

/// Parses a bulk string, "$", a length line, then that many bytes of text
/// and "\r\n", at `index`; the length -1 gives null.
pub fn resp_parse_bulk_string(buffer: &[u8], index: &mut usize) -> (res: RESPResult<RESP>)
    requires
        *old(index) < buffer@.len(),
    ensures
        ({
            let (expected, next) = parse_bulk_string_spec(buffer@, *old(index) as int);
            &&& *final(index) == next
            &&& match expected {
                Ok(v) => res matches Ok(r) && r@ == v,
                Err(e) => res == Err::<RESP, RESPError>(e),
            }
        }),
{
    resp_process_type('$', buffer, index)?;
    proof {
        lemma_length_advances(buffer@, *index as int);
    }
    let n = resp_parse_length(buffer, index)?;
    if n == -1 {
        return Ok(RESP::Null);
    }
    if n < -1 {
        return Err(RESPError::IncorrectLength(n));
    }
    let start = *index;
    let length = n as usize;
    if length + 2 > buffer.len() - start {
        *index = buffer.len();
        return Err(RESPError::OutOfBounds(buffer.len()));
    }
    if !(buffer[start + length] == 13u8 && buffer[start + length + 1] == 10u8) {
        return Err(RESPError::IncorrectLength(n));
    }
    let data = copy_range(buffer, start, start + length);
    *index = start + length + 2;
    match string_from_utf8(data) {
        Ok(text) => Ok(RESP::BulkString(text)),
        Err(e) => Err(RESPError::from(e)),
    }
}

/// The parsers that a router can select.
pub enum RESPParser {
    SimpleString,
    BulkString,
    Array,
}

/// Selects the parser for the type byte at `index`: the simple-string parser
/// for "+", none for any other byte or past the end.
pub fn parser_router(buffer: &[u8], index: &mut usize) -> (res: Option<RESPParser>)
    ensures
        *final(index) == *old(index),
        res is Some <==> (*old(index) < buffer@.len() && buffer@[*old(index) as int]
            == simple_string_type_byte()),
        res is Some ==> res matches Some(RESPParser::SimpleString),
{
    if *index < buffer.len() && buffer[*index] == 43u8 {
        Some(RESPParser::SimpleString)
    } else {
        None
    }
}

/// Selects the parser for the type byte at `index` among all the values
/// that `bytes_to_resp` reads: "+", "$" and "*".
fn value_router(buffer: &[u8], index: usize) -> (res: Option<RESPParser>)
    ensures
        match res {
            Some(RESPParser::SimpleString) => index < buffer@.len() && buffer@[index as int]
                == simple_string_type_byte(),
            Some(RESPParser::BulkString) => index < buffer@.len() && buffer@[index as int]
                == bulk_string_type_byte(),
            Some(RESPParser::Array) => index < buffer@.len() && buffer@[index as int]
                == array_type_byte(),
            None => !(index < buffer@.len() && (buffer@[index as int] == simple_string_type_byte()
                || buffer@[index as int] == bulk_string_type_byte() || buffer@[index as int]
                == array_type_byte())),
        },
{
    if index >= buffer.len() {
        None
    } else if buffer[index] == 43u8 {
        Some(RESPParser::SimpleString)
    } else if buffer[index] == 36u8 {
        Some(RESPParser::BulkString)
    } else if buffer[index] == 42u8 {
        Some(RESPParser::Array)
    } else {
        None
    }
}

/// Parses the value at `i`; gives the result and the index where parsing stopped.
fn parse_value_at(buffer: &[u8], i: usize) -> (res: (RESPResult<RESP>, usize))
    ensures
        ({
            let (expected, next) = parse_spec(buffer@, i as int);
            &&& res.1 == next
            &&& match expected {
                Ok(v) => res.0 matches Ok(r) && r@ == v,
                Err(e) => res.0 == Err::<RESP, RESPError>(e),
            }
        }),
    decreases buffer@.len() - i, 0int,
{
    let mut index = i;
    match value_router(buffer, i) {
        Some(RESPParser::SimpleString) => {
            let r = resp_parse_simple_string(buffer, &mut index);
            (r, index)
        },
        Some(RESPParser::BulkString) => {
            let r = resp_parse_bulk_string(buffer, &mut index);
            (r, index)
        },
        Some(RESPParser::Array) => {
            let len = buffer.len();
            assert(i < len);
            index = i + 1;
            proof {
                lemma_length_advances(buffer@, i + 1);
            }
            let n = match resp_parse_length(buffer, &mut index) {
                Ok(n) => n,
                Err(e) => {
                    return (Err(e), index);
                },
            };
            if n == -1 {
                return (Ok(RESP::Null), index);
            }
            if n < -1 {
                return (Err(RESPError::IncorrectLength(n)), index);
            }
            let (items, next) = parse_items_at(buffer, index, n as usize);
            match items {
                Ok(v) => (Ok(RESP::Array(v)), next),
                Err(e) => (Err(e), next),
            }
        },
        None => (Err(RESPError::Unknown), i),
    }
}

/// Parses `n` values one after the other from `j`.
fn parse_items_at(buffer: &[u8], j: usize, n: usize) -> (res: (RESPResult<Vec<RESP>>, usize))
    requires
        j <= buffer@.len(),
    ensures
        ({
            let (expected, next) = parse_items_spec(buffer@, j as int, n as nat);
            &&& res.1 == next
            &&& match expected {
                Ok(vs) => res.0 matches Ok(r) && resp_views(r@) == vs,
                Err(e) => res.0 == Err::<Vec<RESP>, RESPError>(e),
            }
        }),
    decreases buffer@.len() - j, 1int,
{
    let mut items: Vec<RESP> = Vec::new();
    let mut k = j;
    let mut count: usize = 0;
    while count < n
        invariant
            j <= k <= buffer@.len(),
            count <= n,
            parse_items_spec(buffer@, j as int, n as nat) == with_prefix(
                resp_views(items@),
                parse_items_spec(buffer@, k as int, (n - count) as nat),
            ),
        decreases n - count,
    {
        let (r, next) = parse_value_at(buffer, k);
        proof {
            lemma_parse_advances(buffer@, k as int);
        }
        match r {
            Err(e) => {
                return (Err(e), next);
            },
            Ok(v) => {
                let ghost before = items@;
                let ghost rest = parse_items_spec(buffer@, next as int, (n - count - 1) as nat);
                items.push(v);
                proof {
                    assert(items@.drop_last() =~= before);
                    assert(resp_views(items@) == resp_views(before).push(resp_view(v)));
                    assert(with_prefix(resp_views(before), parse_items_spec(buffer@, k as int, (n - count) as nat))
                        =~= with_prefix(resp_views(items@), rest)) by {
                        if rest.0 is Ok {
                            assert(resp_views(before) + (seq![resp_view(v)] + rest.0->Ok_0)
                                =~= resp_views(items@) + rest.0->Ok_0);
                        }
                    }
                }
                k = next;
                count = count + 1;
            },
        }
    }
    proof {
        assert(resp_views(items@) + Seq::<RESPView>::empty() =~= resp_views(items@));
    }
    (Ok(items), k)
}

/// What `resp_parser` gives at `i`: a simple string where "+" stands at
/// `i`; otherwise `Unknown`, with the index left where it was.
pub open spec fn resp_parser_spec(b: Seq<u8>, i: int) -> (Result<RESPView, RESPError>, int) {
    if 0 <= i < b.len() && b[i] == simple_string_type_byte() {
        parse_simple_string_spec(b, i)
    } else {
        (Err(RESPError::Unknown), i)
    }
}

/// Parses the simple string that starts at `index` and moves `index` past
/// it; any other type byte, or an index past the end, is `Unknown`.
pub fn resp_parser(buffer: &[u8], index: &mut usize) -> (res: RESPResult<RESP>)
    ensures
        ({
            let (expected, next) = resp_parser_spec(buffer@, *old(index) as int);
            &&& *final(index) == next
            &&& match expected {
                Ok(v) => res matches Ok(r) && r@ == v,
                Err(e) => res == Err::<RESP, RESPError>(e),
            }
        }),
        *final(index) >= *old(index),
{
    proof {
        lemma_parse_advances(buffer@, *index as int);
    }
    match parser_router(buffer, index) {
        Some(_) => resp_parse_simple_string(buffer, index),
        None => Err(RESPError::Unknown),
    }
}

/// Parses the RESP value that starts at `index`, a simple string, a bulk
/// string, null or an array, and moves `index` past it.
pub fn bytes_to_resp(buffer: &[u8], index: &mut usize) -> (res: RESPResult<RESP>)
    ensures
        ({
            let (expected, next) = parse_spec(buffer@, *old(index) as int);
            &&& *final(index) == next
            &&& match expected {
                Ok(v) => res matches Ok(r) && r@ == v,
                Err(e) => res == Err::<RESP, RESPError>(e),
            }
        }),
        *final(index) >= *old(index),
{
    proof {
        lemma_parse_advances(buffer@, *index as int);
    }
    let (res, next) = parse_value_at(buffer, *index);
    *index = next;
    res
}

} // verus!
