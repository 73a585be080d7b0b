use crate::resp::{
    all_digit_bytes, crlf_chars, digit_bytes_value, extract_line_spec, find_crlf, has_no_crlf,
    is_crlf_at, items_chars, lemma_encode_utf8_concat, lemma_find_crlf_is, lemma_parse_advances,
    lemma_simple_string_wire_bytes, parse_i32_spec, parse_items_spec, parse_length_spec,
    parse_spec, resp_chars, utf8_len, RESPView,
};
use crate::resp_result::RESPError;
use crate::text::{decimal, digit_char};
use vstd::prelude::*;
use vstd::utf8::*;

verus! {

/// The UTF-8 form of a decimal digit is its ASCII byte.
pub proof fn lemma_digit_char_bytes(d: nat)
    requires
        d < 10,
    ensures
        encode_utf8(seq![digit_char(d)]) == seq![(48 + d) as u8],
{
    let c = seq![digit_char(d)];
    assert(is_ascii_chars(c));
    is_ascii_chars_encode_utf8(c);
    assert(encode_utf8(c)[0] == c[0] as u8);
    assert(encode_utf8(c) =~= seq![(48 + d) as u8]);
}

/// The UTF-8 form of the decimal form of `n` is a non-empty run of digit
/// bytes whose value is `n`.
pub proof fn lemma_decimal_bytes(n: nat)
    ensures
        encode_utf8(decimal(n)).len() >= 1,
        all_digit_bytes(encode_utf8(decimal(n))),
        digit_bytes_value(encode_utf8(decimal(n))) == n,
    decreases n,
{
    if n < 10 {
        lemma_digit_char_bytes(n);
        assert(encode_utf8(decimal(n)) == seq![(48 + n) as u8]);
        let s1 = seq![(48 + n) as u8];
        assert(s1.drop_last() =~= Seq::<u8>::empty());
        assert(digit_bytes_value(Seq::<u8>::empty()) == 0);
        assert(s1.last() == (48 + n) as u8);
        assert(((48 + n) as u8 - 48u8) as nat == n);
        assert(digit_bytes_value(s1) == digit_bytes_value(s1.drop_last()) * 10 + (s1.last() - 48u8) as nat);
    } else {
        lemma_decimal_bytes(n / 10);
        lemma_digit_char_bytes(n % 10);
        let front = decimal(n / 10);
        let last = seq![digit_char(n % 10)];
        lemma_encode_utf8_concat(front, last);
        let d = encode_utf8(decimal(n));
        let fd = encode_utf8(front);
        assert(d == fd + seq![(48 + n % 10) as u8]);
        assert(d.drop_last() =~= fd);
        assert(d.last() == (48 + n % 10) as u8);
        assert forall|i: int| 0 <= i < d.len() implies crate::resp::is_digit_byte(#[trigger] d[i]) by {
            if i < fd.len() {
                assert(d[i] == fd[i]);
            }
        }
    }
}

/// A run of digit bytes holds no "\r\n" pair.
pub proof fn lemma_digits_have_no_crlf(d: Seq<u8>)
    requires
        all_digit_bytes(d),
    ensures
        has_no_crlf(d),
{
    assert forall|k: int| !is_crlf_at(d, k) by {
        if 0 <= k < d.len() {
            assert(crate::resp::is_digit_byte(d[k]));
        }
    }
}

/// Reading the decimal form of `n` back gives `n`.
pub proof fn lemma_parse_decimal(n: nat)
    requires
        n <= 2147483647,
    ensures
        parse_i32_spec(encode_utf8(decimal(n))) == Some(n as i32),
{
    lemma_decimal_bytes(n);
    let d = encode_utf8(decimal(n));
    assert(crate::resp::is_digit_byte(d[0]));
    assert(crate::resp::unsigned_part(d) == d);
}


/// True when `w` stands in `b` from position `i` on.
pub open spec fn holds_at(b: Seq<u8>, i: int, w: Seq<u8>) -> bool {
    &&& 0 <= i
    &&& i + w.len() <= b.len()
    &&& b.subrange(i, i + w.len()) == w
}

/// Where `p + q` stands at `i`, `p` stands at `i` and `q` right after it.
pub proof fn lemma_holds_at_split(b: Seq<u8>, i: int, p: Seq<u8>, q: Seq<u8>)
    requires
        holds_at(b, i, p + q),
    ensures
        holds_at(b, i, p),
        holds_at(b, i + p.len(), q),
{
    let w = p + q;
    assert forall|k: int| 0 <= k < p.len() implies b.subrange(i, i + p.len())[k] == p[k] by {
        assert(b.subrange(i, i + w.len())[k] == w[k]);
    }
    assert forall|k: int| 0 <= k < q.len() implies b.subrange(i + p.len(), i + p.len() + q.len())[k]
        == q[k] by {
        assert(b.subrange(i, i + w.len())[p.len() + k] == w[p.len() + k]);
    }
    assert(b.subrange(i, i + p.len()) =~= p);
    assert(b.subrange(i + p.len(), i + p.len() + q.len()) =~= q);
}

/// The bytes "\r\n".
pub open spec fn crlf_bytes() -> Seq<u8> {
    seq![13u8, 10u8]
}

/// A line `c` without "\r\n", followed by "\r\n", is extracted whole.
pub proof fn lemma_line_at(b: Seq<u8>, i: int, c: Seq<u8>)
    requires
        holds_at(b, i, c + crlf_bytes()),
        has_no_crlf(c),
    ensures
        extract_line_spec(b, i) == (Ok::<Seq<u8>, RESPError>(c), i + c.len() + 2),
{
    lemma_holds_at_split(b, i, c, crlf_bytes());
    let n = c.len() as int;
    assert(b[i + n] == 13u8) by {
        assert(b.subrange(i + n, i + n + 2)[0] == crlf_bytes()[0]);
    }
    assert(b[i + n + 1] == 10u8) by {
        assert(b.subrange(i + n, i + n + 2)[1] == crlf_bytes()[1]);
    }
    assert forall|k: int| i <= k < i + n implies !is_crlf_at(b, k) by {
        assert(b[k] == b.subrange(i, i + n)[k - i]);
        if k + 1 < i + n {
            assert(b[k + 1] == b.subrange(i, i + n)[k + 1 - i]);
            assert(!is_crlf_at(c, k - i));
        }
    }
    lemma_find_crlf_is(b, i, i + n);
    assert(find_crlf(b, i) == Some(i + n));
}

/// The UTF-8 form of the decimal form of `n`.
pub open spec fn decimal_bytes(n: nat) -> Seq<u8> {
    encode_utf8(decimal(n))
}

/// A length line that holds the decimal form of `n` reads as `n`.
pub proof fn lemma_length_at(b: Seq<u8>, i: int, n: nat)
    requires
        n <= 2147483647,
        holds_at(b, i, decimal_bytes(n) + crlf_bytes()),
    ensures
        parse_length_spec(b, i) == (Ok::<i32, RESPError>(n as i32), i + decimal_bytes(n).len()
            + 2),
{
    lemma_decimal_bytes(n);
    lemma_digits_have_no_crlf(decimal_bytes(n));
    lemma_line_at(b, i, decimal_bytes(n));
    encode_utf8_valid_utf8(decimal(n));
    lemma_parse_decimal(n);
}

/// The UTF-8 form of ASCII characters: one byte per character.
pub proof fn lemma_ascii_bytes(c: Seq<char>)
    requires
        is_ascii_chars(c),
    ensures
        encode_utf8(c) == c.map_values(|ch: char| ch as u8),
{
    is_ascii_chars_encode_utf8(c);
    assert(encode_utf8(c) =~= c.map_values(|ch: char| ch as u8));
}


/// The bytes of the wire form of a bulk string: "$", its length in bytes,
/// "\r\n", the UTF-8 text, "\r\n".
pub proof fn lemma_bulk_string_wire_bytes(s: Seq<char>)
    ensures
        encode_utf8(resp_chars(RESPView::BulkString(s))) == seq![36u8] + (decimal_bytes(
            utf8_len(s),
        ) + crlf_bytes()) + (encode_utf8(s) + crlf_bytes()),
{
    let dollar = seq!['$'];
    let d = decimal(utf8_len(s));
    let crlf = crlf_chars();
    lemma_encode_utf8_concat(dollar + d + crlf + s, crlf);
    lemma_encode_utf8_concat(dollar + d + crlf, s);
    lemma_encode_utf8_concat(dollar + d, crlf);
    lemma_encode_utf8_concat(dollar, d);
    lemma_ascii_bytes(dollar);
    lemma_ascii_bytes(crlf);
    assert(encode_utf8(dollar) =~= seq![36u8]);
    assert(encode_utf8(crlf) =~= crlf_bytes());
    assert(encode_utf8(resp_chars(RESPView::BulkString(s))) =~= seq![36u8] + (decimal_bytes(
        utf8_len(s),
    ) + crlf_bytes()) + (encode_utf8(s) + crlf_bytes()));
}

/// The bytes of the wire form of null: "$-1\r\n".
pub proof fn lemma_null_wire_bytes()
    ensures
        encode_utf8(resp_chars(RESPView::Null)) == seq![36u8] + (seq![45u8, 49u8] + crlf_bytes()),
{
    let c = resp_chars(RESPView::Null);
    assert(c =~= seq!['$', '-', '1', '\r', '\n']);
    lemma_ascii_bytes(c);
    assert(encode_utf8(c) =~= seq![36u8] + (seq![45u8, 49u8] + crlf_bytes()));
}

/// The bytes of the wire form of an array: "*", its number of items,
/// "\r\n", then the items' wire forms.
pub proof fn lemma_array_wire_bytes(items: Seq<RESPView>)
    ensures
        encode_utf8(resp_chars(RESPView::Array(items))) == seq![42u8] + (decimal_bytes(items.len())
            + crlf_bytes()) + encode_utf8(items_chars(items)),
{
    let star = seq!['*'];
    let d = decimal(items.len());
    let crlf = crlf_chars();
    lemma_encode_utf8_concat(star + d + crlf, items_chars(items));
    lemma_encode_utf8_concat(star + d, crlf);
    lemma_encode_utf8_concat(star, d);
    lemma_ascii_bytes(star);
    lemma_ascii_bytes(crlf);
    assert(encode_utf8(star) =~= seq![42u8]);
    assert(encode_utf8(crlf) =~= crlf_bytes());
    assert(encode_utf8(resp_chars(RESPView::Array(items))) =~= seq![42u8] + (decimal_bytes(
        items.len(),
    ) + crlf_bytes()) + encode_utf8(items_chars(items)));
}

/// The wire forms of items read from the front: the first item's, then the rest's.
pub proof fn lemma_items_chars_front(items: Seq<RESPView>)
    requires
        items.len() > 0,
    ensures
        items_chars(items) == resp_chars(items[0]) + items_chars(items.drop_first()),
    decreases items.len(),
{
    if items.len() == 1 {
        assert(items.drop_last() =~= Seq::<RESPView>::empty());
        assert(items.drop_first() =~= Seq::<RESPView>::empty());
        assert(items_chars(items) =~= resp_chars(items[0]) + items_chars(items.drop_first()));
    } else {
        let front = items.drop_last();
        lemma_items_chars_front(front);
        assert(front.drop_first() =~= items.drop_first().drop_last());
        assert(items.drop_first().last() == items.last());
        assert(items_chars(items) =~= resp_chars(items[0]) + items_chars(items.drop_first()));
    }
}


/// True for a value whose wire form reads back as the value: a simple
/// string without "\r\n", a bulk string of at most `i32::MAX` bytes, null,
/// or an array of at most `i32::MAX` such values. The header of a snapshot
/// reads back as a bulk string's start, so it is not one of them.
pub open spec fn wire_ok(v: RESPView) -> bool
    decreases v,
{
    match v {
        RESPView::SimpleString(s) => has_no_crlf(encode_utf8(s)),
        RESPView::BulkString(s) => encode_utf8(s).len() <= 2147483647,
        RESPView::Null => true,
        RESPView::Array(items) => items.len() <= 2147483647 && forall|k: int|
            0 <= k < items.len() ==> wire_ok(#[trigger] items[k]),
        RESPView::RDBPrefix(_) => false,
    }
}

/// The bytes of the wire form of a value.
pub open spec fn wire_bytes(v: RESPView) -> Seq<u8> {
    encode_utf8(resp_chars(v))
}

/// The bytes of the wire forms of values, one after the other.
pub open spec fn items_bytes(items: Seq<RESPView>) -> Seq<u8> {
    encode_utf8(items_chars(items))
}

/// Parsing reads back a value from its wire form, wherever that form stands
/// in a buffer and whatever follows it, and stops right after it.
pub proof fn lemma_parse_wire(b: Seq<u8>, i: int, v: RESPView)
    requires
        wire_ok(v),
        holds_at(b, i, wire_bytes(v)),
    ensures
        parse_spec(b, i) == (Ok::<RESPView, RESPError>(v), i + wire_bytes(v).len()),
    decreases v, 0int,
{
    match v {
        RESPView::SimpleString(s) => {
            lemma_simple_string_wire_bytes(s);
            let e = encode_utf8(s);
            assert(wire_bytes(v) =~= seq![43u8] + (e + crlf_bytes()));
            lemma_holds_at_split(b, i, seq![43u8], e + crlf_bytes());
            assert(b[i] == b.subrange(i, i + 1)[0]);
            lemma_line_at(b, i + 1, e);
            encode_utf8_valid_utf8(s);
            encode_utf8_decode_utf8(s);
        },
        RESPView::BulkString(s) => {
            lemma_bulk_string_wire_bytes(s);
            let e = encode_utf8(s);
            let n = utf8_len(s);
            assert(n == e.len());
            let head = decimal_bytes(n) + crlf_bytes();
            lemma_holds_at_split(b, i, seq![36u8] + head, e + crlf_bytes());
            lemma_holds_at_split(b, i, seq![36u8], head);
            assert(b[i] == b.subrange(i, i + 1)[0]);
            lemma_length_at(b, i + 1, n);
            let j = i + 1 + head.len();
            lemma_holds_at_split(b, j, e, crlf_bytes());
            assert(b[j + n] == b.subrange(j + n, j + n + 2)[0]);
            assert(b[j + n + 1] == b.subrange(j + n, j + n + 2)[1]);
            assert(is_crlf_at(b, j + n));
            encode_utf8_valid_utf8(s);
            encode_utf8_decode_utf8(s);
        },
        RESPView::Null => {
            lemma_null_wire_bytes();
            lemma_holds_at_split(b, i, seq![36u8], seq![45u8, 49u8] + crlf_bytes());
            assert(b[i] == b.subrange(i, i + 1)[0]);
            assert(has_no_crlf(seq![45u8, 49u8])) by {
                assert forall|k: int| !is_crlf_at(seq![45u8, 49u8], k) by {
                    if 0 <= k < 2 {
                        assert(seq![45u8, 49u8][k] != 13u8);
                    }
                }
            }
            lemma_line_at(b, i + 1, seq![45u8, 49u8]);
            let digits = seq![49u8];
            assert(crate::resp::unsigned_part(seq![45u8, 49u8]) =~= digits);
            assert(digits.drop_last() =~= Seq::<u8>::empty());
            assert(digit_bytes_value(Seq::<u8>::empty()) == 0);
            assert(digits.last() == 49u8);
            assert(digit_bytes_value(digits) == digit_bytes_value(digits.drop_last()) * 10 + (
            digits.last() - 48u8) as nat);
            assert(digit_bytes_value(digits) == 1);
            assert(parse_i32_spec(seq![45u8, 49u8]) == Some(-1i32));
            assert(valid_utf8(seq![45u8, 49u8])) by {
                lemma_ascii_bytes(seq!['-', '1']);
                assert(encode_utf8(seq!['-', '1']) =~= seq![45u8, 49u8]);
                encode_utf8_valid_utf8(seq!['-', '1']);
            }
        },
        RESPView::Array(items) => {
            lemma_array_wire_bytes(items);
            let head = decimal_bytes(items.len()) + crlf_bytes();
            lemma_holds_at_split(b, i, seq![42u8] + head, items_bytes(items));
            lemma_holds_at_split(b, i, seq![42u8], head);
            assert(b[i] == b.subrange(i, i + 1)[0]);
            lemma_length_at(b, i + 1, items.len());
            let j = i + 1 + head.len();
            assert(items.subrange(0, items.len() as int) =~= items);
            lemma_parse_items_wire(b, j, items, 0);
        },
        RESPView::RDBPrefix(_) => {},
    }
}

/// Parsing the values from position `start` on reads them back from their
/// wire forms, one after the other.
pub proof fn lemma_parse_items_wire(b: Seq<u8>, j: int, items: Seq<RESPView>, start: int)
    requires
        0 <= start <= items.len(),
        forall|k: int| start <= k < items.len() ==> wire_ok(#[trigger] items[k]),
        holds_at(b, j, items_bytes(items.subrange(start, items.len() as int))),
    ensures
        parse_items_spec(b, j, (items.len() - start) as nat) == (Ok::<Seq<RESPView>, RESPError>(
            items.subrange(start, items.len() as int),
        ), j + items_bytes(items.subrange(start, items.len() as int)).len()),
    decreases items, items.len() - start,
{
    let rest = items.subrange(start, items.len() as int);
    if start == items.len() {
        assert(rest =~= Seq::<RESPView>::empty());
        assert(items_chars(rest) =~= Seq::<char>::empty());
        assert(items_bytes(rest) =~= Seq::<u8>::empty());
    } else {
        let x = items[start];
        let more = items.subrange(start + 1, items.len() as int);
        lemma_items_chars_front(rest);
        assert(rest.drop_first() =~= more);
        assert(rest[0] == x);
        lemma_encode_utf8_concat(resp_chars(x), items_chars(more));
        assert(items_bytes(rest) == wire_bytes(x) + items_bytes(more));
        lemma_holds_at_split(b, j, wire_bytes(x), items_bytes(more));
        lemma_parse_wire(b, j, x);
        lemma_parse_advances(b, j);
        let k = j + wire_bytes(x).len();
        lemma_parse_items_wire(b, k, items, start + 1);
        assert(seq![x] + more =~= rest);
    }
}


/// Serializing a value and parsing the bytes gives the value back and
/// consumes every byte.
pub proof fn lemma_serialize_then_parse(v: RESPView)
    requires
        wire_ok(v),
    ensures
        parse_spec(wire_bytes(v), 0) == (Ok::<RESPView, RESPError>(v), wire_bytes(v).len() as int),
{
    assert(wire_bytes(v).subrange(0, wire_bytes(v).len() as int) =~= wire_bytes(v));
    lemma_parse_wire(wire_bytes(v), 0, v);
}

} // verus!
