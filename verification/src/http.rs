//! The response builder: the literal HTTP status line, header block and body,
//! with a `Content-Length` that equals the byte length of the body. A
//! spec-level parser reads such a response back, and a law states that the
//! two compose: the length a parser recovers is the transmitted body's byte
//! length.

use vstd::prelude::*;
use vstd::seq_lib::group_seq_properties;
use crate::decimal::{
    spec_decimal, spec_digits_val, is_digit_char, u64_to_decimal, lemma_decimal_is_digits,
    lemma_decimal_val,
};

verus! {

/// The number of bytes of the UTF-8 encoding of `s`, which is what a wire
/// transmission of the corresponding string carries.
pub open spec fn spec_byte_len(s: Seq<char>) -> nat {
    vstd::utf8::encode_utf8(s).len()
}

/// The header block: status line (the reason phrase is always `OK`, as the
/// server hard-codes it for every code), `Content-Type`, `Content-Length`,
/// then a blank line.
pub open spec fn spec_http_header(code: nat, content_length: nat, content_type: Seq<char>) -> Seq<
    char,
> {
    "HTTP/1.1 "@ + spec_decimal(code) + " OK\r\nContent-Type: "@ + content_type
        + "\r\nContent-Length: "@ + spec_decimal(content_length) + "\r\n\r\n"@
}

/// A whole response: the header block, where `Content-Length` is the byte
/// length of `body`, followed by `body` itself with no trailing terminator.
pub open spec fn spec_response(code: nat, content_type: Seq<char>, body: Seq<char>) -> Seq<char> {
    spec_http_header(code, spec_byte_len(body), content_type) + body
}

/// Builds the header block for one response.
pub fn create_http_header(http_code: i32, content_length: usize, content_type: &str) -> (r: String)
    requires
        0 <= http_code,
    ensures
        r@ == spec_http_header(http_code as nat, content_length as nat, content_type@),
{
    let mut r = String::from_str("HTTP/1.1 ");
    let code = u64_to_decimal(http_code as u64);
    r.append(code.as_str());
    r.append(" OK\r\nContent-Type: ");
    r.append(content_type);
    r.append("\r\nContent-Length: ");
    let len = u64_to_decimal(content_length as u64);
    r.append(len.as_str());
    r.append("\r\n\r\n");
    proof {
        assert(r@ =~= spec_http_header(http_code as nat, content_length as nat, content_type@));
    }
    r
}

/// Builds a whole response: header block, then `body`, with `Content-Length`
/// equal to the byte length of `body`.
pub fn build_response(http_code: i32, content_type: &str, body: &str) -> (r: String)
    requires
        0 <= http_code,
    ensures
        r@ == spec_response(http_code as nat, content_type@, body@),
{
    let bytes = body.as_bytes();
    proof {
        broadcast use vstd::slice::axiom_spec_len;

        assert(vstd::slice::spec_slice_len(bytes) == bytes@.len());
        assert(bytes@.len() <= usize::MAX);
    }
    let len: usize = body.len();
    let mut r = create_http_header(http_code, len, content_type);
    r.append(body);
    proof {
        assert(len as nat == spec_byte_len(body@));
        assert(r@ =~= spec_response(http_code as nat, content_type@, body@));
    }
    r
}

/// The longest prefix of `s` made of decimal digits.
pub open spec fn spec_take_digits(s: Seq<char>) -> Seq<char>
    decreases s.len(),
{
    if s.len() == 0 {
        Seq::<char>::empty()
    } else if is_digit_char(s[0]) {
        seq![s[0]] + spec_take_digits(s.drop_first())
    } else {
        Seq::<char>::empty()
    }
}

/// The longest prefix of `s` that stays before a carriage return.
pub open spec fn spec_take_line(s: Seq<char>) -> Seq<char>
    decreases s.len(),
{
    if s.len() == 0 {
        Seq::<char>::empty()
    } else if s[0] == '\r' {
        Seq::<char>::empty()
    } else {
        seq![s[0]] + spec_take_line(s.drop_first())
    }
}

/// What a reader recovers from a response: the status code, the two header
/// values, and the body that follows the blank line.
pub struct ParsedResponse {
    /// The status code read from the status line.
    pub code: nat,
    /// The `Content-Type` header value.
    pub content_type: Seq<char>,
    /// The `Content-Length` header value.
    pub content_length: nat,
    /// Everything after the blank line.
    pub body: Seq<char>,
}

/// Reads a response of the shape this library emits: `HTTP/1.1 <code> OK`,
/// a `Content-Type` line, a `Content-Length` line, a blank line, the body.
/// Yields `None` where the text does not have that shape.
pub open spec fn spec_parse_response(r: Seq<char>) -> Option<ParsedResponse> {
    if !"HTTP/1.1 "@.is_prefix_of(r) {
        None
    } else {
        let s1 = r.skip("HTTP/1.1 "@.len() as int);
        let d1 = spec_take_digits(s1);
        if d1.len() == 0 {
            None
        } else {
            let s2 = s1.skip(d1.len() as int);
            if !" OK\r\nContent-Type: "@.is_prefix_of(s2) {
                None
            } else {
                let s3 = s2.skip(" OK\r\nContent-Type: "@.len() as int);
                let ct = spec_take_line(s3);
                let s4 = s3.skip(ct.len() as int);
                if !"\r\nContent-Length: "@.is_prefix_of(s4) {
                    None
                } else {
                    let s5 = s4.skip("\r\nContent-Length: "@.len() as int);
                    let d2 = spec_take_digits(s5);
                    if d2.len() == 0 {
                        None
                    } else {
                        let s6 = s5.skip(d2.len() as int);
                        if !"\r\n\r\n"@.is_prefix_of(s6) {
                            None
                        } else {
                            Some(
                                ParsedResponse {
                                    code: spec_digits_val(d1),
                                    content_type: ct,
                                    content_length: spec_digits_val(d2),
                                    body: s6.skip("\r\n\r\n"@.len() as int),
                                },
                            )
                        }
                    }
                }
            }
        }
    }
}

/// A sequence is a prefix of itself followed by anything, and stripping it
/// leaves that remainder.
proof fn lemma_strip_prefix(p: Seq<char>, rest: Seq<char>)
    ensures
        p.is_prefix_of(p + rest),
        (p + rest).skip(p.len() as int) == rest,
{
    assert((p + rest).subrange(0, p.len() as int) =~= p);
    assert((p + rest).skip(p.len() as int) =~= rest);
}

/// Taking digits from a digit run followed by a non-digit yields the run.
proof fn lemma_take_digits_concat(d: Seq<char>, rest: Seq<char>)
    requires
        forall|i: int| 0 <= i < d.len() ==> is_digit_char(#[trigger] d[i]),
        rest.len() > 0,
        !is_digit_char(rest[0]),
    ensures
        spec_take_digits(d + rest) == d,
    decreases d.len(),
{
    if d.len() == 0 {
        assert(d + rest =~= rest);
        assert(spec_take_digits(rest) =~= Seq::<char>::empty());
        assert(d =~= Seq::<char>::empty());
    } else {
        assert((d + rest).drop_first() =~= d.drop_first() + rest);
        lemma_take_digits_concat(d.drop_first(), rest);
        assert(spec_take_digits(d + rest) =~= d);
    }
}

/// Taking a line from carriage-return-free text followed by a carriage
/// return yields that text.
proof fn lemma_take_line_concat(t: Seq<char>, rest: Seq<char>)
    requires
        forall|i: int| 0 <= i < t.len() ==> #[trigger] t[i] != '\r',
        rest.len() > 0,
        rest[0] == '\r',
    ensures
        spec_take_line(t + rest) == t,
    decreases t.len(),
{
    if t.len() == 0 {
        assert(t + rest =~= rest);
        assert(t =~= Seq::<char>::empty());
    } else {
        assert((t + rest).drop_first() =~= t.drop_first() + rest);
        lemma_take_line_concat(t.drop_first(), rest);
        assert(spec_take_line(t + rest) =~= t);
    }
}

/// The `Content-Length` a reader recovers from a built response is the byte
/// length of the transmitted body, and the body it recovers is that body:
/// building and parsing compose exactly. The content type must stay clear of
/// carriage returns, or it would end its own header line early.
pub proof fn lemma_response_round_trip(code: nat, content_type: Seq<char>, body: Seq<char>)
    requires
        forall|i: int| 0 <= i < content_type.len() ==> #[trigger] content_type[i] != '\r',
    ensures
        spec_parse_response(spec_response(code, content_type, body)) == Some(
            ParsedResponse {
                code: code,
                content_type: content_type,
                content_length: spec_byte_len(body),
                body: body,
            },
        ),
{
    broadcast use group_seq_properties;

    reveal_strlit(" OK\r\nContent-Type: ");
    reveal_strlit("\r\nContent-Length: ");
    reveal_strlit("\r\n\r\n");
    let a = "HTTP/1.1 "@;
    let d1 = spec_decimal(code);
    let b = " OK\r\nContent-Type: "@;
    let c = "\r\nContent-Length: "@;
    let d2 = spec_decimal(spec_byte_len(body));
    let e = "\r\n\r\n"@;
    let r = spec_response(code, content_type, body);

    let t1 = d1 + (b + (content_type + (c + (d2 + (e + body)))));
    assert(r =~= a + t1);
    lemma_strip_prefix(a, t1);

    lemma_decimal_is_digits(code);
    lemma_decimal_is_digits(spec_byte_len(body));
    lemma_decimal_val(code);
    lemma_decimal_val(spec_byte_len(body));

    let t2 = b + (content_type + (c + (d2 + (e + body))));
    assert((b + (content_type + (c + (d2 + (e + body)))))[0] == ' ');
    lemma_take_digits_concat(d1, t2);
    assert(t1 =~= d1 + t2);
    lemma_strip_prefix(d1, t2);

    let t3 = content_type + (c + (d2 + (e + body)));
    lemma_strip_prefix(b, t3);

    let t4 = c + (d2 + (e + body));
    assert(t4[0] == '\r');
    lemma_take_line_concat(content_type, t4);
    lemma_strip_prefix(content_type, t4);

    let t5 = d2 + (e + body);
    lemma_strip_prefix(c, t5);

    let t6 = e + body;
    assert(t6[0] == '\r');
    assert(!is_digit_char('\r'));
    lemma_take_digits_concat(d2, t6);
    lemma_strip_prefix(d2, t6);

    lemma_strip_prefix(e, body);
}

} // verus!
