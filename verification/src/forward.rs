//! What the tunnel client does with an HTTP request it relays: it checks
//! the request, and renders the target's response as the text it sends back.

use vstd::prelude::*;
use vstd::string::StringExecFns;
use crate::error::NatError;
use crate::http::{HttpRequest, request_line_parts, supported_method, body_method, is_request_of};
use crate::text::{chars_of, lines, string_from_chars, str_eq, uppercase_of};

verus! {

/// `s` without leading and trailing NUL characters, as `trim_matches('\0')` makes it.
pub open spec fn trim_nul(s: Seq<char>) -> Seq<char>
    decreases s.len(),
{
    if s.len() > 0 && s[0] == '\0' {
        trim_nul(s.drop_first())
    } else if s.len() > 0 && s.last() == '\0' {
        trim_nul(s.drop_last())
    } else {
        s
    }
}

proof fn lemma_trim_nul_front(s: Seq<char>, i: int)
    requires
        0 <= i <= s.len(),
        forall|j: int| 0 <= j < i ==> s[j] == '\0',
    ensures
        trim_nul(s) == trim_nul(s.skip(i)),
    decreases i,
{
    if i > 0 {
        assert(s.drop_first().skip(i - 1) =~= s.skip(i));
        lemma_trim_nul_front(s.drop_first(), i - 1);
    } else {
        assert(s.skip(0) =~= s);
    }
}

proof fn lemma_trim_nul_back(s: Seq<char>, e: int)
    requires
        0 <= e <= s.len(),
        s.len() == 0 || s[0] != '\0' || e == 0,
        forall|j: int| e <= j < s.len() ==> s[j] == '\0',
        e > 0 ==> s[0] != '\0',
    ensures
        trim_nul(s) == trim_nul(s.take(e)),
    decreases s.len() - e,
{
    if e < s.len() {
        assert(s.drop_last().take(e) =~= s.take(e));
        if s.len() > 0 && s[0] == '\0' {
            assert(e == 0);
            assert(s.take(0) =~= Seq::<char>::empty());
            lemma_trim_nul_all(s);
        } else {
            lemma_trim_nul_back(s.drop_last(), e);
        }
    } else {
        assert(s.take(e) =~= s);
    }
}

proof fn lemma_trim_nul_all(s: Seq<char>)
    requires
        forall|j: int| 0 <= j < s.len() ==> s[j] == '\0',
    ensures
        trim_nul(s) == Seq::<char>::empty(),
    decreases s.len(),
{
    if s.len() > 0 {
        lemma_trim_nul_all(s.drop_first());
    }
}

/// `s` without leading and trailing NUL characters.
pub fn trim_nul_chars(s: &[char]) -> (r: Vec<char>)
    ensures
        r@ == trim_nul(s@),
{
    let len = s.len();
    let mut a: usize = 0;
    while a < len && s[a] == '\0'
        invariant
            a <= len,
            len == s@.len(),
            forall|j: int| 0 <= j < a ==> s@[j] == '\0',
        decreases len - a,
    {
        a = a + 1;
    }
    let ghost u = s@.skip(a as int);
    proof {
        lemma_trim_nul_front(s@, a as int);
    }
    let mut b: usize = len;
    while b > a && s[b - 1] == '\0'
        invariant
            a <= b <= len,
            len == s@.len(),
            forall|j: int| b <= j < len ==> s@[j] == '\0',
        decreases b,
    {
        b = b - 1;
    }
    proof {
        if a == len {
            lemma_trim_nul_all(u);
            assert(u.take(0) =~= Seq::<char>::empty());
        } else {
            lemma_trim_nul_back(u, b - a);
        }
        let v = u.take(b - a);
        assert(v =~= s@.subrange(a as int, b as int));
        if b > a {
            assert(v[0] != '\0' && v.last() != '\0');
        }
        assert(trim_nul(v) == v);
    }
    vstd::slice::slice_to_vec(vstd::slice::slice_subrange(s, a, b))
}

/// Why the client does not forward a relayed request.
pub enum ForwardRefusal {
    /// The request line names no URL.
    UnknownRequest,
    /// The method is neither GET nor POST.
    UnsupportedMethod,
}

/// The method of a relayed request, as written in its request line (NUL
/// padding removed).
pub open spec fn relayed_method(text: Seq<char>) -> Seq<char> {
    request_line_parts(lines(trim_nul(text))[0]).0
}

/// Whether the client forwards the relayed request `text`, NUL padding
/// removed; or why it does not.
pub open spec fn forwarded_request(text: Seq<char>) -> Result<(), ForwardRefusal> {
    let parts = request_line_parts(lines(trim_nul(text))[0]);
    if parts.1 == "Unknown"@ {
        Err(ForwardRefusal::UnknownRequest)
    } else if !supported_method(uppercase_of(parts.0)) {
        Err(ForwardRefusal::UnsupportedMethod)
    } else {
        Ok(())
    }
}

/// Only GET and POST are forwarded: a relayed request that names a URL is
/// forwarded exactly when its method, upper-cased, is GET or POST; any
/// other method (PUT, PATCH, DELETE, HEAD, ...) is refused as unsupported.
pub proof fn lemma_only_get_and_post_forwarded(text: Seq<char>)
    ensures
        ({
            let line = request_line_parts(lines(trim_nul(text))[0]);
            let upper = uppercase_of(relayed_method(text));
            &&& line.1 == "Unknown"@ ==> forwarded_request(text) == Err::<(), ForwardRefusal>(
                ForwardRefusal::UnknownRequest,
            )
            &&& line.1 != "Unknown"@ ==> (forwarded_request(text) is Ok <==> (upper == "GET"@ || upper == "POST"@))
            &&& line.1 != "Unknown"@ && upper != "GET"@ && upper != "POST"@ ==> forwarded_request(text)
                == Err::<(), ForwardRefusal>(ForwardRefusal::UnsupportedMethod)
        }),
{
}

/// Parses a relayed request after removing its NUL padding, and checks that
/// the client can forward it: it names a URL, and its method is GET or POST.
/// A refused method comes back in the error, as the request wrote it.
pub fn prepare_forward(text: &str) -> (r: Result<HttpRequest, NatError>)
    requires
        trim_nul(text@).len() > 0,
    ensures
        forwarded_request(text@) is Ok <==> r is Ok,
        forwarded_request(text@) == Err::<(), ForwardRefusal>(ForwardRefusal::UnknownRequest)
            <==> r == Err::<HttpRequest, NatError>(NatError::UnknownRequest),
        forwarded_request(text@) == Err::<(), ForwardRefusal>(ForwardRefusal::UnsupportedMethod)
            <==> r matches Err(NatError::UnsupportedMethod(_)),
        r matches Err(NatError::UnsupportedMethod(m)) ==> m@ == relayed_method(text@),
        r matches Ok(req) ==> is_request_of(req, trim_nul(text@)),
{
    let cs = chars_of(text);
    let trimmed = trim_nul_chars(cs.as_slice());
    let s = string_from_chars(trimmed.as_slice());
    let req = HttpRequest::from_utf8(s.as_str());
    if str_eq(req.request_line.url.as_str(), "Unknown") {
        return Err(NatError::UnknownRequest);
    }
    if !req.request_line.is_supported() {
        return Err(NatError::UnsupportedMethod(req.request_line.method));
    }
    Ok(req)
}

/// What `format!("{:?}", s)` makes of a text: the text quoted, with the
/// characters that need it escaped.
pub uninterp spec fn debug_quoted_of(s: Seq<char>) -> Seq<char>;

/// Trusted: wraps `<str as Debug>::fmt` through `format!("{:?}", s)`; its
/// result is a function of the text alone, named by `debug_quoted_of`.
#[verifier::external_body]
fn debug_quoted(s: &str) -> (r: String)
    ensures
        r@ == debug_quoted_of(s@),
{
    format!("{:?}", s)
}

/// The body that the client posts for a request: for a method with a body,
/// the request's data (empty if none) in its quoted debug form; no body for
/// other methods, which are sent as GET.
pub fn post_payload(req: &HttpRequest) -> (r: Option<String>)
    ensures
        body_method(uppercase_of(req.request_line.method@)) ==> r is Some
            && r->Some_0@ == debug_quoted_of(match req.data {
                Some(d) => d@,
                None => Seq::<char>::empty(),
            }),
        !body_method(uppercase_of(req.request_line.method@)) ==> r is None,
{
    if req.request_line.has_body() {
        let s = match &req.data {
            Some(d) => d.clone(),
            None => String::new(),
        };
        Some(debug_quoted(s.as_str()))
    } else {
        None
    }
}

} // verus!

verus! {

/// The decimal digit character of `d`.
pub open spec fn digit_char(d: nat) -> char {
    seq!['0', '1', '2', '3', '4', '5', '6', '7', '8', '9'][d as int]
}

/// The decimal numeral of `n`, as `{}` and `{:?}` print an unsigned integer.
pub open spec fn decimal(n: nat) -> Seq<char>
    decreases n,
{
    if n < 10 {
        seq![digit_char(n)]
    } else {
        decimal(n / 10).push(digit_char(n % 10))
    }
}

fn push_decimal(n: u64, out: &mut Vec<char>)
    ensures
        final(out)@ == old(out)@ + decimal(n as nat),
    decreases n,
{
    let digits: [char; 10] = ['0', '1', '2', '3', '4', '5', '6', '7', '8', '9'];
    if n >= 10 {
        push_decimal(n / 10, out);
    }
    let d = (n % 10) as usize;
    out.push(digits[d]);
    proof {
        assert(digits@ =~= seq!['0', '1', '2', '3', '4', '5', '6', '7', '8', '9']);
        if n >= 10 {
            assert(final(out)@ =~= old(out)@ + decimal(n as nat));
        } else {
            assert(final(out)@ =~= old(out)@ + decimal(n as nat));
        }
    }
}

/// The decimal numeral of `n`.
pub fn decimal_string(n: u64) -> (r: String)
    ensures
        r@ == decimal(n as nat),
{
    let mut v: Vec<char> = Vec::new();
    push_decimal(n, &mut v);
    assert(v@ =~= decimal(n as nat));
    string_from_chars(v.as_slice())
}

/// The value of a digit character.
pub open spec fn digit_value(c: char) -> nat {
    (c as u32 - '0' as u32) as nat
}

/// Whether every character of `d` is a decimal digit.
pub open spec fn all_digits(d: Seq<char>) -> bool {
    forall|i: int| 0 <= i < d.len() ==> '0' <= #[trigger] d[i] && d[i] <= '9'
}

/// The number that the decimal digits `d` spell.
pub open spec fn digits_value(d: Seq<char>) -> nat
    decreases d.len(),
{
    if d.len() == 0 {
        0
    } else {
        digits_value(d.drop_last()) * 10 + digit_value(d.last())
    }
}

/// The number that `s` spells as `usize::from_str` reads it: an optional
/// `+`, then at least one decimal digit and nothing else, not above
/// `usize::MAX`.
pub open spec fn parsed_usize(s: Seq<char>) -> Option<usize> {
    let d = if s.len() > 0 && s[0] == '+' { s.drop_first() } else { s };
    if d.len() > 0 && all_digits(d) && digits_value(d) <= usize::MAX {
        Some(digits_value(d) as usize)
    } else {
        None
    }
}

proof fn lemma_digits_value_mono(d: Seq<char>, i: int)
    requires
        0 <= i <= d.len(),
        all_digits(d),
    ensures
        digits_value(d.take(i)) <= digits_value(d),
    decreases d.len() - i,
{
    if i < d.len() {
        lemma_digits_value_mono(d, i + 1);
        assert(d.take(i + 1).drop_last() =~= d.take(i));
        assert(digits_value(d.take(i)) <= digits_value(d.take(i)) * 10);
    } else {
        assert(d.take(i) =~= d);
    }
}

/// Reads an unsigned decimal number as `usize::from_str` does.
pub fn parse_usize(s: &str) -> (r: Option<usize>)
    ensures
        r == parsed_usize(s@),
{
    let cs = chars_of(s);
    let len = cs.len();
    let start: usize = if len > 0 && cs[0] == '+' { 1 } else { 0 };
    let ghost d = if s@.len() > 0 && s@[0] == '+' { s@.drop_first() } else { s@ };
    if start == len {
        return None;
    }
    let mut acc: usize = 0;
    let mut i: usize = start;
    proof {
        assert(d =~= cs@.skip(start as int));
        assert(d.take(0) =~= Seq::<char>::empty());
    }
    while i < len
        invariant
            start <= i <= len,
            len == cs@.len(),
            cs@ == s@,
            d == cs@.skip(start as int),
            d == (if s@.len() > 0 && s@[0] == '+' { s@.drop_first() } else { s@ }),
            d.len() > 0,
            all_digits(d.take(i - start)),
            acc as nat == digits_value(d.take(i - start)),
        decreases len - i,
    {
        let c = cs[i];
        proof {
            assert(d[i - start] == c);
        }
        if !('0' <= c && c <= '9') {
            proof {
                assert(!all_digits(d));
            }
            return None;
        }
        let v = (c as u32 - '0' as u32) as usize;
        proof {
            assert(d.take(i - start + 1).drop_last() =~= d.take(i - start));
            assert(d.take(i - start + 1).last() == c);
            assert(all_digits(d.take(i - start + 1)));
            assert(v == digit_value(c));
            assert(digits_value(d.take(i - start + 1)) == acc * 10 + v);
        }
        match acc.checked_mul(10) {
            None => {
                proof {
                    lemma_digits_value_overflow(d, i - start + 1);
                }
                return None;
            },
            Some(m) => match m.checked_add(v) {
                None => {
                    proof {
                        lemma_digits_value_overflow(d, i - start + 1);
                    }
                    return None;
                },
                Some(n) => {
                    acc = n;
                },
            },
        }
        i = i + 1;
    }
    proof {
        assert(d.take(len - start) =~= d);
    }
    Some(acc)
}

proof fn lemma_digits_value_overflow(d: Seq<char>, k: int)
    requires
        0 < k <= d.len(),
        all_digits(d.take(k)),
        digits_value(d.take(k)) > usize::MAX,
    ensures
        !(all_digits(d) && digits_value(d) <= usize::MAX),
{
    if all_digits(d) {
        lemma_digits_value_mono(d, k);
    }
}

/// A response header as the client writes it back: the content length is
/// rewritten as the number it holds; other values are kept.
pub open spec fn header_line(h: (Seq<char>, Seq<char>)) -> Seq<char> {
    h.0 + ": "@ + (if h.0 == "content-length"@ {
        decimal(parsed_usize(h.1)->Some_0 as nat)
    } else {
        h.1
    }) + "\r\n"@
}

/// The header lines of a response.
pub open spec fn header_lines(hs: Seq<(Seq<char>, Seq<char>)>) -> Seq<char>
    decreases hs.len(),
{
    if hs.len() == 0 {
        Seq::empty()
    } else {
        header_lines(hs.drop_last()) + header_line(hs.last())
    }
}

/// The views of header pairs.
pub open spec fn header_views(hs: Seq<(String, String)>) -> Seq<(Seq<char>, Seq<char>)> {
    hs.map_values(|h: (String, String)| (h.0@, h.1@))
}

/// The text that the client sends back for a response: the status line, the
/// headers, an empty line, then the body followed by a space and a line end.
pub open spec fn response_text(version: Seq<char>, status: u16, hs: Seq<(Seq<char>, Seq<char>)>, body: Seq<char>)
    -> Seq<char>
{
    version + " "@ + decimal(status as nat) + "\r\n"@ + header_lines(hs) + "\r\n"@ + body + " \r\n"@
}

/// Whether every content-length header holds a number.
pub open spec fn content_lengths_valid(hs: Seq<(Seq<char>, Seq<char>)>) -> bool {
    forall|i: int| 0 <= i < hs.len() && #[trigger] hs[i].0 == "content-length"@ ==> parsed_usize(hs[i].1) is Some
}

/// Renders the target's response as the text the client sends back: the
/// protocol version (as the response's `Debug` names it), the status code,
/// the headers, and the body.
pub fn format_response(version: &str, status: u16, headers: &Vec<(String, String)>, body: &str) -> (r: String)
    requires
        content_lengths_valid(header_views(headers@)),
    ensures
        r@ == response_text(version@, status, header_views(headers@), body@),
{
    let mut res = String::from_str(version);
    res.append(" ");
    let code = decimal_string(status as u64);
    res.append(code.as_str());
    res.append("\r\n");
    let ghost prefix = res@;
    let ghost hs = header_views(headers@);
    let mut i: usize = 0;
    while i < headers.len()
        invariant
            i <= headers@.len(),
            hs == header_views(headers@),
            content_lengths_valid(hs),
            res@ == prefix + header_lines(hs.take(i as int)),
        decreases headers@.len() - i,
    {
        let (key, value) = &headers[i];
        let ghost before = res@;
        assert(hs[i as int] == (key@, value@));
        assert(hs[i as int].0 == key@);
        res.append(key.as_str());
        res.append(": ");
        if str_eq(key.as_str(), "content-length") {
            match parse_usize(value.as_str()) {
                Some(n) => {
                    let text = decimal_string(n as u64);
                    res.append(text.as_str());
                },
                None => {
                    assert(false);
                },
            }
        } else {
            res.append(value.as_str());
        }
        res.append("\r\n");
        proof {
            assert(hs.take(i + 1).drop_last() =~= hs.take(i as int));
            assert(hs.take(i + 1).last() == hs[i as int]);
            assert(res@ =~= before + header_line(hs[i as int]));
        }
        i = i + 1;
    }
    res.append("\r\n");
    res.append(body);
    res.append(" \r\n");
    proof {
        assert(hs.take(headers@.len() as int) =~= hs);
    }
    res
}

} // verus!
