//! Parsing the HTTP requests that visitors send through the tunnel.

use vstd::prelude::*;
use crate::text::{
    chars_eq_str, chars_of, char_vecs_view, lines, split_header, split_header_spec, split_lines,
    split_words, string_from_chars, to_uppercase, trim, trim_bounds, uppercase_of, words,
    lemma_lines_nonempty, str_eq,
};

verus! {

/// The `i`-th of `ws`, or `d` when there are fewer.
pub open spec fn nth_or(ws: Seq<Seq<char>>, i: int, d: Seq<char>) -> Seq<char> {
    if 0 <= i < ws.len() {
        ws[i]
    } else {
        d
    }
}

/// Whether requests of the method `upper` (upper-cased) carry a body.
pub open spec fn body_method(upper: Seq<char>) -> bool {
    upper == "POST"@ || upper == "PUT"@ || upper == "PATCH"@
}

/// Whether the tunnel forwards requests of the method `upper` (upper-cased).
pub open spec fn supported_method(upper: Seq<char>) -> bool {
    upper == "GET"@ || upper == "POST"@
}

/// Whether requests of the method `upper`, already upper-cased, carry a body: POST, PUT or PATCH.
pub fn is_body_method(upper: &str) -> (r: bool)
    ensures
        r == body_method(upper@),
{
    str_eq(upper, "POST") || str_eq(upper, "PUT") || str_eq(upper, "PATCH")
}

/// Whether the tunnel forwards requests of the method `upper`, already upper-cased: GET or POST.
pub fn is_supported_method(upper: &str) -> (r: bool)
    ensures
        r == supported_method(upper@),
{
    str_eq(upper, "GET") || str_eq(upper, "POST")
}

/// The first line of an HTTP request: method, URL and protocol version.
#[derive(Debug, Clone)]
pub struct RequestLine {
    pub method: String,
    pub url: String,
    pub http_version: String,
}

/// The method, URL and version that a request line holds: its first three
/// words, with GET, "Unknown" and HTTP/1.1 for the missing ones.
pub open spec fn request_line_parts(line: Seq<char>) -> (Seq<char>, Seq<char>, Seq<char>) {
    let ws = words(trim(line));
    (nth_or(ws, 0, "GET"@), nth_or(ws, 1, "Unknown"@), nth_or(ws, 2, "HTTP/1.1"@))
}

fn word_or_default(ws: &Vec<Vec<char>>, i: usize, d: &str) -> (r: String)
    ensures
        r@ == nth_or(char_vecs_view(ws@), i as int, d@),
{
    if i < ws.len() {
        string_from_chars(ws[i].as_slice())
    } else {
        string_from_chars(chars_of(d).as_slice())
    }
}

impl RequestLine {
    fn from_chars(line: &[char]) -> (r: Self)
        ensures
            (r.method@, r.url@, r.http_version@) == request_line_parts(line@),
    {
        let (a, b) = trim_bounds(line);
        let trimmed = vstd::slice::slice_to_vec(vstd::slice::slice_subrange(line, a, b));
        let ws = split_words(trimmed.as_slice());
        Self {
            method: word_or_default(&ws, 0, "GET"),
            url: word_or_default(&ws, 1, "Unknown"),
            http_version: word_or_default(&ws, 2, "HTTP/1.1"),
        }
    }

    /// Reads a request line: its first three words are the method, the URL
    /// and the version; GET, "Unknown" and HTTP/1.1 stand in for missing ones.
    pub fn from_utf8(line: &str) -> (r: Self)
        ensures
            (r.method@, r.url@, r.http_version@) == request_line_parts(line@),
    {
        let cs = chars_of(line);
        Self::from_chars(cs.as_slice())
    }

    /// Whether requests of this method carry a body (POST, PUT, PATCH, in any case).
    pub fn has_body(&self) -> (r: bool)
        ensures
            r == body_method(uppercase_of(self.method@)),
    {
        let upper = to_uppercase(self.method.as_str());
        is_body_method(upper.as_str())
    }

    /// Whether the tunnel forwards requests of this method (GET, POST, in any case).
    pub fn is_supported(&self) -> (r: bool)
        ensures
            r == supported_method(uppercase_of(self.method@)),
    {
        let upper = to_uppercase(self.method.as_str());
        is_supported_method(upper.as_str())
    }
}

/// An HTTP request, with the headers that the tunnel looks at.
#[derive(Debug, Clone)]
pub struct HttpRequest {
    pub request_line: RequestLine,
    pub host: String,
    pub user_agent: String,
    pub accept: String,
    pub proxy_connection: String,
    pub data: Option<String>,
}

/// The index of the first line, from `i` on, that is not a header (has no
/// `": "` once trimmed); the number of lines when all are headers.
pub open spec fn header_end(ls: Seq<Seq<char>>, i: int) -> int
    decreases ls.len() - i,
{
    if i < 0 || i >= ls.len() {
        ls.len() as int
    } else if split_header_spec(trim(ls[i])).1 is None {
        i
    } else {
        header_end(ls, i + 1)
    }
}

/// The value of the last header named `name` among lines `from..to`.
pub open spec fn header_lookup(ls: Seq<Seq<char>>, from: int, to: int, name: Seq<char>) -> Option<Seq<char>>
    decreases to - from,
{
    if to <= from {
        None
    } else if split_header_spec(trim(ls[to - 1])).0 == name {
        split_header_spec(trim(ls[to - 1])).1
    } else {
        header_lookup(ls, from, to - 1, name)
    }
}

/// The body of a request: the lines after the one that ends the headers, joined.
pub open spec fn request_data(ls: Seq<Seq<char>>, k: int) -> Seq<char> {
    if k + 1 <= ls.len() {
        ls.subrange(k + 1, ls.len() as int).flatten()
    } else {
        Seq::empty()
    }
}

/// The value of the header `name` in a request with lines `ls`, or nothing.
pub open spec fn request_header(ls: Seq<Seq<char>>, name: Seq<char>) -> Seq<char> {
    header_lookup(ls, 1, header_end(ls, 1), name).unwrap_or(Seq::empty())
}

proof fn lemma_header_end_bounds(ls: Seq<Seq<char>>, i: int)
    requires
        0 <= i,
    ensures
        i <= header_end(ls, i) <= ls.len() || (i > ls.len() && header_end(ls, i) == ls.len()),
        header_end(ls, i) < ls.len() ==> split_header_spec(trim(ls[header_end(ls, i)])).1 is None,
    decreases ls.len() - i,
{
    if i < ls.len() && split_header_spec(trim(ls[i])).1 is Some {
        lemma_header_end_bounds(ls, i + 1);
    }
}

struct HeaderScan {
    host: Option<Vec<char>>,
    user_agent: Option<Vec<char>>,
    accept: Option<Vec<char>>,
    proxy_connection: Option<Vec<char>>,
}

spec fn opt_view(o: Option<Vec<char>>) -> Option<Seq<char>> {
    match o {
        Some(v) => Some(v@),
        None => None,
    }
}

fn opt_string(o: &Option<Vec<char>>) -> (r: String)
    ensures
        r@ == opt_view(*o).unwrap_or(Seq::empty()),
{
    match o {
        Some(v) => string_from_chars(v.as_slice()),
        None => String::new(),
    }
}

/// Whether `r` is what reading the text `text` gives (see [`HttpRequest::from_utf8`]).
pub open spec fn is_request_of(r: HttpRequest, text: Seq<char>) -> bool {
    let ls = lines(text);
    let k = header_end(ls, 1);
    &&& (r.request_line.method@, r.request_line.url@, r.request_line.http_version@)
        == request_line_parts(ls[0])
    &&& r.host@ == request_header(ls, "Host"@)
    &&& r.user_agent@ == request_header(ls, "User-Agent"@)
    &&& r.accept@ == request_header(ls, "Accept"@)
    &&& r.proxy_connection@ == request_header(ls, "Proxy-Connection"@)
    &&& (r.data is Some <==> body_method(uppercase_of(r.request_line.method@)))
    &&& r.data matches Some(d) ==> d@ == request_data(ls, k)
}

impl HttpRequest {
    /// Reads a request: the first line is the request line; the lines after
    /// it are headers up to the first line that is not one; for a method
    /// with a body, the lines after that one, joined, are the body.
    pub fn from_utf8(text: &str) -> (r: Self)
        requires
            text@.len() > 0,
        ensures
            is_request_of(r, text@),
    {
        let cs = chars_of(text);
        let ls = split_lines(cs.as_slice());
        let ghost lv = lines(text@);
        proof {
            lemma_lines_nonempty(text@, 0, Seq::empty());
            assert(char_vecs_view(ls@)[0] == ls@[0]@);
        }
        let first_line = RequestLine::from_chars(ls[0].as_slice());
        let n = ls.len();
        let mut scan = HeaderScan { host: None, user_agent: None, accept: None, proxy_connection: None };
        let mut i: usize = 1;
        let mut end: usize = n;
        proof {
            lemma_header_end_bounds(lv, 1);
        }
        while i < n
            invariant_except_break
                1 <= i <= n,
                end == n,
                n == lv.len(),
                lv == char_vecs_view(ls@),
                header_end(lv, i as int) == header_end(lv, 1),
                opt_view(scan.host) == header_lookup(lv, 1, i as int, "Host"@),
                opt_view(scan.user_agent) == header_lookup(lv, 1, i as int, "User-Agent"@),
                opt_view(scan.accept) == header_lookup(lv, 1, i as int, "Accept"@),
                opt_view(scan.proxy_connection) == header_lookup(lv, 1, i as int, "Proxy-Connection"@),
            ensures
                1 <= end <= n,
                end == header_end(lv, 1),
                opt_view(scan.host) == header_lookup(lv, 1, end as int, "Host"@),
                opt_view(scan.user_agent) == header_lookup(lv, 1, end as int, "User-Agent"@),
                opt_view(scan.accept) == header_lookup(lv, 1, end as int, "Accept"@),
                opt_view(scan.proxy_connection) == header_lookup(lv, 1, end as int, "Proxy-Connection"@),
            decreases n - i,
        {
            let line = &ls[i];
            assert(line@ == lv[i as int]);
            proof {
                reveal_strlit("Host");
                reveal_strlit("User-Agent");
                reveal_strlit("Accept");
                reveal_strlit("Proxy-Connection");
                assert("Host"@.len() == 4 && "User-Agent"@.len() == 10 && "Accept"@.len() == 6
                    && "Proxy-Connection"@.len() == 16);
            }
            let (a, b) = trim_bounds(line.as_slice());
            let trimmed = vstd::slice::slice_to_vec(vstd::slice::slice_subrange(line.as_slice(), a, b));
            let (name, value) = split_header(trimmed.as_slice());
            match value {
                None => {
                    end = i;
                    break;
                },
                Some(v) => {
                    if chars_eq_str(name.as_slice(), "Host") {
                        scan.host = Some(v);
                    } else if chars_eq_str(name.as_slice(), "User-Agent") {
                        scan.user_agent = Some(v);
                    } else if chars_eq_str(name.as_slice(), "Accept") {
                        scan.accept = Some(v);
                    } else if chars_eq_str(name.as_slice(), "Proxy-Connection") {
                        scan.proxy_connection = Some(v);
                    }
                },
            }
            i = i + 1;
        }
        let mut data: Option<String> = None;
        if first_line.has_body() {
            let mut buf: Vec<char> = Vec::new();
            let mut j: usize = if end < n { end + 1 } else { n };
            let ghost start = j as int;
            proof {
                assert(lv.subrange(start, start).flatten_alt() =~= Seq::<char>::empty());
            }
            while j < n
                invariant
                    0 <= start <= j <= n,
                    n == lv.len(),
                    lv == char_vecs_view(ls@),
                    buf@ == lv.subrange(start, j as int).flatten_alt(),
                decreases n - j,
            {
                let ghost before = buf@;
                let mut k: usize = 0;
                let line = &ls[j];
                while k < line.len()
                    invariant
                        k <= line@.len(),
                        buf@ == before + line@.take(k as int),
                    decreases line@.len() - k,
                {
                    buf.push(line[k]);
                    k = k + 1;
                    assert(buf@ =~= before + line@.take(k as int));
                }
                proof {
                    assert(line@.take(line@.len() as int) =~= line@);
                    let sub = lv.subrange(start, j + 1);
                    assert(sub.drop_last() =~= lv.subrange(start, j as int));
                    assert(sub.last() == lv[j as int]);
                    assert(sub.flatten_alt() == sub.drop_last().flatten_alt() + sub.last());
                }
                j = j + 1;
            }
            proof {
                lv.subrange(start, n as int).lemma_flatten_and_flatten_alt_are_equivalent();
                if !(end + 1 <= n) {
                    assert(lv.subrange(start, n as int) =~= Seq::<Seq<char>>::empty());
                }
            }
            data = Some(string_from_chars(buf.as_slice()));
        }
        HttpRequest {
            request_line: first_line,
            host: opt_string(&scan.host),
            user_agent: opt_string(&scan.user_agent),
            accept: opt_string(&scan.accept),
            proxy_connection: opt_string(&scan.proxy_connection),
            data,
        }
    }
}

} // verus!
