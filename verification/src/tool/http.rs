//! Parsing HTTP requests whose first line holds method, URL and version.

use vstd::prelude::*;
use crate::http::{body_method, supported_method, is_request_of, request_line_parts};
use crate::text::{lines, trim, uppercase_of, words};

verus! {

/// The first line of an HTTP request: method, URL and protocol version.
#[derive(Debug, Clone)]
pub struct RequestLine {
    pub method: String,
    pub url: String,
    pub http_version: String,
}

impl RequestLine {
    /// Reads a request line, which must hold at least three words: the
    /// method, the URL and the version.
    pub fn from_utf8(line: &str) -> (r: Self)
        requires
            words(trim(line@)).len() >= 3,
        ensures
            r.method@ == words(trim(line@))[0],
            r.url@ == words(trim(line@))[1],
            r.http_version@ == words(trim(line@))[2],
    {
        let l = crate::http::RequestLine::from_utf8(line);
        RequestLine { method: l.method, url: l.url, http_version: l.http_version }
    }

    /// Whether requests of this method carry a body (POST, PUT, PATCH, in any case).
    pub fn has_body(&self) -> (r: bool)
        ensures
            r == body_method(uppercase_of(self.method@)),
    {
        let upper = crate::text::to_uppercase(self.method.as_str());
        crate::http::is_body_method(upper.as_str())
    }

    /// Whether requests of this method are supported (GET, POST, in any case).
    pub fn is_supported(&self) -> (r: bool)
        ensures
            r == supported_method(uppercase_of(self.method@)),
    {
        let upper = crate::text::to_uppercase(self.method.as_str());
        crate::http::is_supported_method(upper.as_str())
    }
}

/// An HTTP request, with the headers that the tool looks at.
#[derive(Debug, Clone)]
pub struct HttpRequest {
    pub request_line: RequestLine,
    pub host: String,
    pub user_agent: String,
    pub accept: String,
    pub proxy_connection: String,
    pub data: Option<String>,
}

impl HttpRequest {
    /// Reads a request whose first line holds at least three words (see
    /// [`crate::http::HttpRequest::from_utf8`] for the rest).
    pub fn from_utf8(text: &str) -> (r: Self)
        requires
            text@.len() > 0,
            words(trim(lines(text@)[0])).len() >= 3,
        ensures
            is_request_of(
                crate::http::HttpRequest {
                    request_line: crate::http::RequestLine {
                        method: r.request_line.method,
                        url: r.request_line.url,
                        http_version: r.request_line.http_version,
                    },
                    host: r.host,
                    user_agent: r.user_agent,
                    accept: r.accept,
                    proxy_connection: r.proxy_connection,
                    data: r.data,
                },
                text@,
            ),
            r.request_line.method@ == words(trim(lines(text@)[0]))[0],
            r.request_line.url@ == words(trim(lines(text@)[0]))[1],
            r.request_line.http_version@ == words(trim(lines(text@)[0]))[2],
    {
        let q = crate::http::HttpRequest::from_utf8(text);
        let r = HttpRequest {
            request_line: RequestLine {
                method: q.request_line.method,
                url: q.request_line.url,
                http_version: q.request_line.http_version,
            },
            host: q.host,
            user_agent: q.user_agent,
            accept: q.accept,
            proxy_connection: q.proxy_connection,
            data: q.data,
        };
        r
    }
}

} // verus!
