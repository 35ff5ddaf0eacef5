//! The typed HTTP response, its staged builder, the convenience
//! constructors, and serialization into HTTP/1.1 wire form.

use vstd::prelude::*;

use crate::request::{pair_views, HttpRequest};
use crate::strutil::{dec_chars, find, first_occur, str_eq, usize_to_dec};

verus! {

broadcast use vstd::slice::axiom_spec_len;

/// The byte length of a text: the length of its UTF-8 encoding, which is
/// what a `content-length` header counts.
pub open spec fn byte_len(s: Seq<char>) -> nat {
    vstd::utf8::encode_utf8(s).len()
}

/// The canonical reason phrase the `http` crate associates with a status
/// code, if any; a fixed table keyed by the numeric code alone.
pub uninterp spec fn reason_of(code: u16) -> Option<Seq<char>>;

/// The view of an optional string slice.
pub open spec fn opt_str_view(r: Option<&str>) -> Option<Seq<char>> {
    match r {
        Some(s) => Some(s@),
        None => None,
    }
}

/// Relies on `http::StatusCode::from_u16` and
/// `http::StatusCode::canonical_reason`: the reason phrase is a fixed
/// table keyed by the numeric code alone, with the listed entries for the
/// codes this crate builds itself.
#[verifier::external_body]
fn status_reason(code: u16) -> (r: Option<&'static str>)
    ensures
        opt_str_view(r) == reason_of(code),
        code == 200 ==> opt_str_view(r) == Some("OK"@),
        code == 308 ==> opt_str_view(r) == Some("Permanent Redirect"@),
        code == 400 ==> opt_str_view(r) == Some("Bad Request"@),
        code == 404 ==> opt_str_view(r) == Some("Not Found"@),
{
    match http::StatusCode::from_u16(code) {
        Ok(s) => s.canonical_reason(),
        Err(_) => None,
    }
}

/// The canonical reason phrase for a status code, if the fixed table has
/// one. Restates what the underlying lookup returns, so that callers can
/// prove concrete status lines, such as `200` serializing with `OK`.
pub fn reason_phrase(code: u16) -> (r: Option<&'static str>)
    ensures
        opt_str_view(r) == reason_of(code),
        code == 200 ==> opt_str_view(r) == Some("OK"@),
        code == 308 ==> opt_str_view(r) == Some("Permanent Redirect"@),
        code == 400 ==> opt_str_view(r) == Some("Bad Request"@),
        code == 404 ==> opt_str_view(r) == Some("Not Found"@),
{
    status_reason(code)
}

/// The abstract value of a response: status code, header pairs in
/// serialization order, and body text.
#[verifier::ext_equal]
pub struct RespV {
    pub status: u16,
    pub headers: Seq<(Seq<char>, Seq<char>)>,
    pub body: Seq<char>,
}

/// A finished response. Headers keep their insertion order, which fixes
/// the serialized byte order.
pub struct HttpResponse {
    pub status_code: u16,
    pub headers: Vec<(String, String)>,
    pub body: String,
}

impl View for HttpResponse {
    type V = RespV;

    open spec fn view(&self) -> RespV {
        RespV { status: self.status_code, headers: pair_views(self.headers@), body: self.body@ }
    }
}

/// A response under staged construction: status first, then headers one at
/// a time, then optionally a body, then [`HttpResponseBuilder::build`].
pub struct HttpResponseBuilder {
    status_code: u16,
    headers: Vec<(String, String)>,
    body: String,
}

impl View for HttpResponseBuilder {
    type V = RespV;

    closed spec fn view(&self) -> RespV {
        RespV { status: self.status_code, headers: pair_views(self.headers@), body: self.body@ }
    }
}

/// The response `json` builds: status 200, a JSON content type, the byte
/// length of the body, and the body unchanged.
pub open spec fn spec_json(body: Seq<char>) -> RespV {
    RespV {
        status: 200,
        headers: seq![
            ("content-type"@, "application/json"@),
            ("content-length"@, dec_chars(byte_len(body) as int)),
        ],
        body,
    }
}

/// The response `render` builds from a template text: status 200, an HTML
/// content type, the byte length of the text, and the text as the body.
pub open spec fn spec_render(template: Seq<char>) -> RespV {
    RespV {
        status: 200,
        headers: seq![
            ("content-type"@, "text/html"@),
            ("content-length"@, dec_chars(byte_len(template) as int)),
        ],
        body: template,
    }
}

/// The response `redirect` builds: status 308 (permanent redirect), a
/// `Location` header naming the target, and an empty body.
pub open spec fn spec_redirect(to: Seq<char>) -> RespV {
    RespV { status: 308, headers: seq![("Location"@, to)], body: Seq::empty() }
}

/// The response `bad_request` builds: a fixed 400 with an empty body.
pub open spec fn spec_bad_request() -> RespV {
    RespV {
        status: 400,
        headers: seq![("content-type"@, "text/html"@), ("content-length"@, "0"@)],
        body: Seq::empty(),
    }
}

/// The content type inferred from a path: decided by the text after the
/// first `.`, defaulting to plain text.
pub open spec fn content_type_of(path: Seq<char>) -> Seq<char> {
    match first_occur(path, "."@) {
        None => "text/plain"@,
        Some(i) => {
            let ext = path.subrange(i + 1, path.len() as int);
            if ext == "html"@ {
                "text/html"@
            } else if ext == "css"@ {
                "text/css"@
            } else if ext == "js"@ {
                "text/javascript"@
            } else if ext == "jpeg"@ {
                "image/jpeg"@
            } else if ext == "jpg"@ {
                "image/jpg"@
            } else if ext == "png"@ {
                "image/png"@
            } else {
                "text/plain"@
            }
        },
    }
}

/// The response served for a static file: with the file's text, a 200
/// carrying it under the inferred content type; without it, a fixed 404
/// with an empty body.
pub open spec fn spec_static_response(path: Seq<char>, contents: Option<Seq<char>>) -> RespV {
    match contents {
        Some(file) => RespV {
            status: 200,
            headers: seq![
                ("content-length"@, dec_chars(byte_len(file) as int)),
                ("content-type"@, content_type_of(path)),
            ],
            body: file,
        },
        None => RespV {
            status: 404,
            headers: seq![("content-length"@, "0"@), ("content-type"@, "text/plain"@)],
            body: Seq::empty(),
        },
    }
}

/// The reason phrase written on the status line: the canonical one, or a
/// fixed placeholder for a code without one.
pub open spec fn reason_text(code: u16) -> Seq<char> {
    match reason_of(code) {
        Some(s) => s,
        None => "<unknown status code>"@,
    }
}

/// The header section of the wire form: each pair as `name: value` with a
/// trailing CRLF, in order.
pub open spec fn header_lines_text(hs: Seq<(Seq<char>, Seq<char>)>) -> Seq<char>
    decreases hs.len(),
{
    if hs.len() == 0 {
        Seq::empty()
    } else {
        header_lines_text(hs.drop_last()) + hs.last().0 + ": "@ + hs.last().1 + "\r\n"@
    }
}

/// The HTTP/1.1 wire form of a response: status line, header lines in
/// insertion order, a blank line, then the body.
pub open spec fn spec_serialize(r: RespV) -> Seq<char> {
    "HTTP/1.1 "@ + dec_chars(r.status as int) + " "@ + reason_text(r.status) + "\r\n"@
        + header_lines_text(r.headers) + "\r\n"@ + r.body
}

impl HttpResponse {
    /// Start building a response with the given status code.
    pub fn new(code: u16) -> (b: HttpResponseBuilder)
        ensures
            b@.status == code,
            b@.headers == Seq::<(Seq<char>, Seq<char>)>::empty(),
            b@.body == Seq::<char>::empty(),
    {
        let b = HttpResponseBuilder { status_code: code, headers: Vec::new(), body: String::new() };
        proof {
            assert(pair_views(b.headers@) =~= Seq::empty());
        }
        b
    }

    /// A 200 response carrying a rendered template text as HTML.
    pub fn render(template: String) -> (r: HttpResponse)
        ensures
            r@ == spec_render(template@),
    {
        let len = template.as_str().as_bytes().len();
        let len_str = usize_to_dec(len);
        let r = HttpResponse::new(200).header("content-type", "text/html").header(
            "content-length",
            len_str.as_str(),
        ).body(template).build();
        proof {
            assert(r@ =~= spec_render(r.body@));
        }
        r
    }

    /// A 200 response carrying a JSON body.
    pub fn json(body: String) -> (r: HttpResponse)
        ensures
            r@ == spec_json(body@),
    {
        let len = body.as_str().as_bytes().len();
        let len_str = usize_to_dec(len);
        let r = HttpResponse::new(200).header("content-type", "application/json").header(
            "content-length",
            len_str.as_str(),
        ).body(body).build();
        proof {
            assert(r@ =~= spec_json(r.body@));
        }
        r
    }

    /// A 308 permanent redirect to the given target, with an empty body.
    pub fn redirect(to: &str) -> (r: HttpResponse)
        ensures
            r@ == spec_redirect(to@),
    {
        let r = HttpResponse::new(308).header("Location", to).build();
        proof {
            assert(r@ =~= spec_redirect(to@));
        }
        r
    }

    /// The fixed 400 response for a message that failed to parse.
    pub fn bad_request() -> (r: HttpResponse)
        ensures
            r@ == spec_bad_request(),
    {
        let r = HttpResponse::new(400).header("content-type", "text/html").header(
            "content-length",
            "0",
        ).body(String::new()).build();
        proof {
            assert(r@ =~= spec_bad_request());
        }
        r
    }

    /// Serve a static file: the request's path decides the content type,
    /// and `contents` is the file text if it could be read. A file that
    /// could not be read degrades to a fixed 404, never to an error.
    pub fn serve_static_file(req: &HttpRequest, contents: Option<String>) -> (r: HttpResponse)
        ensures
            r@ == spec_static_response(req.path@, match contents {
                Some(file) => Some(file@),
                None => None,
            }),
    {
        proof {
            reveal_strlit(".");
        }
        match contents {
            Some(file) => {
                let len = file.as_str().as_bytes().len();
                let len_str = usize_to_dec(len);
                let content_type = content_type_str(req.path.as_str());
                let r = HttpResponse::new(200).header("content-length", len_str.as_str()).header(
                    "content-type",
                    content_type,
                ).body(file).build();
                proof {
                    assert(r@ =~= spec_static_response(req.path@, Some(r.body@)));
                }
                r
            },
            None => {
                let r = HttpResponse::new(404).header("content-length", "0").header(
                    "content-type",
                    "text/plain",
                ).body(String::new()).build();
                proof {
                    assert(r@ =~= spec_static_response(req.path@, None));
                }
                r
            },
        }
    }

    /// An equal copy of this response.
    #[verifier::loop_isolation(false)]
    pub fn duplicate(&self) -> (r: HttpResponse)
        ensures
            r@ == self@,
    {
        let mut headers: Vec<(String, String)> = Vec::new();
        let n = self.headers.len();
        proof {
            assert(pair_views(headers@) =~= pair_views(self.headers@).take(0));
        }
        let mut i: usize = 0;
        while i < n
            invariant
                0 <= i <= n,
                pair_views(headers@) == pair_views(self.headers@).take(i as int),
            decreases n - i,
        {
            headers.push((self.headers[i].0.clone(), self.headers[i].1.clone()));
            proof {
                assert(pair_views(headers@) =~= pair_views(self.headers@).take(i + 1));
            }
            i += 1;
        }
        let r = HttpResponse { status_code: self.status_code, headers, body: self.body.clone() };
        proof {
            assert(pair_views(self.headers@).take(n as int) =~= pair_views(self.headers@));
            assert(r@ =~= self@);
        }
        r
    }

    /// Serialize into HTTP/1.1 wire form.
    #[verifier::loop_isolation(false)]
    pub fn serialize(&self) -> (out: String)
        ensures
            out@ == spec_serialize(self@),
    {
        let mut out = String::new();
        out.append("HTTP/1.1 ");
        let code_str = usize_to_dec(self.status_code as usize);
        out.append(code_str.as_str());
        out.append(" ");
        match reason_phrase(self.status_code) {
            Some(s) => out.append(s),
            None => out.append("<unknown status code>"),
        }
        out.append("\r\n");
        let ghost status_part = out@;
        let mut i: usize = 0;
        let n = self.headers.len();
        while i < n
            invariant
                0 <= i <= n,
                n == self.headers@.len(),
                out@ == status_part + header_lines_text(pair_views(self.headers@).take(i as int)),
            decreases n - i,
        {
            let ghost prev = pair_views(self.headers@).take(i as int);
            out.append(self.headers[i].0.as_str());
            out.append(": ");
            out.append(self.headers[i].1.as_str());
            out.append("\r\n");
            proof {
                let cur = pair_views(self.headers@).take(i + 1);
                assert(cur.drop_last() =~= prev);
                assert(out@ =~= status_part + header_lines_text(cur));
            }
            i += 1;
        }
        out.append("\r\n");
        out.append(self.body.as_str());
        proof {
            assert(pair_views(self.headers@).take(n as int) =~= pair_views(self.headers@));
            assert(out@ =~= spec_serialize(self@));
        }
        out
    }
}

/// The content type for a path, decided by the text after its first `.`.
fn content_type_str(path: &str) -> (r: &'static str)
    ensures
        r@ == content_type_of(path@),
{
    proof {
        reveal_strlit(".");
    }
    let len = path.unicode_len();
    match find(path, ".") {
        None => "text/plain",
        Some(i) => {
            proof {
                crate::strutil::lemma_first_occur_bound(path@, "."@, i as int);
            }
            let ext = path.substring_char(i + 1, len);
            if str_eq(ext, "html") {
                "text/html"
            } else if str_eq(ext, "css") {
                "text/css"
            } else if str_eq(ext, "js") {
                "text/javascript"
            } else if str_eq(ext, "jpeg") {
                "image/jpeg"
            } else if str_eq(ext, "jpg") {
                "image/jpg"
            } else if str_eq(ext, "png") {
                "image/png"
            } else {
                "text/plain"
            }
        },
    }
}

impl HttpResponseBuilder {
    /// Append one header. Headers keep their insertion order; appending a
    /// name twice keeps both occurrences.
    pub fn header(self, name: &str, value: &str) -> (b: HttpResponseBuilder)
        ensures
            b@.status == self@.status,
            b@.headers == self@.headers.push((name@, value@)),
            b@.body == self@.body,
    {
        let mut this = self;
        let ghost prev = pair_views(this.headers@);
        this.headers.push((name.to_owned(), value.to_owned()));
        proof {
            assert(pair_views(this.headers@) =~= prev.push((name@, value@)));
        }
        this
    }

    /// Set the body.
    pub fn body(self, body: String) -> (b: HttpResponseBuilder)
        ensures
            b@.status == self@.status,
            b@.headers == self@.headers,
            b@.body == body@,
    {
        let mut this = self;
        this.body = body;
        this
    }

    /// Finish: the response with exactly the accumulated parts.
    pub fn build(self) -> (r: HttpResponse)
        ensures
            r@ == self@,
    {
        let r = HttpResponse {
            status_code: self.status_code,
            headers: self.headers,
            body: self.body,
        };
        proof {
            assert(r@ =~= self@);
        }
        r
    }
}

} // verus!
