//! The typed HTTP request and the message parser: a raw HTTP/1.1 message is
//! turned into an [`HttpRequest`] (method, path, query parameters, headers,
//! body) or a typed [`ParseRequestError`].

use vstd::prelude::*;

use crate::strutil::{
    eq_lower, find, first_occur, lower, spec_split, split_str, str_eq, trim_end_nul,
    trim_end_nuls, views,
};

verus! {

/// The ways a raw message can fail to parse. A parse never partially
/// succeeds: on any of these the whole call fails.
#[derive(Debug, Clone, Copy, PartialEq, Eq, Structural)]
pub enum ParseRequestError {
    InvalidRequest,
    ParseMethodError,
    ParseUriError,
    ParseParamsError,
    ParseHeadersError,
    ParseBodyError,
}

impl ParseRequestError {
    /// A human-readable description of the failure.
    pub fn message(&self) -> (r: &'static str)
        ensures
            *self is InvalidRequest ==> r@ == "ERROR: invalid request."@,
            *self is ParseMethodError ==> r@ == "ERROR: can't parse the method of the request."@,
            *self is ParseUriError ==> r@ == "ERROR: can't parse the uri of the request."@,
            *self is ParseParamsError ==> r@
                == "ERROR: can't parse the query parameters of the request."@,
            *self is ParseHeadersError ==> r@ == "ERROR: can't parse the headers of the request."@,
            *self is ParseBodyError ==> r@ == "ERROR: can't parse the body of the request."@,
    {
        match self {
            Self::InvalidRequest => "ERROR: invalid request.",
            Self::ParseMethodError => "ERROR: can't parse the method of the request.",
            Self::ParseUriError => "ERROR: can't parse the uri of the request.",
            Self::ParseParamsError => "ERROR: can't parse the query parameters of the request.",
            Self::ParseHeadersError => "ERROR: can't parse the headers of the request.",
            Self::ParseBodyError => "ERROR: can't parse the body of the request.",
        }
    }
}

/// The closed set of request methods. An unrecognized method token parses
/// as `GET`; that is a documented quirk, not an error.
#[derive(Debug, Clone, Copy, PartialEq, Eq, Structural)]
pub enum Method {
    GET,
    POST,
    PUT,
    PATCH,
    DELETE,
    HEAD,
    OPTIONS,
    CONNECT,
    TRACE,
}

/// The method a token denotes: the nine method names are recognized
/// case-insensitively, anything else defaults to `GET`.
pub open spec fn spec_method_of(t: Seq<char>) -> Method {
    let l = lower(t);
    if l == "post"@ {
        Method::POST
    } else if l == "put"@ {
        Method::PUT
    } else if l == "patch"@ {
        Method::PATCH
    } else if l == "delete"@ {
        Method::DELETE
    } else if l == "connect"@ {
        Method::CONNECT
    } else if l == "options"@ {
        Method::OPTIONS
    } else if l == "trace"@ {
        Method::TRACE
    } else if l == "head"@ {
        Method::HEAD
    } else {
        Method::GET
    }
}

impl Method {
    /// Map a method token to the closed enumeration, ignoring ASCII case.
    pub fn from_token(t: &str) -> (r: Method)
        ensures
            r == spec_method_of(t@),
    {
        if eq_lower(t, "post") {
            Method::POST
        } else if eq_lower(t, "put") {
            Method::PUT
        } else if eq_lower(t, "patch") {
            Method::PATCH
        } else if eq_lower(t, "delete") {
            Method::DELETE
        } else if eq_lower(t, "connect") {
            Method::CONNECT
        } else if eq_lower(t, "options") {
            Method::OPTIONS
        } else if eq_lower(t, "trace") {
            Method::TRACE
        } else if eq_lower(t, "head") {
            Method::HEAD
        } else {
            Method::GET
        }
    }
}

/// The views of a sequence of string pairs.
pub open spec fn pair_views(v: Seq<(String, String)>) -> Seq<(Seq<char>, Seq<char>)> {
    v.map_values(|p: (String, String)| (p.0@, p.1@))
}

/// The mapping an association list denotes: entries are added left to
/// right, so a later entry with the same key overwrites an earlier one.
pub open spec fn assoc_map(s: Seq<(Seq<char>, Seq<char>)>) -> Map<Seq<char>, Seq<char>>
    decreases s.len(),
{
    if s.len() == 0 {
        Map::empty()
    } else {
        assoc_map(s.drop_last()).insert(s.last().0, s.last().1)
    }
}

/// The abstract value of a request: what its parts denote, independent of
/// their in-memory representation.
#[verifier::ext_equal]
pub struct ReqV {
    pub method: Method,
    pub path: Seq<char>,
    pub params: Map<Seq<char>, Seq<char>>,
    pub headers: Map<Seq<char>, Seq<char>>,
    pub body: Seq<char>,
}

/// May `c` appear in a header name? The standard header-token characters:
/// letters, digits, and the token punctuation.
pub open spec fn valid_header_name_char(c: char) -> bool {
    (('a' as u32) <= (c as u32) && (c as u32) <= ('z' as u32)) || (('A' as u32) <= (c as u32) && (c
        as u32) <= ('Z' as u32)) || (('0' as u32) <= (c as u32) && (c as u32) <= ('9' as u32)) || c
        == '!' || c == '#' || c == '$' || c == '%' || c == '&' || c == '\'' || c == '*' || c == '+'
        || c == '-' || c == '.' || c == '^' || c == '_' || c == '`' || c == '|' || c == '~'
}

/// A header name is a non-empty run of header-token characters.
pub open spec fn valid_header_name(s: Seq<char>) -> bool {
    s.len() > 0 && forall|i: int| 0 <= i < s.len() ==> valid_header_name_char(#[trigger] s[i])
}

/// May `c` appear in a header value? Anything but the control characters:
/// tab, or any character other than DEL from space upward.
pub open spec fn valid_header_value_char(c: char) -> bool {
    c == '\t' || ((c as u32) >= 32 && (c as u32) != 127)
}

/// A header value is a (possibly empty) run of value characters.
pub open spec fn valid_header_value(s: Seq<char>) -> bool {
    forall|i: int| 0 <= i < s.len() ==> valid_header_value_char(#[trigger] s[i])
}

/// Path normalization: one trailing `/` is stripped, unless the path is
/// exactly `/`.
pub open spec fn normalize_path(p: Seq<char>) -> Seq<char> {
    if p.len() > 0 && p.last() == '/' && p != "/"@ {
        p.drop_last()
    } else {
        p
    }
}

/// The mapping a query string's `&`-separated pairs denote. Each pair is
/// split at its first `=`; a pair without `=` fails the whole parse.
pub open spec fn spec_parse_query(pairs: Seq<Seq<char>>) -> Result<
    Map<Seq<char>, Seq<char>>,
    ParseRequestError,
>
    decreases pairs.len(),
{
    if pairs.len() == 0 {
        Ok(Map::empty())
    } else {
        match spec_parse_query(pairs.drop_last()) {
            Err(e) => Err(e),
            Ok(m) => {
                let pair = pairs.last();
                match first_occur(pair, "="@) {
                    None => Err(ParseRequestError::ParseParamsError),
                    Some(j) => Ok(
                        m.insert(pair.subrange(0, j), pair.subrange(j + 1, pair.len() as int)),
                    ),
                }
            },
        }
    }
}

/// The mapping a run of header lines denotes. Each line is split at its
/// first `": "`; a line without one, or with a malformed name or value,
/// fails the whole parse.
pub open spec fn spec_parse_headers(hls: Seq<Seq<char>>) -> Result<
    Map<Seq<char>, Seq<char>>,
    ParseRequestError,
>
    decreases hls.len(),
{
    if hls.len() == 0 {
        Ok(Map::empty())
    } else {
        match spec_parse_headers(hls.drop_last()) {
            Err(e) => Err(e),
            Ok(m) => {
                let line = hls.last();
                match first_occur(line, ": "@) {
                    None => Err(ParseRequestError::ParseHeadersError),
                    Some(j) => {
                        let name = line.subrange(0, j);
                        let value = line.subrange(j + 2, line.len() as int);
                        if valid_header_name(name) && valid_header_value(value) {
                            Ok(m.insert(name, value))
                        } else {
                            Err(ParseRequestError::ParseHeadersError)
                        }
                    },
                }
            },
        }
    }
}

/// The lines before the first empty line: the header section of a message.
pub open spec fn take_until_empty(s: Seq<Seq<char>>) -> Seq<Seq<char>>
    decreases s.len(),
{
    if s.len() == 0 {
        Seq::empty()
    } else if s[0].len() == 0 {
        Seq::empty()
    } else {
        seq![s[0]] + take_until_empty(s.subrange(1, s.len() as int))
    }
}

/// What parsing a raw message yields: either the request it denotes or the
/// first failure, checking the cheap well-formedness test first, then the
/// request line, then the query, then the headers.
pub open spec fn spec_parse(raw: Seq<char>) -> Result<ReqV, ParseRequestError> {
    if first_occur(raw, "HTTP"@) is None {
        Err(ParseRequestError::InvalidRequest)
    } else {
        let lines = spec_split(raw, "\r\n"@);
        let tokens = spec_split(lines[0], " "@);
        if tokens[0].len() == 0 {
            Err(ParseRequestError::ParseMethodError)
        } else if tokens.len() < 2 {
            Err(ParseRequestError::ParseUriError)
        } else {
            let target = tokens[1];
            let path0 = match first_occur(target, "?"@) {
                None => target,
                Some(q) => target.subrange(0, q),
            };
            let params_res = match first_occur(target, "?"@) {
                None => Ok(Map::empty()),
                Some(q) => spec_parse_query(
                    spec_split(target.subrange(q + 1, target.len() as int), "&"@),
                ),
            };
            match params_res {
                Err(e) => Err(e),
                Ok(params) => match spec_parse_headers(
                    take_until_empty(lines.subrange(1, lines.len() as int)),
                ) {
                    Err(e) => Err(e),
                    Ok(headers) => Ok(
                        ReqV {
                            method: spec_method_of(tokens[0]),
                            path: normalize_path(path0),
                            params,
                            headers,
                            body: trim_end_nul(lines.last()),
                        },
                    ),
                },
            }
        }
    }
}

/// A failing prefix of the query pairs fails the whole query, with the
/// same error.
proof fn lemma_query_err_propagates(pairs: Seq<Seq<char>>, k: int)
    requires
        0 <= k <= pairs.len(),
        spec_parse_query(pairs.take(k)) is Err,
    ensures
        spec_parse_query(pairs) == spec_parse_query(pairs.take(k)),
    decreases pairs.len() - k,
{
    if k == pairs.len() {
        assert(pairs.take(k) =~= pairs);
    } else {
        assert(pairs.take(k + 1).drop_last() =~= pairs.take(k));
        lemma_query_err_propagates(pairs, k + 1);
    }
}

/// A failing prefix of the header lines fails the whole header section,
/// with the same error.
proof fn lemma_headers_err_propagates(hls: Seq<Seq<char>>, k: int)
    requires
        0 <= k <= hls.len(),
        spec_parse_headers(hls.take(k)) is Err,
    ensures
        spec_parse_headers(hls) == spec_parse_headers(hls.take(k)),
    decreases hls.len() - k,
{
    if k == hls.len() {
        assert(hls.take(k) =~= hls);
    } else {
        assert(hls.take(k + 1).drop_last() =~= hls.take(k));
        lemma_headers_err_propagates(hls, k + 1);
    }
}

/// While no line is empty, `take_until_empty` keeps every line.
proof fn lemma_tue_prefix(s: Seq<Seq<char>>, k: int)
    requires
        0 <= k <= s.len(),
        forall|j: int| 0 <= j < k ==> #[trigger] s[j].len() > 0,
    ensures
        take_until_empty(s) == s.subrange(0, k) + take_until_empty(s.subrange(k, s.len() as int)),
    decreases k,
{
    if k == 0 {
        assert(s.subrange(0, s.len() as int) =~= s);
        assert(s.subrange(0, 0) + take_until_empty(s) =~= take_until_empty(s));
    } else {
        let t = s.subrange(1, s.len() as int);
        lemma_tue_prefix(t, k - 1);
        assert(t.subrange(0, k - 1) =~= s.subrange(1, k));
        assert(t.subrange(k - 1, t.len() as int) =~= s.subrange(k, s.len() as int));
        assert(seq![s[0]] + (s.subrange(1, k) + take_until_empty(s.subrange(k, s.len() as int)))
            =~= s.subrange(0, k) + take_until_empty(s.subrange(k, s.len() as int)));
    }
}

/// A parsed request. Immutable once constructed; query parameters and
/// headers are kept as the list of pairs in the order they were read,
/// and denote the mapping in which a later pair with the same key wins.
#[derive(Debug, Clone, PartialEq)]
pub struct HttpRequest {
    pub method: Method,
    pub path: String,
    pub params: Vec<(String, String)>,
    pub headers: Vec<(String, String)>,
    pub body: String,
}

impl View for HttpRequest {
    type V = ReqV;

    open spec fn view(&self) -> ReqV {
        ReqV {
            method: self.method,
            path: self.path@,
            params: assoc_map(pair_views(self.params@)),
            headers: assoc_map(pair_views(self.headers@)),
            body: self.body@,
        }
    }
}

/// The canonical empty request: a bare `GET` with an empty path and no
/// parameters, headers or body.
pub open spec fn empty_request() -> ReqV {
    ReqV {
        method: Method::GET,
        path: Seq::empty(),
        params: Map::empty(),
        headers: Map::empty(),
        body: Seq::empty(),
    }
}

impl HttpRequest {
    /// The canonical empty request, used as a default value.
    pub fn new() -> (r: Self)
        ensures
            r@ == empty_request(),
            r.path@.len() == 0,
            r.params@.len() == 0,
            r.headers@.len() == 0,
            r.body@.len() == 0,
    {
        let r = HttpRequest {
            method: Method::GET,
            path: String::new(),
            params: Vec::new(),
            headers: Vec::new(),
            body: String::new(),
        };
        proof {
            assert(pair_views(r.params@) =~= Seq::empty());
            assert(pair_views(r.headers@) =~= Seq::empty());
            assert(r@ =~= empty_request());
        }
        r
    }

    /// Is this the canonical empty request?
    pub fn is_empty(&self) -> (r: bool)
        ensures
            r == (self.method == Method::GET && self.path@.len() == 0 && self.params@.len() == 0
                && self.headers@.len() == 0 && self.body@.len() == 0),
    {
        self.method == Method::GET && self.path.as_str().is_empty() && self.params.len() == 0
            && self.headers.len() == 0 && self.body.as_str().is_empty()
    }

    /// The file name a request path addresses: the path with its leading
    /// `/` stripped. The root path `/` and paths without a leading `/`
    /// address no file.
    pub fn static_file_name(&self) -> (r: Option<String>)
        ensures
            match r {
                Some(name) => self.path@.len() > 0 && self.path@[0] == '/' && self.path@ != "/"@
                    && name@ == self.path@.subrange(1, self.path@.len() as int),
                None => self.path@.len() == 0 || self.path@[0] != '/' || self.path@ == "/"@,
            },
    {
        let len = self.path.as_str().unicode_len();
        if len == 0 {
            return None;
        }
        if self.path.as_str().get_char(0) != '/' {
            return None;
        }
        if str_eq(self.path.as_str(), "/") {
            return None;
        }
        Some(self.path.as_str().substring_char(1, len).to_owned())
    }

    /// The value of a query parameter under the mapping the request
    /// denotes: the last pair read with this key wins.
    pub fn param(&self, key: &str) -> (r: Option<&String>)
        ensures
            match r {
                Some(v) => self@.params.contains_key(key@) && self@.params[key@] == v@,
                None => !self@.params.contains_key(key@),
            },
    {
        lookup_pair(&self.params, key)
    }

    /// The value of a header under the mapping the request denotes: the
    /// last header line read with this name wins.
    pub fn header(&self, name: &str) -> (r: Option<&String>)
        ensures
            match r {
                Some(v) => self@.headers.contains_key(name@) && self@.headers[name@] == v@,
                None => !self@.headers.contains_key(name@),
            },
    {
        lookup_pair(&self.headers, name)
    }

    /// Parse a raw HTTP/1.1 message. The result is exactly what the message
    /// denotes under [`spec_parse`]: on success the request, on failure the
    /// first error, and never anything in between.
    #[verifier::rlimit(50)]
    #[verifier::loop_isolation(false)]
    pub fn parse(raw: &str) -> (r: Result<HttpRequest, ParseRequestError>)
        ensures
            match r {
                Ok(req) => spec_parse(raw@) == Ok::<ReqV, ParseRequestError>(req@),
                Err(e) => spec_parse(raw@) == Err::<ReqV, ParseRequestError>(e),
            },
    {
        proof {
            reveal_strlit("HTTP");
            reveal_strlit("\r\n");
            reveal_strlit(" ");
            reveal_strlit("?");
            reveal_strlit("&");
            reveal_strlit("=");
            reveal_strlit(": ");
            reveal_strlit("/");
        }
        if find(raw, "HTTP").is_none() {
            return Err(ParseRequestError::InvalidRequest);
        }
        let lines = split_str(raw, "\r\n");
        let ghost line_vs = spec_split(raw@, "\r\n"@);
        assert(lines@.len() >= 1) by {
            assert(views(lines@).len() >= 1);
        }
        let tokens = split_str(lines[0].as_str(), " ");
        let ghost token_vs = spec_split(line_vs[0], " "@);
        assert(tokens@.len() >= 1) by {
            assert(views(tokens@).len() >= 1);
        }
        if tokens[0].as_str().is_empty() {
            return Err(ParseRequestError::ParseMethodError);
        }
        let method = Method::from_token(tokens[0].as_str());
        if tokens.len() < 2 {
            return Err(ParseRequestError::ParseUriError);
        }
        let target = &tokens[1];
        let target_len = target.as_str().unicode_len();

        let mut params: Vec<(String, String)> = Vec::new();
        let mut path_raw: String;
        match find(target.as_str(), "?") {
            None => {
                path_raw = target.clone();
            },
            Some(q) => {
                proof {
                    crate::strutil::lemma_first_occur_bound(target@, "?"@, q as int);
                }
                path_raw = target.as_str().substring_char(0, q).to_owned();
                let query = target.as_str().substring_char(q + 1, target_len);
                let pairs = split_str(query, "&");
                let ghost pair_vs = spec_split(query@, "&"@);
                let mut pi: usize = 0;
                while pi < pairs.len()
                    invariant
                        views(pairs@) == pair_vs,
                        0 <= pi <= pairs@.len(),
                        spec_parse_query(pair_vs.take(pi as int)) == Ok::<
                            Map<Seq<char>, Seq<char>>,
                            ParseRequestError,
                        >(assoc_map(pair_views(params@))),
                    decreases pairs@.len() - pi,
                {
                    proof {
                        reveal_strlit("=");
                    }
                    let pair = &pairs[pi];
                    let pair_len = pair.as_str().unicode_len();
                    let ghost prev_params = params@;
                    proof {
                        assert(pair_vs.take(pi + 1).drop_last() =~= pair_vs.take(pi as int));
                        assert(pair_vs.take(pi + 1).last() == pair@);
                    }
                    match find(pair.as_str(), "=") {
                        None => {
                            proof {
                                assert(spec_parse_query(pair_vs.take(pi + 1)) == Err::<
                                    Map<Seq<char>, Seq<char>>,
                                    ParseRequestError,
                                >(ParseRequestError::ParseParamsError));
                                lemma_query_err_propagates(pair_vs, pi + 1);
                            }
                            return Err(ParseRequestError::ParseParamsError);
                        },
                        Some(j) => {
                            proof {
                                crate::strutil::lemma_first_occur_bound(pair@, "="@, j as int);
                                reveal_strlit("=");
                            }
                            let key = pair.as_str().substring_char(0, j).to_owned();
                            let value = pair.as_str().substring_char(j + 1, pair_len).to_owned();
                            params.push((key, value));
                            proof {
                                assert(pair_views(params@).drop_last() =~= pair_views(
                                    prev_params,
                                ));
                                assert(pair_views(params@).last() == (pair@.subrange(
                                    0,
                                    j as int,
                                ), pair@.subrange(j + 1, pair@.len() as int)));
                            }
                            pi += 1;
                        },
                    }
                }
                proof {
                    assert(pair_vs.take(pairs@.len() as int) =~= pair_vs);
                }
            },
        }
        let ghost path0 = path_raw@;

        let path_len = path_raw.as_str().unicode_len();
        if path_len > 0 && !str_eq(path_raw.as_str(), "/") && path_raw.as_str().get_char(
            path_len - 1,
        ) == '/' {
            path_raw = path_raw.as_str().substring_char(0, path_len - 1).to_owned();
            proof {
                assert(path_raw@ =~= normalize_path(path0));
            }
        }
        assert(path_raw@ == normalize_path(path0));

        let ghost hls = take_until_empty(line_vs.subrange(1, line_vs.len() as int));
        let mut headers: Vec<(String, String)> = Vec::new();
        let mut i: usize = 1;
        let n_lines = lines.len();
        while i < n_lines && !lines[i].as_str().is_empty()
            invariant
                views(lines@) == line_vs,
                n_lines == lines@.len(),
                n_lines >= 1,
                1 <= i <= n_lines,
                hls == take_until_empty(line_vs.subrange(1, line_vs.len() as int)),
                forall|j: int| 1 <= j < i ==> #[trigger] line_vs[j].len() > 0,
                spec_parse_headers(line_vs.subrange(1, i as int)) == Ok::<
                    Map<Seq<char>, Seq<char>>,
                    ParseRequestError,
                >(assoc_map(pair_views(headers@))),
            decreases n_lines - i,
        {
            proof {
                reveal_strlit(": ");
            }
            let line = &lines[i];
            let line_len = line.as_str().unicode_len();
            let ghost prev_headers = headers@;
            let ghost done = line_vs.subrange(1, i as int);
            let ghost done1 = line_vs.subrange(1, i + 1);
            proof {
                assert(done1.drop_last() =~= done);
                assert(done1.last() == line@);
            }
            match find(line.as_str(), ": ") {
                None => {
                    proof {
                        assert(spec_parse_headers(done1) == Err::<
                            Map<Seq<char>, Seq<char>>,
                            ParseRequestError,
                        >(ParseRequestError::ParseHeadersError));
                        lemma_parse_fails_at_header(line_vs, i as int);
                    }
                    return Err(ParseRequestError::ParseHeadersError);
                },
                Some(j) => {
                    proof {
                        crate::strutil::lemma_first_occur_bound(line@, ": "@, j as int);
                        reveal_strlit(": ");
                    }
                    let name = line.as_str().substring_char(0, j);
                    let value = line.as_str().substring_char(j + 2, line_len);
                    if !is_valid_header_name(name) || !is_valid_header_value(value) {
                        proof {
                            assert(spec_parse_headers(done1) == Err::<
                                Map<Seq<char>, Seq<char>>,
                                ParseRequestError,
                            >(ParseRequestError::ParseHeadersError));
                            lemma_parse_fails_at_header(line_vs, i as int);
                        }
                        return Err(ParseRequestError::ParseHeadersError);
                    }
                    headers.push((name.to_owned(), value.to_owned()));
                    proof {
                        assert(pair_views(headers@).drop_last() =~= pair_views(prev_headers));
                        assert(pair_views(headers@).last() == (line@.subrange(0, j as int), line@
                            .subrange(j + 2, line@.len() as int)));
                    }
                    i += 1;
                },
            }
        }
        proof {
            let t = line_vs.subrange(1, line_vs.len() as int);
            lemma_tue_prefix(t, i - 1);
            assert(t.subrange(0, i - 1) =~= line_vs.subrange(1, i as int));
            if i < line_vs.len() {
                assert(t.subrange(i - 1, t.len() as int)[0].len() == 0);
                assert(take_until_empty(t.subrange(i - 1, t.len() as int)) =~= Seq::empty());
            } else {
                assert(t.subrange(i - 1, t.len() as int) =~= Seq::<Seq<char>>::empty());
            }
            assert(hls =~= line_vs.subrange(1, i as int));
        }

        let body = trim_end_nuls(lines[n_lines - 1].as_str());
        let req = HttpRequest { method, path: path_raw, params, headers, body };
        proof {
            assert(line_vs.last() == lines@[n_lines - 1]@);
            assert(spec_parse(raw@) == Ok::<ReqV, ParseRequestError>(req@)) by {
                let spec_r = spec_parse(raw@);
                assert(spec_r is Ok);
                assert(spec_r->Ok_0 =~= req@);
            }
        }
        Ok(req)
    }
}

/// A non-empty line without a well-formed header at position `i` (lines
/// `1..i` being well-formed headers) fails the whole header section.
proof fn lemma_parse_fails_at_header(line_vs: Seq<Seq<char>>, i: int)
    requires
        1 <= i < line_vs.len(),
        forall|j: int| 1 <= j < i ==> #[trigger] line_vs[j].len() > 0,
        line_vs[i].len() > 0,
        spec_parse_headers(line_vs.subrange(1, i + 1)) is Err,
    ensures
        spec_parse_headers(take_until_empty(line_vs.subrange(1, line_vs.len() as int)))
            == spec_parse_headers(line_vs.subrange(1, i + 1)),
{
    let t = line_vs.subrange(1, line_vs.len() as int);
    lemma_tue_prefix(t, i);
    let hls = take_until_empty(t);
    assert(t.subrange(0, i) =~= line_vs.subrange(1, i + 1));
    assert(hls.take(i) =~= line_vs.subrange(1, i + 1));
    lemma_headers_err_propagates(hls, i);
}

/// Law: normalization strips the trailing `/` from every path that ends
/// in one, except the root path `/`, which stays unchanged.
pub proof fn lemma_normalize_trailing_slash(p: Seq<char>)
    ensures
        p.len() > 0 && p.last() == '/' && p != "/"@ ==> normalize_path(p) == p.drop_last(),
        p == "/"@ ==> normalize_path(p) == p,
        !(p.len() > 0 && p.last() == '/') ==> normalize_path(p) == p,
{
}

/// Law: a well-formed request line `"<METHOD> <PATH> HTTP/1.1"` parses to
/// exactly that method and that path (normalized), with no parameters and
/// no headers. The tokens must be free of the separators: no spaces or
/// carriage returns, and no `?` in the path.
pub proof fn lemma_parse_request_line(m: Seq<char>, p: Seq<char>)
    requires
        m.len() > 0,
        !m.contains(' '),
        !m.contains('\r'),
        !p.contains(' '),
        !p.contains('\r'),
        !p.contains('?'),
    ensures
        ({
            let raw = m + " "@ + p + " HTTP/1.1"@;
            spec_parse(raw) matches Ok(req) && req.method == spec_method_of(m) && req.path
                == normalize_path(p) && req.params == Map::<Seq<char>, Seq<char>>::empty()
                && req.headers == Map::<Seq<char>, Seq<char>>::empty() && req.body == trim_end_nul(
                raw,
            )
        }),
{
    reveal_strlit("?");
    assert("?"@ =~= seq!['?']);
    crate::strutil::lemma_first_occur_absent(p, "?"@);
    lemma_parse_request_target(m, p, p, Map::<Seq<char>, Seq<char>>::empty());
}

/// Law: a well-formed request line `"<METHOD> <PATH>?<K>=<V> HTTP/1.1"`
/// parses to exactly that method, that path (normalized), and the one
/// query pair `K := V`. The tokens must be free of the separators that
/// carry the line's structure: no spaces or carriage returns anywhere, no
/// `?` in the path, no `&` in the pair, and no `=` in the key.
pub proof fn lemma_parse_request_line_with_query(
    m: Seq<char>,
    p: Seq<char>,
    k: Seq<char>,
    v: Seq<char>,
)
    requires
        m.len() > 0,
        !m.contains(' '),
        !m.contains('\r'),
        !p.contains(' '),
        !p.contains('\r'),
        !p.contains('?'),
        !k.contains(' '),
        !k.contains('\r'),
        !k.contains('='),
        !k.contains('&'),
        !v.contains(' '),
        !v.contains('\r'),
        !v.contains('&'),
    ensures
        ({
            let raw = m + " "@ + p + "?"@ + k + "="@ + v + " HTTP/1.1"@;
            spec_parse(raw) matches Ok(req) && req.method == spec_method_of(m) && req.path
                == normalize_path(p) && req.params == Map::<Seq<char>, Seq<char>>::empty().insert(
                k,
                v,
            ) && req.headers == Map::<Seq<char>, Seq<char>>::empty() && req.body == trim_end_nul(
                raw,
            )
        }),
{
    proof_parse_target_with_query(p, k, v);
    let target = p + "?"@ + k + "="@ + v;
    reveal_strlit("?");
    reveal_strlit("=");
    assert forall|j: int| 0 <= j < target.len() implies target[j] != ' ' by {}
    assert forall|j: int| 0 <= j < target.len() implies target[j] != '\r' by {}
    assert(!target.contains(' '));
    assert(!target.contains('\r'));
    lemma_parse_request_target(
        m,
        target,
        p,
        Map::<Seq<char>, Seq<char>>::empty().insert(k, v),
    );
    assert(m + " "@ + p + "?"@ + k + "="@ + v + " HTTP/1.1"@ =~= m + " "@ + target
        + " HTTP/1.1"@);
}

/// Law: a complete message `"<METHOD> <PATH> HTTP/1.1\r\n\r\n"` parses to
/// exactly that method and that path (normalized), with no parameters, no
/// headers and an empty body. The tokens must be free of the separators:
/// no spaces or carriage returns, and no `?` in the path.
pub proof fn lemma_parse_terminated_request_line(m: Seq<char>, p: Seq<char>)
    requires
        m.len() > 0,
        !m.contains(' '),
        !m.contains('\r'),
        !p.contains(' '),
        !p.contains('\r'),
        !p.contains('?'),
    ensures
        ({
            let raw = m + " "@ + p + " HTTP/1.1\r\n\r\n"@;
            spec_parse(raw) matches Ok(req) && req.method == spec_method_of(m) && req.path
                == normalize_path(p) && req.params == Map::<Seq<char>, Seq<char>>::empty()
                && req.headers == Map::<Seq<char>, Seq<char>>::empty() && req.body == Seq::<
                char,
            >::empty()
        }),
{
    reveal_strlit("?");
    assert("?"@ =~= seq!['?']);
    crate::strutil::lemma_first_occur_absent(p, "?"@);
    lemma_parse_terminated_target(m, p, p, Map::<Seq<char>, Seq<char>>::empty());
}

/// Law: a complete message `"<METHOD> <PATH>?<K>=<V> HTTP/1.1\r\n\r\n"`
/// parses to exactly that method, that path (normalized), the one query
/// pair `K := V`, no headers, and an empty body. The tokens must be free
/// of the separators that carry the message's structure: no spaces or
/// carriage returns anywhere, no `?` in the path, no `&` in the pair, and
/// no `=` in the key.
pub proof fn lemma_parse_terminated_request_line_with_query(
    m: Seq<char>,
    p: Seq<char>,
    k: Seq<char>,
    v: Seq<char>,
)
    requires
        m.len() > 0,
        !m.contains(' '),
        !m.contains('\r'),
        !p.contains(' '),
        !p.contains('\r'),
        !p.contains('?'),
        !k.contains(' '),
        !k.contains('\r'),
        !k.contains('='),
        !k.contains('&'),
        !v.contains(' '),
        !v.contains('\r'),
        !v.contains('&'),
    ensures
        ({
            let raw = m + " "@ + p + "?"@ + k + "="@ + v + " HTTP/1.1\r\n\r\n"@;
            spec_parse(raw) matches Ok(req) && req.method == spec_method_of(m) && req.path
                == normalize_path(p) && req.params == Map::<Seq<char>, Seq<char>>::empty().insert(
                k,
                v,
            ) && req.headers == Map::<Seq<char>, Seq<char>>::empty() && req.body == Seq::<
                char,
            >::empty()
        }),
{
    proof_parse_target_with_query(p, k, v);
    let target = p + "?"@ + k + "="@ + v;
    reveal_strlit("?");
    reveal_strlit("=");
    assert forall|j: int| 0 <= j < target.len() implies target[j] != ' ' by {}
    assert forall|j: int| 0 <= j < target.len() implies target[j] != '\r' by {}
    assert(!target.contains(' '));
    assert(!target.contains('\r'));
    lemma_parse_terminated_target(
        m,
        target,
        p,
        Map::<Seq<char>, Seq<char>>::empty().insert(k, v),
    );
    assert(m + " "@ + p + "?"@ + k + "="@ + v + " HTTP/1.1\r\n\r\n"@ =~= m + " "@ + target
        + " HTTP/1.1\r\n\r\n"@);
}

/// The target `<PATH>?<K>=<V>` splits into that path and that one pair.
proof fn proof_parse_target_with_query(p: Seq<char>, k: Seq<char>, v: Seq<char>)
    requires
        !p.contains('?'),
        !k.contains('='),
        !k.contains('&'),
        !v.contains('&'),
    ensures
        ({
            let target = p + "?"@ + k + "="@ + v;
            first_occur(target, "?"@) == Some(p.len() as int) && target.subrange(
                0,
                p.len() as int,
            ) == p && spec_parse_query(
                spec_split(target.subrange(p.len() as int + 1, target.len() as int), "&"@),
            ) == Ok::<Map<Seq<char>, Seq<char>>, ParseRequestError>(
                Map::<Seq<char>, Seq<char>>::empty().insert(k, v),
            )
        }),
{
    reveal_strlit("?");
    reveal_strlit("&");
    reveal_strlit("=");
    let target = p + "?"@ + k + "="@ + v;
    let query = k + "="@ + v;
    assert("?"@ =~= seq!['?']);
    assert("&"@ =~= seq!['&']);
    assert("="@ =~= seq!['=']);
    assert(target =~= p + seq!['?'] + query);
    crate::strutil::lemma_first_occur_concat_single(p, query, '?');
    assert(target.subrange(0, p.len() as int) =~= p);
    assert(target.subrange(p.len() as int + 1, target.len() as int) =~= query);

    assert(!query.contains('&'));
    crate::strutil::lemma_first_occur_absent(query, "&"@);
    crate::strutil::lemma_split_whole(query, "&"@);
    let pairs = spec_split(query, "&"@);
    assert(pairs =~= seq![query]);
    assert(pairs.drop_last() =~= Seq::<Seq<char>>::empty());
    assert(spec_parse_query(Seq::<Seq<char>>::empty()) == Ok::<
        Map<Seq<char>, Seq<char>>,
        ParseRequestError,
    >(Map::empty()));
    assert(spec_parse_query(pairs.drop_last()) == Ok::<
        Map<Seq<char>, Seq<char>>,
        ParseRequestError,
    >(Map::empty()));
    assert(query =~= k + seq!['='] + v);
    crate::strutil::lemma_first_occur_concat_single(k, v, '=');
    assert(query.subrange(0, k.len() as int) =~= k);
    assert(query.subrange(k.len() as int + 1, query.len() as int) =~= v);
    assert(spec_parse_query(pairs) == Ok::<Map<Seq<char>, Seq<char>>, ParseRequestError>(
        Map::<Seq<char>, Seq<char>>::empty().insert(k, v),
    ));
}

/// A one-line message `"<METHOD> <TARGET> HTTP/1.1"` parses to that
/// method, the path the target carries (normalized), and the parameters
/// the target's query denotes.
#[verifier::rlimit(60)]
proof fn lemma_parse_request_target(
    m: Seq<char>,
    target: Seq<char>,
    p: Seq<char>,
    params: Map<Seq<char>, Seq<char>>,
)
    requires
        m.len() > 0,
        !m.contains(' '),
        !m.contains('\r'),
        !target.contains(' '),
        !target.contains('\r'),
        match first_occur(target, "?"@) {
            None => p == target && params == Map::<Seq<char>, Seq<char>>::empty(),
            Some(q) => p == target.subrange(0, q) && spec_parse_query(
                spec_split(target.subrange(q + 1, target.len() as int), "&"@),
            ) == Ok::<Map<Seq<char>, Seq<char>>, ParseRequestError>(params),
        },
    ensures
        ({
            let raw = m + " "@ + target + " HTTP/1.1"@;
            spec_parse(raw) matches Ok(req) && req.method == spec_method_of(m) && req.path
                == normalize_path(p) && req.params == params && req.headers == Map::<
                Seq<char>,
                Seq<char>,
            >::empty() && req.body == trim_end_nul(raw)
        }),
{
    reveal_strlit(" ");
    reveal_strlit(" HTTP/1.1");
    reveal_strlit("HTTP/1.1");
    reveal_strlit("HTTP");
    reveal_strlit("\r\n");
    let raw = m + " "@ + target + " HTTP/1.1"@;
    let sp = seq![' '];
    assert(" "@ =~= sp);
    let tail = "HTTP/1.1"@;

    // the buffer holds the literal token "HTTP"
    let h = m.len() as int + 1 + target.len() as int + 1;
    assert(raw.subrange(h, h + 4) =~= "HTTP"@);
    crate::strutil::lemma_first_occur_iff(raw, "HTTP"@);
    assert(crate::strutil::occurs_at(raw, "HTTP"@, h));
    assert(first_occur(raw, "HTTP"@) is Some);

    // one line: no carriage return anywhere
    assert forall|j: int| 0 <= j < raw.len() implies raw[j] != '\r' by {}
    assert(!raw.contains('\r'));
    crate::strutil::lemma_first_occur_absent(raw, "\r\n"@);
    crate::strutil::lemma_split_whole(raw, "\r\n"@);
    let lines = spec_split(raw, "\r\n"@);
    assert(lines =~= seq![raw]);

    // the request line splits into exactly method, target, version
    assert(raw =~= m + sp + (target + sp + tail));
    crate::strutil::lemma_split_concat_single(m, target + sp + tail, ' ');
    crate::strutil::lemma_split_concat_single(target, tail, ' ');
    assert(!tail.contains(' '));
    crate::strutil::lemma_first_occur_absent(tail, sp);
    crate::strutil::lemma_split_whole(tail, sp);
    let tokens = spec_split(raw, sp);
    assert(tokens =~= seq![m] + (seq![target] + seq![tail]));
    assert(tokens.len() == 3);
    assert(tokens[0] == m);
    assert(tokens[1] == target);

    // no header lines, and the body is the whole single line
    assert(lines.subrange(1, 1) =~= Seq::<Seq<char>>::empty());
    assert(take_until_empty(lines.subrange(1, 1)) =~= Seq::<Seq<char>>::empty());
    assert(spec_parse_headers(Seq::empty()) == Ok::<Map<Seq<char>, Seq<char>>, ParseRequestError>(
        Map::empty(),
    ));
    assert(lines.last() == raw);

    let r = spec_parse(raw);
    assert(r is Ok);
    let req = r->Ok_0;
    assert(req.method == spec_method_of(m));
    assert(req.path == normalize_path(p));
    assert(req.params == params);
    assert(req.headers == Map::<Seq<char>, Seq<char>>::empty());
    assert(req.body == trim_end_nul(raw));
}

/// A complete one-line message `"<METHOD> <TARGET> HTTP/1.1"`, terminated
/// by CRLF and an empty line, parses to that method, the path the target
/// carries (normalized), the parameters the target's query denotes, no
/// headers, and an empty body.
#[verifier::rlimit(60)]
proof fn lemma_parse_terminated_target(
    m: Seq<char>,
    target: Seq<char>,
    p: Seq<char>,
    params: Map<Seq<char>, Seq<char>>,
)
    requires
        m.len() > 0,
        !m.contains(' '),
        !m.contains('\r'),
        !target.contains(' '),
        !target.contains('\r'),
        match first_occur(target, "?"@) {
            None => p == target && params == Map::<Seq<char>, Seq<char>>::empty(),
            Some(q) => p == target.subrange(0, q) && spec_parse_query(
                spec_split(target.subrange(q + 1, target.len() as int), "&"@),
            ) == Ok::<Map<Seq<char>, Seq<char>>, ParseRequestError>(params),
        },
    ensures
        ({
            let raw = m + " "@ + target + " HTTP/1.1\r\n\r\n"@;
            spec_parse(raw) matches Ok(req) && req.method == spec_method_of(m) && req.path
                == normalize_path(p) && req.params == params && req.headers == Map::<
                Seq<char>,
                Seq<char>,
            >::empty() && req.body == Seq::<char>::empty()
        }),
{
    reveal_strlit(" ");
    reveal_strlit(" HTTP/1.1\r\n\r\n");
    reveal_strlit(" HTTP/1.1");
    reveal_strlit("HTTP/1.1");
    reveal_strlit("HTTP");
    reveal_strlit("\r\n");
    let raw = m + " "@ + target + " HTTP/1.1\r\n\r\n"@;
    let sp = seq![' '];
    assert(" "@ =~= sp);
    let tail = "HTTP/1.1"@;
    let crlf = "\r\n"@;
    let line = m + " "@ + target + " HTTP/1.1"@;
    assert(raw =~= line + crlf + crlf);

    // the buffer holds the literal token "HTTP"
    let h = m.len() as int + 1 + target.len() as int + 1;
    assert(raw.subrange(h, h + 4) =~= "HTTP"@);
    crate::strutil::lemma_first_occur_iff(raw, "HTTP"@);
    assert(crate::strutil::occurs_at(raw, "HTTP"@, h));
    assert(first_occur(raw, "HTTP"@) is Some);

    // the message splits into the request line and two empty lines
    assert forall|j: int| 0 <= j < line.len() implies line[j] != '\r' by {}
    assert(!line.contains('\r'));
    crate::strutil::lemma_split_concat(line, crlf, crlf);
    let empty = Seq::<char>::empty();
    assert(crlf =~= empty + crlf + empty);
    assert(!empty.contains('\r'));
    crate::strutil::lemma_split_concat(empty, empty, crlf);
    crate::strutil::lemma_first_occur_absent(empty, crlf);
    crate::strutil::lemma_split_whole(empty, crlf);
    let lines = spec_split(raw, crlf);
    assert(lines =~= seq![line] + (seq![empty] + seq![empty]));
    assert(lines.len() == 3);
    assert(lines[0] == line);

    // the request line splits into exactly method, target, version
    assert(line =~= m + sp + (target + sp + tail));
    crate::strutil::lemma_split_concat_single(m, target + sp + tail, ' ');
    crate::strutil::lemma_split_concat_single(target, tail, ' ');
    assert(!tail.contains(' '));
    crate::strutil::lemma_first_occur_absent(tail, sp);
    crate::strutil::lemma_split_whole(tail, sp);
    let tokens = spec_split(line, sp);
    assert(tokens =~= seq![m] + (seq![target] + seq![tail]));
    assert(tokens.len() == 3);
    assert(tokens[0] == m);
    assert(tokens[1] == target);

    // the first empty line ends the headers, and the body is the last
    // (empty) line
    assert(lines.subrange(1, 3) =~= seq![empty, empty]);
    assert(take_until_empty(lines.subrange(1, 3)) =~= Seq::<Seq<char>>::empty());
    assert(spec_parse_headers(Seq::empty()) == Ok::<Map<Seq<char>, Seq<char>>, ParseRequestError>(
        Map::empty(),
    ));
    assert(lines.last() == empty);
    assert(trim_end_nul(empty) == empty);

    let r = spec_parse(raw);
    assert(r is Ok);
    let req = r->Ok_0;
    assert(req.method == spec_method_of(m));
    assert(req.path == normalize_path(p));
    assert(req.params == params);
    assert(req.headers == Map::<Seq<char>, Seq<char>>::empty());
    assert(req.body == empty);
}

/// A pair matching a key, with no later pair matching it, decides the
/// lookup in the mapping an association list denotes.
proof fn lemma_assoc_map_hit(s: Seq<(Seq<char>, Seq<char>)>, k: Seq<char>, i: int)
    requires
        0 <= i < s.len(),
        s[i].0 == k,
        forall|j: int| i < j < s.len() ==> (#[trigger] s[j]).0 != k,
    ensures
        assoc_map(s).contains_key(k),
        assoc_map(s)[k] == s[i].1,
    decreases s.len(),
{
    if i == s.len() - 1 {
    } else {
        lemma_assoc_map_hit(s.drop_last(), k, i);
    }
}

/// A key no pair carries is not in the mapping.
proof fn lemma_assoc_map_miss(s: Seq<(Seq<char>, Seq<char>)>, k: Seq<char>)
    requires
        forall|j: int| 0 <= j < s.len() ==> (#[trigger] s[j]).0 != k,
    ensures
        !assoc_map(s).contains_key(k),
    decreases s.len(),
{
    if s.len() > 0 {
        lemma_assoc_map_miss(s.drop_last(), k);
    }
}

/// Look a key up in an association list, the last matching pair winning.
#[verifier::loop_isolation(false)]
fn lookup_pair<'a>(pairs: &'a Vec<(String, String)>, key: &str) -> (r: Option<&'a String>)
    ensures
        match r {
            Some(v) => assoc_map(pair_views(pairs@)).contains_key(key@) && assoc_map(
                pair_views(pairs@),
            )[key@] == v@,
            None => !assoc_map(pair_views(pairs@)).contains_key(key@),
        },
{
    let mut i = pairs.len();
    while i > 0
        invariant
            0 <= i <= pairs@.len(),
            forall|j: int|
                i <= j < pairs@.len() ==> (#[trigger] pair_views(pairs@)[j]).0 != key@,
        decreases i,
    {
        i -= 1;
        if str_eq(pairs[i].0.as_str(), key) {
            proof {
                lemma_assoc_map_hit(pair_views(pairs@), key@, i as int);
            }
            return Some(&pairs[i].1);
        }
    }
    proof {
        lemma_assoc_map_miss(pair_views(pairs@), key@);
    }
    None
}

/// Check a header name for the standard token syntax.
fn is_valid_header_name(s: &str) -> (r: bool)
    ensures
        r == valid_header_name(s@),
{
    let len = s.unicode_len();
    if len == 0 {
        return false;
    }
    let mut i: usize = 0;
    while i < len
        invariant
            len == s@.len(),
            0 <= i <= len,
            forall|t: int| 0 <= t < i ==> valid_header_name_char(#[trigger] s@[t]),
        decreases len - i,
    {
        let c = s.get_char(i);
        let u = c as u32;
        let ok = (97 <= u && u <= 122) || (65 <= u && u <= 90) || (48 <= u && u <= 57) || c == '!'
            || c == '#' || c == '$' || c == '%' || c == '&' || c == '\'' || c == '*' || c == '+'
            || c == '-' || c == '.' || c == '^' || c == '_' || c == '`' || c == '|' || c == '~';
        if !ok {
            return false;
        }
        i += 1;
    }
    true
}

/// Check a header value for the standard syntax.
fn is_valid_header_value(s: &str) -> (r: bool)
    ensures
        r == valid_header_value(s@),
{
    let len = s.unicode_len();
    let mut i: usize = 0;
    while i < len
        invariant
            len == s@.len(),
            0 <= i <= len,
            forall|t: int| 0 <= t < i ==> valid_header_value_char(#[trigger] s@[t]),
        decreases len - i,
    {
        let c = s.get_char(i);
        let u = c as u32;
        if !(c == '\t' || (u >= 32 && u != 127)) {
            return false;
        }
        i += 1;
    }
    true
}

} // verus!
