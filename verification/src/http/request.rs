//! The request side: the method, the target, the protocol version and the
//! header fields of one request, each read from the request's text.

use crate::http::text::{
    ascii_whitespace, blank_line, colon, crlf, equals_in, is_first_match, is_token, is_token_at,
    lemma_tokens_are_runs, lemma_word_len_bound, space, split_in, split_once, to_chars, tokens,
    trim, trim_in, word_end, word_len,
};
use crate::http::response::{HttpResponse, PathEntry};
use vstd::hash_map::StringHashMap;
use vstd::prelude::*;

verus! {

/// The text that stands for `bytes` when they are decoded leniently: each
/// sequence that is no UTF-8 gives U+FFFD, the replacement character.
pub uninterp spec fn lossy_text(bytes: Seq<u8>) -> Seq<char>;

/// `String::from_utf8_lossy`, which decodes UTF-8 and puts U+FFFD in place of
/// what is none. Believed of it: that the text depends on the bytes alone,
/// and that bytes which are UTF-8 throughout are the encoding of the text.
#[verifier::external_body]
fn decode_lossy(buffer: &[u8]) -> (text: String)
    ensures
        text@ == lossy_text(buffer@),
        vstd::utf8::valid_utf8(buffer@) ==> vstd::utf8::encode_utf8(text@) == buffer@,
{
    String::from_utf8_lossy(buffer).into_owned()
}

/// The request line: what stands before the first line break. A text
/// without a line break has none.
pub open spec fn request_line(request: Seq<char>) -> Option<Seq<char>> {
    match split_once(request, crlf()) {
        Some((line, _)) => Some(line),
        None => None,
    }
}

/// The bounds of the request line within `text`.
fn request_line_end(text: &Vec<char>) -> (r: Option<usize>)
    ensures
        match r {
            Some(end) => end + 2 <= text.len() && split_once(text@, crlf()) == Some(
                (text@.subrange(0, end as int), text@.subrange(end + 2, text.len() as int)),
            ),
            None => split_once(text@, crlf()) is None,
        },
{
    let pat: Vec<char> = vec!['\r', '\n'];
    assert(pat@ =~= crlf());
    assert(text@.subrange(0, text.len() as int) =~= text@);
    match split_in(text, 0, text.len(), &pat) {
        Some((end, _)) => Some(end),
        None => None,
    }
}

/// The verb of a request.
#[derive(Debug, Clone, Copy, PartialEq, Eq, Structural)]
pub enum Method {
    Get,
    Post,
    /// No verb that the server knows.
    Uninitialised,
}

impl Method {
    /// The method that a verb names.
    pub open spec fn of_verb(verb: Seq<char>) -> Method {
        if verb == "GET"@ {
            Method::Get
        } else if verb == "POST"@ {
            Method::Post
        } else {
            Method::Uninitialised
        }
    }

    /// The verb of a request line: the text before its first whitespace
    /// character. Whitespace is ASCII whitespace here: space, tab, line feed,
    /// form feed and carriage return. A line without any has no verb.
    pub open spec fn verb_of(line: Seq<char>) -> Option<Seq<char>> {
        if word_len(line) < line.len() {
            Some(line.take(word_len(line) as int))
        } else {
            None
        }
    }

    /// The method of a request: that of the verb of its request line.
    pub open spec fn of_request(request: Seq<char>) -> Method {
        match request_line(request) {
            Some(line) => match Method::verb_of(line) {
                Some(verb) => Method::of_verb(verb),
                None => Method::Uninitialised,
            },
            None => Method::Uninitialised,
        }
    }

    /// Classifies the verb of `request`: the text before the first ASCII
    /// whitespace character of the request line. A request without a request
    /// line, or whose line holds no whitespace, has no known verb.
    pub fn new(request: &str) -> (m: Method)
        ensures
            m == Method::of_request(request@),
    {
        let text = to_chars(request);
        match request_line_end(&text) {
            Some(end) => {
                let at = word_end(&text, 0, end);
                assert(text@.subrange(0, end as int).take(at as int) =~= text@.subrange(
                    0,
                    at as int,
                ));
                if at < end {
                    Method::of_chars(&text, 0, at)
                } else {
                    Method::Uninitialised
                }
            },
            None => Method::Uninitialised,
        }
    }

    /// Classifies a verb: `GET` and `POST` are known, in upper case only.
    pub fn identify(s: &str) -> (m: Method)
        ensures
            m == Method::of_verb(s@),
    {
        let text = to_chars(s);
        assert(text@.subrange(0, text.len() as int) =~= text@);
        Method::of_chars(&text, 0, text.len())
    }

    fn of_chars(text: &Vec<char>, lo: usize, hi: usize) -> (m: Method)
        requires
            lo <= hi <= text.len(),
        ensures
            m == Method::of_verb(text@.subrange(lo as int, hi as int)),
    {
        let get = to_chars("GET");
        let post = to_chars("POST");
        if equals_in(text, lo, hi, &get) {
            Method::Get
        } else if equals_in(text, lo, hi, &post) {
            Method::Post
        } else {
            Method::Uninitialised
        }
    }
}


/// The protocol version of a request.
#[derive(Debug, Clone, Copy, PartialEq, Eq, Structural)]
pub enum Version {
    V1_1,
    V2_0,
}

/// Why a request has no protocol version.
#[derive(Debug)]
pub struct VersionError {
    msg: String,
}

impl View for VersionError {
    type V = Seq<char>;

    /// The diagnostic message.
    closed spec fn view(&self) -> Seq<char> {
        self.msg@
    }
}

impl VersionError {
    /// The diagnostic for a request without a version: a fixed phrase, then
    /// the request as it came.
    pub open spec fn message_for(request: Seq<char>) -> Seq<char> {
        "Unknown protocol version in "@ + request
    }

    fn unknown(request: &str) -> (e: VersionError)
        ensures
            e@ == VersionError::message_for(request@),
    {
        VersionError { msg: String::from_str("Unknown protocol version in ").concat(request) }
    }

    /// The diagnostic message.
    pub fn message(&self) -> (s: &str)
        ensures
            s@ == self@,
    {
        self.msg.as_str()
    }
}

impl Version {
    /// The token that names this version on the wire.
    pub open spec fn text(self) -> Seq<char> {
        match self {
            Version::V1_1 => "HTTP/1.1"@,
            Version::V2_0 => "HTTP/2"@,
        }
    }

    /// The version that a token names, if it names one.
    pub open spec fn of_token(token: Seq<char>) -> Option<Version> {
        if token == "HTTP/1.1"@ {
            Some(Version::V1_1)
        } else if token == "HTTP/2"@ || token == "HTTP/2.0"@ {
            Some(Version::V2_0)
        } else {
            None
        }
    }

    /// The version named by the first of `ts` that names one.
    pub open spec fn first_in(ts: Seq<Seq<char>>) -> Option<Version>
        decreases ts.len(),
    {
        if ts.len() == 0 {
            None
        } else {
            match Version::of_token(ts[0]) {
                Some(v) => Some(v),
                None => Version::first_in(ts.skip(1)),
            }
        }
    }

    /// Some token of `line` names a version: the line holds `HTTP/1.1`,
    /// `HTTP/2` or `HTTP/2.0` between whitespace or its ends, at any place.
    pub open spec fn named_in(line: Seq<char>) -> bool {
        exists|a: int, b: int| #[trigger]
            is_token_at(line, a, b) && Version::of_token(line.subrange(a, b)) is Some
    }

    /// The version of a request: the one named by the first token of the
    /// request line that names one.
    pub open spec fn of_request(request: Seq<char>) -> Option<Version> {
        match request_line(request) {
            Some(line) => Version::first_in(tokens(line)),
            None => None,
        }
    }

    /// `first_in` finds a version exactly where some token names one.
    pub proof fn lemma_first_in_some(ts: Seq<Seq<char>>)
        ensures
            Version::first_in(ts) is Some <==> exists|i: int|
                0 <= i < ts.len() && Version::of_token(#[trigger] ts[i]) is Some,
        decreases ts.len(),
    {
        if ts.len() > 0 {
            Version::lemma_first_in_some(ts.skip(1));
            if Version::of_token(ts[0]) is None {
                if Version::first_in(ts) is Some {
                    let i = choose|i: int|
                        0 <= i < ts.skip(1).len() && Version::of_token(#[trigger] ts.skip(1)[i]) is Some;
                    assert(Version::of_token(ts[i + 1]) is Some);
                }
                if exists|i: int| 0 <= i < ts.len() && Version::of_token(#[trigger] ts[i]) is Some {
                    let i = choose|i: int|
                        0 <= i < ts.len() && Version::of_token(#[trigger] ts[i]) is Some;
                    assert(Version::of_token(ts.skip(1)[i - 1]) is Some);
                }
            }
        }
    }

    /// A version is found among the tokens of a line exactly where the line
    /// names one.
    pub proof fn lemma_named_in(line: Seq<char>)
        ensures
            Version::first_in(tokens(line)) is Some <==> Version::named_in(line),
    {
        let ts = tokens(line);
        Version::lemma_first_in_some(ts);
        lemma_tokens_are_runs(line);
        if Version::first_in(ts) is Some {
            let i = choose|i: int| 0 <= i < ts.len() && Version::of_token(#[trigger] ts[i]) is Some;
            assert(is_token(line, ts[i]));
            let (a, b) = choose|a: int, b: int| #[trigger]
                is_token_at(line, a, b) && line.subrange(a, b) == ts[i];
            assert(is_token_at(line, a, b) && Version::of_token(line.subrange(a, b)) is Some);
        }
        if Version::named_in(line) {
            let (a, b) = choose|a: int, b: int| #[trigger]
                is_token_at(line, a, b) && Version::of_token(line.subrange(a, b)) is Some;
            assert(is_token_at(line, a, b));
            assert(ts.contains(line.subrange(a, b)));
            let i = choose|i: int| 0 <= i < ts.len() && ts[i] == line.subrange(a, b);
            assert(Version::of_token(ts[i]) is Some);
        }
    }

    /// Reads the protocol version of `request`.
    ///
    /// The request line is cut at ASCII whitespace; the first token that is
    /// `HTTP/1.1`, `HTTP/2` or `HTTP/2.0` decides, wherever it stands. The
    /// call succeeds exactly when the request has a request line and one of
    /// its tokens names a version; otherwise the error repeats the request.
    pub fn new(request: &str) -> (r: Result<Version, VersionError>)
        ensures
            match r {
                Ok(v) => Version::of_request(request@) == Some(v),
                Err(e) => Version::of_request(request@) is None && e@
                    == VersionError::message_for(request@),
            },
            r is Ok <==> (request_line(request@) matches Some(line) && Version::named_in(line)),
    {
        proof {
            if let Some(line) = request_line(request@) {
                Version::lemma_named_in(line);
            }
        }
        let text = to_chars(request);
        if let Some(end) = request_line_end(&text) {
            if let Some(v) = Version::first_in_chars(&text, 0, end) {
                return Ok(v);
            }
        }
        Err(VersionError::unknown(request))
    }

    /// The token that names this version on the wire.
    pub fn as_str(&self) -> (s: &'static str)
        ensures
            s@ == self.text(),
    {
        match self {
            Version::V1_1 => "HTTP/1.1",
            Version::V2_0 => "HTTP/2",
        }
    }

    fn first_in_chars(text: &Vec<char>, lo: usize, hi: usize) -> (r: Option<Version>)
        requires
            lo <= hi <= text.len(),
        ensures
            r == Version::first_in(tokens(text@.subrange(lo as int, hi as int))),
    {
        let v11 = to_chars("HTTP/1.1");
        let v2 = to_chars("HTTP/2");
        let v20 = to_chars("HTTP/2.0");
        let mut pos: usize = lo;
        while pos < hi
            invariant
                lo <= pos <= hi <= text.len(),
                v11@ == "HTTP/1.1"@,
                v2@ == "HTTP/2"@,
                v20@ == "HTTP/2.0"@,
                Version::first_in(tokens(text@.subrange(lo as int, hi as int)))
                    == Version::first_in(tokens(text@.subrange(pos as int, hi as int))),
            decreases hi - pos,
        {
            let ghost rest = text@.subrange(pos as int, hi as int);
            if ascii_whitespace(text[pos]) {
                proof {
                    assert(rest.skip(1) =~= text@.subrange(pos + 1, hi as int));
                }
                pos += 1;
            } else {
                let end = word_end(text, pos, hi);
                proof {
                    lemma_word_len_bound(rest);
                    assert(rest.take(end - pos) =~= text@.subrange(pos as int, end as int));
                    assert(rest.skip(end - pos) =~= text@.subrange(end as int, hi as int));
                    assert(tokens(rest)[0] == text@.subrange(pos as int, end as int));
                    assert(tokens(rest).skip(1) =~= tokens(text@.subrange(end as int, hi as int)));
                }
                if equals_in(text, pos, end, &v11) {
                    return Some(Version::V1_1);
                }
                if equals_in(text, pos, end, &v2) || equals_in(text, pos, end, &v20) {
                    return Some(Version::V2_0);
                }
                pos = end;
            }
        }
        None
    }
}

impl core::str::FromStr for Version {
    type Err = VersionError;

    /// Reads the protocol version of `request`, as `Version::new` does.
    fn from_str(request: &str) -> (r: Result<Version, VersionError>)
        ensures
            match r {
                Ok(v) => Version::of_request(request@) == Some(v),
                Err(e) => Version::of_request(request@) is None && e@
                    == VersionError::message_for(request@),
            },
    {
        Version::new(request)
    }
}

/// The target of a request, as a path below the server's root.
#[derive(Debug)]
pub struct Resource {
    pub path: String,
}

impl View for Resource {
    type V = Seq<char>;

    open spec fn view(&self) -> Seq<char> {
        self.path@
    }
}

impl Resource {
    /// `target` without one leading `/`, if it has one.
    pub open spec fn strip_separator(target: Seq<char>) -> Seq<char> {
        if target.len() > 0 && target[0] == '/' {
            target.skip(1)
        } else {
            target
        }
    }

    /// The path that a request asks for. The request line is cut at its
    /// first and at its second space. Where the text before the first is
    /// `GET` or `POST`, the path is the text between the two, less one
    /// leading `/`.
    pub open spec fn of_request(request: Seq<char>) -> Option<Seq<char>> {
        match request_line(request) {
            Some(line) => match split_once(line, space()) {
                Some((verb, rest)) => match split_once(rest, space()) {
                    Some((target, _)) => if Method::of_verb(verb) == Method::Uninitialised {
                        None
                    } else {
                        Some(Resource::strip_separator(target))
                    },
                    None => None,
                },
                None => None,
            },
            None => None,
        }
    }

    /// Reads the path that `request` asks for.
    ///
    /// There is none where the request has no request line, where the text
    /// before the first space of the line is neither `GET` nor `POST`, or
    /// where no space follows the target. Nothing but the one leading `/` is
    /// taken from the target: it is not decoded, and `..` stays in it.
    pub fn new(request: &str) -> (r: Option<Resource>)
        ensures
            match r {
                Some(resource) => Resource::of_request(request@) == Some(resource@),
                None => Resource::of_request(request@) is None,
            },
    {
        let text = to_chars(request);
        let end = match request_line_end(&text) {
            Some(end) => end,
            None => { return None; },
        };
        let sp: Vec<char> = vec![' '];
        assert(sp@ =~= space());
        let (verb_end, rest) = match split_in(&text, 0, end, &sp) {
            Some(cut) => cut,
            None => { return None; },
        };
        let (target_end, _) = match split_in(&text, rest, end, &sp) {
            Some(cut) => cut,
            None => { return None; },
        };
        match Method::of_chars(&text, 0, verb_end) {
            Method::Uninitialised => None,
            _ => {
                let start: usize = if rest < target_end && text[rest] == '/' {
                    rest + 1
                } else {
                    rest
                };
                proof {
                    let target = text@.subrange(rest as int, target_end as int);
                    assert(Resource::strip_separator(target) =~= text@.subrange(
                        start as int,
                        target_end as int,
                    ));
                }
                let path = request.substring_char(start, target_end).to_owned();
                Some(Resource { path })
            },
        }
    }
}


/// The first line of a header block, and what follows its line break. A block
/// without a line break is one line, with nothing after it.
pub open spec fn next_line(block: Seq<char>) -> (Seq<char>, Seq<char>) {
    match split_once(block, crlf()) {
        Some(parts) => parts,
        None => (block, Seq::empty()),
    }
}

/// The lines of a header block, up to its end or its first empty line.
pub open spec fn header_lines(block: Seq<char>) -> Seq<Seq<char>>
    decreases block.len(),
    via header_lines_decreases
{
    if block.len() == 0 || next_line(block).0.len() == 0 {
        Seq::empty()
    } else {
        seq![next_line(block).0] + header_lines(next_line(block).1)
    }
}

#[via_fn]
proof fn header_lines_decreases(block: Seq<char>) {
    if let Some(i) = crate::http::text::find(block, crlf()) {
        assert(is_first_match(block, crlf(), i));
    }
}

/// The name and the value of a header line: what stands before and after its
/// first colon, each without the whitespace around it.
pub open spec fn header_field(line: Seq<char>) -> Option<(Seq<char>, Seq<char>)> {
    match split_once(line, colon()) {
        Some((name, value)) => Some((trim(name), trim(value))),
        None => None,
    }
}

/// `acc` after the fields of `lines` were put into it in turn, a later one
/// replacing an earlier one of the same name; nothing if a line has no colon.
pub open spec fn collect_fields(lines: Seq<Seq<char>>, acc: Map<Seq<char>, Seq<char>>) -> Option<
    Map<Seq<char>, Seq<char>>,
>
    decreases lines.len(),
{
    if lines.len() == 0 {
        Some(acc)
    } else {
        match header_field(lines[0]) {
            Some((name, value)) => collect_fields(lines.skip(1), acc.insert(name, value)),
            None => None,
        }
    }
}

/// The values of `m` as character sequences.
pub open spec fn field_values(m: Map<Seq<char>, String>) -> Map<Seq<char>, Seq<char>> {
    Map::new(|name: Seq<char>| m.contains_key(name), |name: Seq<char>| m[name]@)
}

/// The header fields of a request, by name. Names keep their case.
pub struct HttpHeader {
    headers: StringHashMap<String>,
}

impl View for HttpHeader {
    type V = Map<Seq<char>, Seq<char>>;

    closed spec fn view(&self) -> Map<Seq<char>, Seq<char>> {
        field_values(self.headers@)
    }
}

impl HttpHeader {
    /// The header fields of a request: those of the lines after the request
    /// line.
    pub open spec fn of_request(request: Seq<char>) -> Option<Map<Seq<char>, Seq<char>>> {
        match split_once(request, crlf()) {
            Some((_, block)) => collect_fields(header_lines(block), Map::empty()),
            None => None,
        }
    }

    /// Reads the header fields of `request`.
    ///
    /// The lines after the request line are read up to the first empty one.
    /// Each is cut at its first colon into name and value, both trimmed; a
    /// later field replaces an earlier one of the same name. There are no
    /// fields at all where the request has no request line, or where one of
    /// the lines has no colon.
    pub fn new(request: &str) -> (r: Option<HttpHeader>)
        ensures
            match r {
                Some(header) => HttpHeader::of_request(request@) == Some(header@),
                None => HttpHeader::of_request(request@) is None,
            },
    {
        let text = to_chars(request);
        let n = text.len();
        let brk: Vec<char> = vec!['\r', '\n'];
        let col: Vec<char> = vec![':'];
        assert(brk@ =~= crlf());
        assert(col@ =~= colon());
        assert(text@.subrange(0, n as int) =~= text@);
        let start = match split_in(&text, 0, n, &brk) {
            Some((_, start)) => start,
            None => { return None; },
        };
        let ghost block = text@.subrange(start as int, n as int);
        let mut headers: StringHashMap<String> = StringHashMap::new();
        assert(field_values(headers@) =~= Map::empty());
        let mut pos: usize = start;
        while pos < n
            invariant
                start <= pos <= n == text.len(),
                text@ == request@,
                brk@ == crlf(),
                col@ == colon(),
                HttpHeader::of_request(request@) == collect_fields(
                    header_lines(text@.subrange(pos as int, n as int)),
                    field_values(headers@),
                ),
            decreases n - pos,
        {
            let ghost rest = text@.subrange(pos as int, n as int);
            let (end, next) = match split_in(&text, pos, n, &brk) {
                Some(cut) => cut,
                None => (n, n),
            };
            assert(next_line(rest) == (
                text@.subrange(pos as int, end as int),
                text@.subrange(next as int, n as int),
            ));
            if end == pos {
                return Some(HttpHeader { headers });
            }
            let ghost line = text@.subrange(pos as int, end as int);
            let ghost more = header_lines(text@.subrange(next as int, n as int));
            assert(header_lines(rest) == seq![line] + more);
            assert((seq![line] + more).skip(1) =~= more);
            let (name_end, value_start) = match split_in(&text, pos, end, &col) {
                Some(cut) => cut,
                None => { return None; },
            };
            let (a, b) = trim_in(&text, pos, name_end);
            let (c, d) = trim_in(&text, value_start, end);
            let name = request.substring_char(a, b).to_owned();
            let value = request.substring_char(c, d).to_owned();
            assert(header_field(line) == Some((name@, value@)));
            let ghost before = field_values(headers@);
            headers.insert(name, value);
            assert(field_values(headers@) =~= before.insert(name@, value@));
            pos = next;
        }
        assert(text@.subrange(pos as int, n as int) =~= Seq::<char>::empty());
        Some(HttpHeader { headers })
    }

    /// The value of the field `name`, if there is such a field.
    pub fn get(&self, name: &str) -> (r: Option<&String>)
        ensures
            match r {
                Some(value) => self@.contains_key(name@) && value@ == self@[name@],
                None => !self@.contains_key(name@),
            },
    {
        self.headers.get(name)
    }

    /// The number of fields.
    pub fn len(&self) -> (n: usize)
        ensures
            n == self@.len(),
    {
        assert(self@.dom() =~= self.headers@.dom());
        self.headers.len()
    }

    fn empty() -> (r: HttpHeader)
        ensures
            r@ == Map::<Seq<char>, Seq<char>>::empty(),
    {
        let headers: StringHashMap<String> = StringHashMap::new();
        assert(field_values(headers@) =~= Map::empty());
        HttpHeader { headers }
    }
}


/// A request: its parts, each read from the request's text.
pub struct HttpRequest {
    method: Method,
    pub resource: Resource,
    version: Version,
    headers: HttpHeader,
    pub request_body: String,
}

/// A request as plain values.
pub struct RequestModel {
    pub method: Method,
    /// The path that is asked for; empty where the request names none.
    pub path: Seq<char>,
    pub version: Version,
    /// The header fields by name; empty where the request's header block
    /// cannot be read.
    pub headers: Map<Seq<char>, Seq<char>>,
    pub body: Seq<char>,
}

impl View for HttpRequest {
    type V = RequestModel;

    closed spec fn view(&self) -> RequestModel {
        RequestModel {
            method: self.method,
            path: self.resource@,
            version: self.version,
            headers: self.headers@,
            body: self.request_body@,
        }
    }
}

/// The body of a request: what follows the first empty line, as it stands.
/// A request without an empty line has an empty body.
pub open spec fn body_of(request: Seq<char>) -> Seq<char> {
    match split_once(request, blank_line()) {
        Some((_, body)) => body,
        None => Seq::empty(),
    }
}

impl HttpRequest {
    /// The request that a text stands for. It has one exactly when it has a
    /// version; a target or header fields that cannot be read are empty.
    pub open spec fn of_request(request: Seq<char>) -> Option<RequestModel> {
        match Version::of_request(request) {
            Some(version) => Some(
                RequestModel {
                    method: Method::of_request(request),
                    path: match Resource::of_request(request) {
                        Some(path) => path,
                        None => Seq::empty(),
                    },
                    version,
                    headers: match HttpHeader::of_request(request) {
                        Some(fields) => fields,
                        None => Map::empty(),
                    },
                    body: body_of(request),
                },
            ),
            None => None,
        }
    }

    /// Reads a request from its text.
    ///
    /// Only a missing protocol version makes the call fail, with the error
    /// of `Version::new`. An unknown method is kept as such; a target that
    /// cannot be read gives the empty path, and a header block that cannot be
    /// read gives no fields.
    pub fn new(request: &str) -> (r: Result<HttpRequest, VersionError>)
        ensures
            match r {
                Ok(parsed) => HttpRequest::of_request(request@) == Some(parsed@),
                Err(e) => HttpRequest::of_request(request@) is None && e@
                    == VersionError::message_for(request@),
            },
            r is Ok <==> Version::of_request(request@) is Some,
    {
        let method = Method::new(request);
        let resource = match Resource::new(request) {
            Some(resource) => resource,
            None => Resource { path: String::new() },
        };
        let version = match Version::new(request) {
            Ok(version) => version,
            Err(e) => { return Err(e); },
        };
        let headers = match HttpHeader::new(request) {
            Some(headers) => headers,
            None => HttpHeader::empty(),
        };
        let text = to_chars(request);
        let sep: Vec<char> = vec!['\r', '\n', '\r', '\n'];
        assert(sep@ =~= blank_line());
        assert(text@.subrange(0, text.len() as int) =~= text@);
        let request_body = match split_in(&text, 0, text.len(), &sep) {
            Some((_, start)) => request.substring_char(start, text.len()).to_owned(),
            None => String::new(),
        };
        Ok(HttpRequest { method, resource, version, headers, request_body })
    }

    /// Reads a request from the bytes of a buffer, decoded leniently: what
    /// `new` reads from the text that stands for the bytes. Bytes that are
    /// UTF-8 throughout stand for the text that they encode.
    pub fn from_bytes(buffer: &[u8]) -> (r: Result<HttpRequest, VersionError>)
        ensures
            match r {
                Ok(parsed) => HttpRequest::of_request(lossy_text(buffer@)) == Some(parsed@),
                Err(e) => HttpRequest::of_request(lossy_text(buffer@)) is None && e@
                    == VersionError::message_for(lossy_text(buffer@)),
            },
            r is Ok <==> Version::of_request(lossy_text(buffer@)) is Some,
            vstd::utf8::valid_utf8(buffer@) ==> vstd::utf8::encode_utf8(lossy_text(buffer@))
                == buffer@,
    {
        let text = decode_lossy(buffer);
        HttpRequest::new(text.as_str())
    }

    /// Builds the response to this request, where the file system holds
    /// `entry` at `self.resource.path`.
    pub fn response(&self, entry: &PathEntry) -> (r: HttpResponse)
        ensures
            r@ == HttpResponse::of(self@.path, entry@),
    {
        HttpResponse::new(self, entry)
    }

    /// The method of the request.
    pub fn method(&self) -> (m: Method)
        ensures
            m == self@.method,
    {
        self.method
    }

    /// The path that the request asks for.
    pub fn resource(&self) -> (r: &Resource)
        ensures
            r@ == self@.path,
    {
        &self.resource
    }

    /// The body of the request.
    pub fn request_body(&self) -> (b: &str)
        ensures
            b@ == self@.body,
    {
        self.request_body.as_str()
    }

    /// The protocol version of the request.
    pub fn version(&self) -> (v: Version)
        ensures
            v == self@.version,
    {
        self.version
    }

    /// The header fields of the request.
    pub fn headers(&self) -> (h: &HttpHeader)
        ensures
            h@ == self@.headers,
    {
        &self.headers
    }
}

} // verus!
