//! The request: its parts, and how each is read out of the raw text.

use crate::escape::{
    lemma_percent_decoded_text_plain, percent_decoded_text, url_decode, url_decoded,
};
use crate::http::response::{response, HttpResponse, Target};
use crate::text::{
    chars_of, cut, first_line, is_ascii_whitespace, is_word, leading_count, lemma_split_once,
    lemma_trim_within, lemma_word_end, lines_before_blank, next_word, same, split_once, trim,
    trimmed, without_leading,
};
use vstd::hash_map::StringHashMap;
use vstd::prelude::*;
use vstd::slice::slice_subrange;
use vstd::string::*;

verus! {

/// The first line of a request: what comes before the first `"\r\n"`.
pub open spec fn request_line(request: Seq<char>) -> Option<Seq<char>> {
    match split_once(request, "\r\n"@) {
        Some((line, _)) => Some(line),
        None => None,
    }
}

/// The protocol version of a request.
#[derive(Debug, Clone, Copy, PartialEq, Eq, Structural)]
pub enum Version {
    V1_1,
    V2_0,
}

/// The word `line[i..j]` names a version.
pub open spec fn version_word(line: Seq<char>, i: int, j: int) -> bool {
    is_word(line, i, j) && Version::of_token(line.subrange(i, j)) is Some
}

/// `line[i..j]` is the first word of `line` that names a version.
pub open spec fn first_version_word(line: Seq<char>, i: int, j: int) -> bool {
    version_word(line, i, j) && forall|a: int, b: int| version_word(line, a, b) ==> i <= a
}

/// A request without a version that the server knows.
#[derive(Debug)]
pub struct VersionError {
    msg: String,
}

impl View for VersionError {
    type V = Seq<char>;

    /// What the error says.
    closed spec fn view(&self) -> Seq<char> {
        self.msg@
    }
}

impl VersionError {
    /// What the error says of a request in which no version was found.
    pub open spec fn unknown(request: Seq<char>) -> Seq<char> {
        "Unknown protocol version in "@ + request
    }

    /// What the error says.
    pub fn message(&self) -> (r: &str)
        ensures
            r@ == self@,
    {
        self.msg.as_str()
    }
}

impl Version {
    /// The text that stands for the version in a status line.
    pub open spec fn text(self) -> Seq<char> {
        match self {
            Version::V1_1 => "HTTP/1.1"@,
            Version::V2_0 => "HTTP/2"@,
        }
    }

    /// The version that the word `token` names, if it names one.
    pub open spec fn of_token(token: Seq<char>) -> Option<Version> {
        if token == "HTTP/1.1"@ {
            Some(Version::V1_1)
        } else if token == "HTTP/2"@ || token == "HTTP/2.0"@ {
            Some(Version::V2_0)
        } else {
            None
        }
    }

    /// The version that the first word of `line` names that names one.
    pub open spec fn in_line(line: Seq<char>) -> Option<Version> {
        if exists|i: int, j: int| first_version_word(line, i, j) {
            let (i, j) = choose|i: int, j: int| first_version_word(line, i, j);
            Version::of_token(line.subrange(i, j))
        } else {
            None
        }
    }

    /// The version of a request: the one that its first line holds.
    pub open spec fn of_request(request: Seq<char>) -> Option<Version> {
        match request_line(request) {
            Some(line) => Version::in_line(line),
            None => None,
        }
    }

    /// The text that stands for the version in a status line.
    pub fn as_str(&self) -> (r: &'static str)
        ensures
            r@ == self.text(),
    {
        match self {
            Version::V1_1 => "HTTP/1.1",
            Version::V2_0 => "HTTP/2",
        }
    }

    /// The version that the word `token` names, if it names one.
    pub fn from_token(token: &[char]) -> (r: Option<Version>)
        ensures
            r == Version::of_token(token@),
    {
        let v1_1 = chars_of("HTTP/1.1");
        let v2 = chars_of("HTTP/2");
        let v2_0 = chars_of("HTTP/2.0");
        if same(token, v1_1.as_slice()) {
            Some(Version::V1_1)
        } else if same(token, v2.as_slice()) || same(token, v2_0.as_slice()) {
            Some(Version::V2_0)
        } else {
            None
        }
    }

    /// Reads the words of `line` from the left, up to the first that names a
    /// version.
    pub fn scan_line(line: &[char]) -> (r: Option<Version>)
        ensures
            r == Version::in_line(line@),
    {
        let n: usize = line.len();
        let mut pos: usize = 0;
        loop
            invariant
                n == line@.len(),
                pos <= n,
                pos == 0 || pos == n || is_ascii_whitespace(line@[pos as int]),
                forall|a: int, b: int| #[trigger]
                    is_word(line@, a, b) && a < pos ==> b <= pos && Version::of_token(
                        line@.subrange(a, b),
                    ) is None,
            decreases n - pos,
        {
            match next_word(line, pos) {
                None => {
                    proof {
                        assert forall|a: int, b: int| !version_word(line@, a, b) by {
                            if version_word(line@, a, b) {
                                assert(!is_ascii_whitespace(line@[a]));
                            }
                        }
                    }
                    return None;
                },
                Some((i, j)) => {
                    let found = Version::from_token(slice_subrange(line, i, j));
                    proof {
                        assert forall|a: int, b: int| #[trigger]
                            is_word(line@, a, b) && pos <= a < j implies a == i && b == j by {
                            assert(!is_ascii_whitespace(line@[a]));
                            if a > i {
                                assert(!is_ascii_whitespace(line@[a - 1]));
                            }
                            lemma_word_end(line@, i as int, j as int, b);
                        }
                    }
                    if found.is_some() {
                        proof {
                            lemma_first_version_word(line@, i as int, j as int);
                        }
                        return found;
                    }
                    pos = j;
                },
            }
        }
    }

    /// Reads the version of a request: the first word of its first line that
    /// is one of `HTTP/1.1`, `HTTP/2` and `HTTP/2.0`. Where the request has no
    /// line that ends in `"\r\n"`, or no such word in the first, the error
    /// holds the request.
    pub fn new(request: &str) -> (r: Result<Version, VersionError>)
        ensures
            match r {
                Ok(v) => Version::of_request(request@) == Some(v),
                Err(e) => Version::of_request(request@) is None && e@ == VersionError::unknown(
                    request@,
                ),
            },
    {
        let chars = chars_of(request);
        let crlf = chars_of("\r\n");
        assert(chars@.subrange(0, chars@.len() as int) =~= chars@);
        let found = match cut(chars.as_slice(), 0, chars.len(), crlf.as_slice()) {
            Some((end, _)) => Version::scan_line(slice_subrange(chars.as_slice(), 0, end)),
            None => None,
        };
        match found {
            Some(v) => Ok(v),
            None => {
                let mut msg = String::from_str("Unknown protocol version in ");
                msg.append(request);
                Err(VersionError { msg })
            },
        }
    }
}

impl std::str::FromStr for Version {
    type Err = VersionError;

    /// Reads the version of a request, as `Version::new` does.
    fn from_str(request: &str) -> (r: Result<Self, Self::Err>)
        ensures
            match r {
                Ok(v) => Version::of_request(request@) == Some(v),
                Err(e) => Version::of_request(request@) is None && e@ == VersionError::unknown(
                    request@,
                ),
            },
    {
        Version::new(request)
    }
}

/// The first word that names a version is the one that `Version::in_line`
/// reads.
pub proof fn lemma_first_version_word(line: Seq<char>, i: int, j: int)
    requires
        first_version_word(line, i, j),
    ensures
        Version::in_line(line) == Version::of_token(line.subrange(i, j)),
{
    let (a, b) = choose|a: int, b: int| first_version_word(line, a, b);
    assert(first_version_word(line, a, b));
    assert(version_word(line, a, b));
    assert(a == i);
    lemma_word_end(line, i, j, b);
}

/// A line with a word that names a version has a first such word, so that
/// `Version::in_line` reads a version from it.
pub proof fn lemma_version_word(line: Seq<char>, i: int, j: int)
    requires
        version_word(line, i, j),
    ensures
        Version::in_line(line) is Some,
    decreases i,
{
    if exists|a: int, b: int| version_word(line, a, b) && a < i {
        let (a, b) = choose|a: int, b: int| version_word(line, a, b) && a < i;
        lemma_version_word(line, a, b);
    } else {
        assert(first_version_word(line, i, j));
        lemma_first_version_word(line, i, j);
    }
}

/// The three words that name a version, and no others, are read as one; the
/// text of the version read is `HTTP/1.1` for the first and `HTTP/2` for the
/// other two; and that text names the same version again.
pub proof fn lemma_version_round_trip(token: Seq<char>)
    ensures
        Version::of_token(token) is Some <==> token == "HTTP/1.1"@ || token == "HTTP/2"@ || token
            == "HTTP/2.0"@,
        Version::of_token(token) matches Some(v) ==> {
            &&& v.text() == (if token == "HTTP/1.1"@ {
                "HTTP/1.1"@
            } else {
                "HTTP/2"@
            })
            &&& Version::of_token(v.text()) == Some(v)
        },
{
    reveal_strlit("HTTP/1.1");
    reveal_strlit("HTTP/2");
    reveal_strlit("HTTP/2.0");
    assert("HTTP/1.1"@.len() == 8 && "HTTP/2"@.len() == 6);
    assert("HTTP/1.1"@[5] == '1' && "HTTP/2.0"@[5] == '2');
}

/// A request holds a version exactly when it has a first line and a word of
/// that line names a version; the version is then the one that the first such
/// word names.
pub proof fn lemma_version_of_request(request: Seq<char>)
    ensures
        Version::of_request(request) is Some <==> request_line(request) is Some && exists|
            i: int,
            j: int,
        | version_word(request_line(request).unwrap(), i, j),
        Version::of_request(request) matches Some(v) ==> exists|i: int, j: int|
            #![trigger first_version_word(request_line(request).unwrap(), i, j)]
            first_version_word(request_line(request).unwrap(), i, j) && Version::of_token(
                request_line(request).unwrap().subrange(i, j),
            ) == Some(v),
{
    match request_line(request) {
        Some(line) => {
            match Version::in_line(line) {
                Some(v) => {
                    let (i, j) = choose|i: int, j: int| first_version_word(line, i, j);
                    assert(first_version_word(line, i, j));
                    assert(version_word(line, i, j));
                },
                None => {
                    assert forall|i: int, j: int| !version_word(line, i, j) by {
                        if version_word(line, i, j) {
                            lemma_version_word(line, i, j);
                        }
                    }
                },
            }
        },
        None => {},
    }
}

/// The verb of a request, as far as the server tells verbs apart.
#[derive(Debug, Clone, Copy, PartialEq, Eq, Structural)]
pub enum Method {
    Get,
    Post,
    /// Any other verb, and a request line in which none is found.
    Uninitialized,
}

impl Method {
    /// The method that the word `token` names.
    pub open spec fn of_token(token: Seq<char>) -> Method {
        if token == "GET"@ {
            Method::Get
        } else if token == "POST"@ {
            Method::Post
        } else {
            Method::Uninitialized
        }
    }

    /// The method of a request: the one that its first line names by what
    /// comes before its first space.
    pub open spec fn of_request(request: Seq<char>) -> Method {
        match request_line(request) {
            Some(line) => match split_once(line, " "@) {
                Some((token, _)) => Method::of_token(token),
                None => Method::Uninitialized,
            },
            None => Method::Uninitialized,
        }
    }

    /// The method that the word `token` names.
    pub fn from_token(token: &[char]) -> (r: Method)
        ensures
            r == Method::of_token(token@),
    {
        let get = chars_of("GET");
        let post = chars_of("POST");
        if same(token, get.as_slice()) {
            Method::Get
        } else if same(token, post.as_slice()) {
            Method::Post
        } else {
            Method::Uninitialized
        }
    }

    /// Reads the method of a request off its first line. A request without a
    /// first line, or without a space in it, has none.
    pub fn new(request: &str) -> (r: Method)
        ensures
            r == Method::of_request(request@),
    {
        let chars = chars_of(request);
        let crlf = chars_of("\r\n");
        let space = chars_of(" ");
        assert(chars@.subrange(0, chars@.len() as int) =~= chars@);
        match cut(chars.as_slice(), 0, chars.len(), crlf.as_slice()) {
            Some((end, _)) => match cut(chars.as_slice(), 0, end, space.as_slice()) {
                Some((at, _)) => Method::from_token(slice_subrange(chars.as_slice(), 0, at)),
                None => Method::Uninitialized,
            },
            None => Method::Uninitialized,
        }
    }

    /// Tells the methods apart by the verb `s`.
    pub fn identify(s: &str) -> (r: Method)
        ensures
            r == Method::of_token(s@),
    {
        let chars = chars_of(s);
        Method::from_token(chars.as_slice())
    }
}

/// The path that a request asks for.
#[derive(Debug)]
pub struct Resource {
    pub path: String,
}

impl Resource {
    /// The part of the first line that holds the path, as it was sent: what
    /// stands between the first space and the next, without the white space at
    /// its ends. There is none where the line does not begin with `GET` or
    /// `POST` and a space, or has no second space.
    pub open spec fn raw_target(request: Seq<char>) -> Option<Seq<char>> {
        match request_line(request) {
            Some(line) => match split_once(line, " "@) {
                Some((token, rest)) => if Method::of_token(token) == Method::Uninitialized {
                    None
                } else {
                    match split_once(rest, " "@) {
                        Some((target, _)) => Some(trim(target)),
                        None => None,
                    }
                },
                None => None,
            },
            None => None,
        }
    }

    /// The path for a decoded target: the target without the `/` at its start.
    pub open spec fn path_of(decoded: Seq<char>) -> Seq<char> {
        without_leading(decoded, '/')
    }

    /// The path that a request asks for, if its first line holds one.
    pub open spec fn of_request(request: Seq<char>) -> Option<Seq<char>> {
        match Resource::raw_target(request) {
            Some(target) => Some(Resource::path_of(url_decoded(target))),
            None => None,
        }
    }

    /// The path that a request asks for, where the bytes of its target are
    /// the UTF-8 form of a text once they are percent-decoded.
    pub open spec fn decoded_path(request: Seq<char>) -> Option<Seq<char>> {
        match Resource::raw_target(request) {
            Some(target) => match percent_decoded_text(target) {
                Some(decoded) => Some(Resource::path_of(decoded)),
                None => None,
            },
            None => None,
        }
    }

    /// Reads the part of the first line that holds the path, as it was sent.
    pub fn target(request: &str) -> (r: Option<String>)
        ensures
            match r {
                Some(t) => Resource::raw_target(request@) == Some(t@),
                None => Resource::raw_target(request@) is None,
            },
    {
        let chars = chars_of(request);
        let crlf = chars_of("\r\n");
        let space = chars_of(" ");
        assert(chars@.subrange(0, chars@.len() as int) =~= chars@);
        let end = match cut(chars.as_slice(), 0, chars.len(), crlf.as_slice()) {
            Some((end, _)) => end,
            None => { return None; },
        };
        let (at, from) = match cut(chars.as_slice(), 0, end, space.as_slice()) {
            Some(found) => found,
            None => { return None; },
        };
        match Method::from_token(slice_subrange(chars.as_slice(), 0, at)) {
            Method::Uninitialized => { return None; },
            _ => {},
        }
        match cut(chars.as_slice(), from, end, space.as_slice()) {
            Some((to, _)) => Some(trimmed(request, chars.as_slice(), from, to)),
            None => None,
        }
    }

    /// The resource for a target that has been decoded: its path is the
    /// target without the `/` at its start.
    pub fn from_decoded(decoded: &str) -> (r: Resource)
        ensures
            r.path@ == Resource::path_of(decoded@),
    {
        let chars = chars_of(decoded);
        let k = leading_count(chars.as_slice(), '/');
        let path = decoded.substring_char(k, chars.len());
        assert(path@ =~= decoded@.skip(k as int));
        Resource { path: path.to_owned() }
    }

    /// Reads the resource that a request asks for: the target of its first
    /// line, percent-decoded, without the `/` at its start.
    pub fn new(request: &str) -> (r: Option<Resource>)
        ensures
            match r {
                Some(resource) => Resource::of_request(request@) == Some(resource.path@),
                None => Resource::of_request(request@) is None,
            },
            Resource::decoded_path(request@) matches Some(path) ==> r matches Some(resource)
                && resource.path@ == path,
    {
        match Resource::target(request) {
            Some(target) => {
                let decoded = url_decode(target.as_str());
                Some(Resource::from_decoded(decoded.as_str()))
            },
            None => None,
        }
    }
}

/// The target of a request whose first line is well formed: `GET` or `POST`,
/// a space, a target without a space, a space and a version, with no carriage
/// return in target and version. It is what stands between method and
/// version, without the white space at its ends.
pub proof fn lemma_raw_target(
    method: Seq<char>,
    target: Seq<char>,
    version: Seq<char>,
    rest: Seq<char>,
)
    requires
        method == "GET"@ || method == "POST"@,
        !target.contains(' '),
        !target.contains('\r'),
        !version.contains('\r'),
    ensures
        Resource::raw_target(method + " "@ + target + " "@ + version + "\r\n"@ + rest) == Some(
            trim(target),
        ),
{
    reveal_strlit("GET");
    reveal_strlit("POST");
    reveal_strlit(" ");
    reveal_strlit("\r\n");
    let line = method + " "@ + target + " "@ + version;
    let request = line + "\r\n"@ + rest;
    let tail = target + " "@ + version;
    assert(!line.contains('\r')) by {
        if line.contains('\r') {
            let i = choose|i: int| 0 <= i < line.len() && line[i] == '\r';
            if i < method.len() {
                assert(method[i] == '\r');
            } else if i == method.len() {
            } else if i < method.len() + 1 + target.len() {
                assert(target[i - method.len() - 1] == '\r');
            } else if i == method.len() + 1 + target.len() {
            } else {
                assert(version[i - method.len() - target.len() - 2] == '\r');
            }
        }
    }
    lemma_split_once(line, "\r\n"@, rest);
    assert(request_line(request) == Some(line));
    assert(line =~= method + " "@ + tail);
    assert(!method.contains(' ')) by {
        if method.contains(' ') {
            let i = choose|i: int| 0 <= i < method.len() && method[i] == ' ';
            assert(method[i] == ' ');
        }
    }
    lemma_split_once(method, " "@, tail);
    lemma_split_once(target, " "@, version);
}

/// The path of a request whose first line is well formed, as in
/// `lemma_raw_target`: it is the target between method and version, without
/// the white space at its ends, percent-decoded, without the `/` at its
/// start. Where the target holds no `%`, decoding changes nothing.
pub proof fn lemma_resource_of_request(
    method: Seq<char>,
    target: Seq<char>,
    version: Seq<char>,
    rest: Seq<char>,
)
    requires
        method == "GET"@ || method == "POST"@,
        !target.contains(' '),
        !target.contains('\r'),
        !version.contains('\r'),
    ensures
        Resource::of_request(method + " "@ + target + " "@ + version + "\r\n"@ + rest) == Some(
            Resource::path_of(url_decoded(trim(target))),
        ),
        !target.contains('%') ==> Resource::decoded_path(
            method + " "@ + target + " "@ + version + "\r\n"@ + rest,
        ) == Some(Resource::path_of(trim(target))),
{
    lemma_raw_target(method, target, version, rest);
    if !target.contains('%') {
        lemma_trim_within(target, '%');
        lemma_percent_decoded_text_plain(trim(target));
    }
}

/// The header fields of a request, by name.
pub struct HttpHeader {
    headers: StringHashMap<String>,
}

impl View for HttpHeader {
    type V = Map<Seq<char>, Seq<char>>;

    /// The value of each header field, by the field's name.
    closed spec fn view(&self) -> Map<Seq<char>, Seq<char>> {
        self.headers@.map_values(|v: String| v@)
    }
}

impl HttpHeader {
    /// The header field that a line holds: the name before its first colon and
    /// the value after it, each without the white space at its ends.
    pub open spec fn field(line: Seq<char>) -> Option<(Seq<char>, Seq<char>)> {
        match split_once(line, ":"@) {
            Some((name, value)) => Some((trim(name), trim(value))),
            None => None,
        }
    }

    /// The header fields that lines hold, read from the first line to the
    /// last, so that of two lines with one name the later gives the value.
    /// There are none where a line has no colon.
    pub open spec fn fields(lines: Seq<Seq<char>>) -> Option<Map<Seq<char>, Seq<char>>>
        decreases lines.len(),
    {
        if lines.len() == 0 {
            Some(Map::empty())
        } else {
            match (HttpHeader::fields(lines.drop_last()), HttpHeader::field(lines.last())) {
                (Some(before), Some((name, value))) => Some(before.insert(name, value)),
                _ => None,
            }
        }
    }

    /// The header fields of a request: those of the lines that follow its
    /// first line, up to the first empty line.
    pub open spec fn of_request(request: Seq<char>) -> Option<Map<Seq<char>, Seq<char>>> {
        match split_once(request, "\r\n"@) {
            Some((_, rest)) => HttpHeader::fields(lines_before_blank(rest)),
            None => None,
        }
    }

    /// No header fields.
    pub fn empty() -> (r: HttpHeader)
        ensures
            r@ == Map::<Seq<char>, Seq<char>>::empty(),
    {
        let r = HttpHeader { headers: StringHashMap::new() };
        assert(r@ =~= Map::<Seq<char>, Seq<char>>::empty());
        r
    }

    /// The value of the header field `name`, if the request has that field.
    pub fn get(&self, name: &str) -> (r: Option<&str>)
        ensures
            match r {
                Some(value) => self@.contains_key(name@) && self@[name@] == value@,
                None => !self@.contains_key(name@),
            },
    {
        match self.headers.get(name) {
            Some(value) => Some(value.as_str()),
            None => None,
        }
    }

    /// The number of header fields.
    pub fn len(&self) -> (r: usize)
        ensures
            r == self@.len(),
    {
        assert(self@.dom() =~= self.headers@.dom());
        self.headers.len()
    }

    /// Sets the header field `name` to `value`.
    fn insert(&mut self, name: String, value: String)
        ensures
            final(self)@ == old(self)@.insert(name@, value@),
    {
        self.headers.insert(name, value);
        assert(self@ =~= old(self)@.insert(name@, value@));
    }

    /// Finds the line that begins at `pos`: gives the index at which it ends,
    /// and the index at which the next line begins if a `"\r\n"` ends this
    /// one.
    fn line_at(chars: &[char], pos: usize, crlf: &[char]) -> (r: (usize, Option<usize>))
        requires
            pos <= chars@.len(),
            crlf@ == "\r\n"@,
        ensures
            pos <= r.0 <= chars@.len(),
            r.1 matches Some(next) ==> r.0 <= next <= chars@.len() && (r.0 > pos ==> next > pos),
            first_line(chars@.skip(pos as int)) == (
                chars@.subrange(pos as int, r.0 as int),
                match r.1 {
                    Some(next) => Some(chars@.skip(next as int)),
                    None => None,
                },
            ),
    {
        let n: usize = chars.len();
        assert(chars@.subrange(pos as int, n as int) =~= chars@.skip(pos as int));
        match cut(chars, pos, n, crlf) {
            Some((end, next)) => {
                assert(chars@.subrange(next as int, n as int) =~= chars@.skip(next as int));
                (end, Some(next))
            },
            None => (n, None),
        }
    }

    /// Reads the header field that the line `chars[from..to]` holds, where
    /// `chars` holds the characters of `request`.
    fn field_at(request: &str, chars: &[char], from: usize, to: usize, colon: &[char]) -> (r:
        Option<(String, String)>)
        requires
            chars@ == request@,
            from <= to <= chars@.len(),
            colon@ == ":"@,
        ensures
            match r {
                Some((name, value)) => HttpHeader::field(chars@.subrange(from as int, to as int))
                    == Some((name@, value@)),
                None => HttpHeader::field(chars@.subrange(from as int, to as int)) is None,
            },
    {
        match cut(chars, from, to, colon) {
            Some((at, after)) => Some(
                (trimmed(request, chars, from, at), trimmed(request, chars, after, to)),
            ),
            None => None,
        }
    }

    /// Reads the header fields of a request. There are none where the request
    /// has no first line, or where a line before the first empty one has no
    /// colon.
    pub fn new(request: &str) -> (r: Option<HttpHeader>)
        ensures
            match r {
                Some(header) => HttpHeader::of_request(request@) == Some(header@),
                None => HttpHeader::of_request(request@) is None,
            },
    {
        let chars = chars_of(request);
        let crlf = chars_of("\r\n");
        let colon = chars_of(":");
        let n: usize = chars.len();
        assert(chars@.subrange(0, n as int) =~= chars@);
        let start: usize = match cut(chars.as_slice(), 0, n, crlf.as_slice()) {
            Some((_, start)) => start,
            None => { return None; },
        };
        assert(chars@.subrange(start as int, n as int) =~= chars@.skip(start as int));
        let ghost block = lines_before_blank(chars@.skip(start as int));
        let ghost mut done: Seq<Seq<char>> = Seq::empty();
        let mut header = HttpHeader::empty();
        let mut pos: usize = start;
        loop
            invariant
                n == chars@.len(),
                chars@ == request@,
                crlf@ == "\r\n"@,
                colon@ == ":"@,
                pos <= n,
                HttpHeader::of_request(request@) == HttpHeader::fields(block),
                block == done + lines_before_blank(chars@.skip(pos as int)),
                HttpHeader::fields(done) == Some(header@),
            decreases n - pos,
        {
            let (end, next) = HttpHeader::line_at(chars.as_slice(), pos, crlf.as_slice());
            let ghost line = chars@.subrange(pos as int, end as int);
            let ghost rest = match next {
                Some(next) => lines_before_blank(chars@.skip(next as int)),
                None => Seq::<Seq<char>>::empty(),
            };
            if end == pos {
                assert(block =~= done);
                return Some(header);
            }
            assert(block =~= done.push(line) + rest);
            match HttpHeader::field_at(request, chars.as_slice(), pos, end, colon.as_slice()) {
                Some((name, value)) => {
                    header.insert(name, value);
                },
                None => {
                    proof {
                        lemma_fields_none(block, done.len() as int);
                    }
                    return None;
                },
            }
            proof {
                assert(done.push(line).drop_last() =~= done);
                done = done.push(line);
            }
            match next {
                Some(next) => {
                    pos = next;
                },
                None => {
                    assert(block =~= done);
                    return Some(header);
                },
            }
        }
    }
}

/// Where a line cannot be read as a header field, the lines cannot be read as
/// header fields.
pub proof fn lemma_fields_none(lines: Seq<Seq<char>>, i: int)
    requires
        0 <= i < lines.len(),
        HttpHeader::field(lines[i]) is None,
    ensures
        HttpHeader::fields(lines) is None,
    decreases lines.len(),
{
    if i < lines.len() - 1 {
        lemma_fields_none(lines.drop_last(), i);
    }
}

/// The name of the header field that a line holds.
pub open spec fn field_name(line: Seq<char>) -> Seq<char> {
    HttpHeader::field(line).unwrap().0
}

/// The value of the header field that a line holds.
pub open spec fn field_value(line: Seq<char>) -> Seq<char> {
    HttpHeader::field(line).unwrap().1
}

/// No line after `lines[i]` gives the name that `lines[i]` gives.
pub open spec fn is_last_of_name(lines: Seq<Seq<char>>, i: int) -> bool {
    forall|j: int| i < j < lines.len() ==> field_name(#[trigger] lines[j]) != field_name(lines[i])
}

/// The header fields that lines hold are these: there are some exactly when
/// every line has a colon; each name that a line gives has a value, and no
/// other name has one; and the value of a name is the one that the last line
/// with the name gives.
pub proof fn lemma_fields(lines: Seq<Seq<char>>)
    ensures
        HttpHeader::fields(lines) is Some <==> forall|i: int|
            0 <= i < lines.len() ==> HttpHeader::field(#[trigger] lines[i]) is Some,
        HttpHeader::fields(lines) matches Some(fields) ==> {
            &&& forall|name: Seq<char>| #[trigger]
                fields.contains_key(name) <==> exists|i: int|
                    0 <= i < lines.len() && field_name(#[trigger] lines[i]) == name
            &&& forall|i: int|
                0 <= i < lines.len() && #[trigger] is_last_of_name(lines, i) ==> fields[field_name(
                    lines[i],
                )] == field_value(lines[i])
        },
    decreases lines.len(),
{
    if lines.len() > 0 {
        let front = lines.drop_last();
        let last = lines.len() - 1;
        lemma_fields(front);
        assert(forall|i: int| 0 <= i < front.len() ==> front[i] == lines[i]);
        if HttpHeader::fields(lines) is Some {
            let fields = HttpHeader::fields(lines).unwrap();
            let before = HttpHeader::fields(front).unwrap();
            assert(fields == before.insert(field_name(lines[last]), field_value(lines[last])));
            assert forall|name: Seq<char>| #[trigger]
                fields.contains_key(name) implies exists|i: int|
                0 <= i < lines.len() && field_name(#[trigger] lines[i]) == name by {
                if name == field_name(lines[last]) {
                } else {
                    let i = choose|i: int|
                        0 <= i < front.len() && field_name(#[trigger] front[i]) == name;
                    assert(field_name(lines[i]) == name);
                }
            }
            assert forall|name: Seq<char>|
                (exists|i: int|
                    0 <= i < lines.len() && field_name(#[trigger] lines[i]) == name) implies #[trigger]
                fields.contains_key(name) by {
                let i = choose|i: int| 0 <= i < lines.len() && field_name(#[trigger] lines[i]) == name;
                if i < last {
                    assert(field_name(front[i]) == name);
                }
            }
            assert forall|i: int|
                0 <= i < lines.len() && #[trigger] is_last_of_name(lines, i) implies fields[field_name(
                lines[i],
            )] == field_value(lines[i]) by {
                if i < last {
                    assert(field_name(lines[last]) != field_name(lines[i]));
                    assert(is_last_of_name(front, i)) by {
                        assert forall|j: int| i < j < front.len() implies field_name(
                            #[trigger] front[j],
                        ) != field_name(front[i]) by {
                            assert(front[j] == lines[j]);
                        }
                    }
                }
            }
        } else {
            if HttpHeader::field(lines[last]) is Some {
                let i = choose|i: int|
                    0 <= i < front.len() && !(HttpHeader::field(#[trigger] front[i]) is Some);
                assert(front[i] == lines[i]);
            }
        }
    }
}

/// A request, read once and not changed after.
pub struct HttpRequest {
    method: Method,
    pub resource: Resource,
    version: Version,
    headers: HttpHeader,
    pub request_body: String,
}

/// What a request holds.
pub struct RequestView {
    pub method: Method,
    pub path: Seq<char>,
    pub version: Version,
    pub headers: Map<Seq<char>, Seq<char>>,
    pub body: Seq<char>,
}

impl View for HttpRequest {
    type V = RequestView;

    closed spec fn view(&self) -> RequestView {
        RequestView {
            method: self.method,
            path: self.resource.path@,
            version: self.version,
            headers: self.headers@,
            body: self.request_body@,
        }
    }
}

impl HttpRequest {
    /// The body of a request: what follows the first empty line, if there is
    /// one.
    pub open spec fn body_of(request: Seq<char>) -> Seq<char> {
        match split_once(request, "\r\n\r\n"@) {
            Some((_, body)) => body,
            None => Seq::empty(),
        }
    }

    /// What a request holds, if it holds a version: the method, the path (the
    /// empty path where none can be read), the version, the header fields
    /// (none where they cannot be read) and the body.
    pub open spec fn of_request(request: Seq<char>) -> Option<RequestView> {
        match Version::of_request(request) {
            Some(version) => Some(
                RequestView {
                    method: Method::of_request(request),
                    path: match Resource::of_request(request) {
                        Some(path) => path,
                        None => Seq::empty(),
                    },
                    version,
                    headers: match HttpHeader::of_request(request) {
                        Some(fields) => fields,
                        None => Map::empty(),
                    },
                    body: HttpRequest::body_of(request),
                },
            ),
            None => None,
        }
    }

    /// Reads the body of a request.
    fn read_body(request: &str) -> (r: String)
        ensures
            r@ == HttpRequest::body_of(request@),
    {
        let chars = chars_of(request);
        let blank = chars_of("\r\n\r\n");
        let n: usize = chars.len();
        assert(chars@.subrange(0, n as int) =~= chars@);
        match cut(chars.as_slice(), 0, n, blank.as_slice()) {
            Some((_, after)) => request.substring_char(after, n).to_owned(),
            None => String::new(),
        }
    }

    /// Reads a request. Only a request without a version is refused: a path
    /// or header fields that cannot be read are taken as empty.
    pub fn new(request: &str) -> (r: Result<HttpRequest, VersionError>)
        ensures
            r is Ok <==> Version::of_request(request@) is Some,
            match r {
                Ok(read) => HttpRequest::of_request(request@) == Some(read@) && (
                Resource::decoded_path(request@) matches Some(path) ==> read@.path == path),
                Err(e) => e@ == VersionError::unknown(request@),
            },
    {
        let method = Method::new(request);
        let resource = match Resource::new(request) {
            Some(resource) => resource,
            None => Resource { path: String::new() },
        };
        let version = match Version::new(request) {
            Ok(version) => version,
            Err(e) => { return Err(e); },
        };
        let headers = match HttpHeader::new(request) {
            Some(headers) => headers,
            None => HttpHeader::empty(),
        };
        let request_body = HttpRequest::read_body(request);
        Ok(HttpRequest { method, resource, version, headers, request_body })
    }

    /// The response to this request, where `target` was found at the path
    /// that is served.
    pub fn response(&self, target: &Target) -> (r: HttpResponse)
        ensures
            r@ == response(self@.path, *target),
    {
        HttpResponse::new(self, target)
    }

    /// The method of the request.
    pub fn method(&self) -> (r: Method)
        ensures
            r == self@.method,
    {
        self.method
    }

    /// The path that the request asks for.
    pub fn path(&self) -> (r: &str)
        ensures
            r@ == self@.path,
    {
        self.resource.path.as_str()
    }

    /// The version of the request.
    pub fn version(&self) -> (r: Version)
        ensures
            r == self@.version,
    {
        self.version
    }

    /// The header fields of the request.
    pub fn headers(&self) -> (r: &HttpHeader)
        ensures
            r@ == self@.headers,
    {
        &self.headers
    }

    /// The body of the request.
    pub fn body(&self) -> (r: &str)
        ensures
            r@ == self@.body,
    {
        self.request_body.as_str()
    }
}

} // verus!
