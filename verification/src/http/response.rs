//! The response: status, headers and body for what the request path names.

use crate::decimal::{decimal, decimal_text};
use crate::escape::{percent_encoded, url_encode};
use crate::http::request::{HttpRequest, Version};
use crate::sniff::{sniff_mime, sniffed_mime};
use crate::text::occurs_at;
use vstd::prelude::*;
use vstd::string::*;
use vstd::utf8::encode_utf8;

verus! {

/// The status of a response.
#[derive(Debug, Clone, Copy, PartialEq, Eq, Structural)]
pub enum ResponseStatus {
    OK,
    NotFound,
}

impl ResponseStatus {
    /// The status as it stands in the status line.
    pub open spec fn text(self) -> Seq<char> {
        match self {
            ResponseStatus::OK => "200 OK"@,
            ResponseStatus::NotFound => "404 NOT FOUND"@,
        }
    }

    /// The status as it stands in the status line.
    pub fn as_str(&self) -> (r: &'static str)
        ensures
            r@ == self.text(),
    {
        match self {
            ResponseStatus::OK => "200 OK",
            ResponseStatus::NotFound => "404 NOT FOUND",
        }
    }

    /// The number of the status.
    pub fn code(&self) -> (r: u16)
        ensures
            r == (if *self == ResponseStatus::OK { 200u16 } else { 404u16 }),
    {
        match self {
            ResponseStatus::OK => 200,
            ResponseStatus::NotFound => 404,
        }
    }
}

/// What the response says of byte ranges. It selects a header line; no range
/// is ever served.
#[derive(Debug, Clone, Copy, PartialEq, Eq, Structural)]
pub enum AcceptRanges {
    Bytes,
    NoRanges,
}

impl AcceptRanges {
    /// The header line.
    pub open spec fn text(self) -> Seq<char> {
        match self {
            AcceptRanges::Bytes => "accept-ranges: bytes"@,
            AcceptRanges::NoRanges => "accept-ranges: none"@,
        }
    }

    /// The header line.
    pub fn as_str(&self) -> (r: &'static str)
        ensures
            r@ == self.text(),
    {
        match self {
            AcceptRanges::Bytes => "accept-ranges: bytes",
            AcceptRanges::NoRanges => "accept-ranges: none",
        }
    }
}

/// One entry of a directory.
#[derive(Debug)]
pub struct DirEntry {
    /// The last component of the entry's path.
    pub name: String,
    /// Is the entry itself a directory?
    pub is_dir: bool,
}

/// What stands at a path, as far as the response depends on it.
#[derive(Debug, Clone, Copy, PartialEq, Eq, Structural)]
pub enum Found {
    /// Nothing.
    Missing,
    /// A regular file: its bytes are to be read.
    File,
    /// A directory: its entries are to be read.
    Directory,
    /// Something else.
    Special,
}

/// Tells what stands at a path from what the file system says of it: whether
/// anything is there and, if so, whether it is a regular file and whether it
/// is a directory. A regular file is asked for first.
pub fn classify(exists: bool, is_file: bool, is_dir: bool) -> (r: Found)
    ensures
        r == (if !exists {
            Found::Missing
        } else if is_file {
            Found::File
        } else if is_dir {
            Found::Directory
        } else {
            Found::Special
        }),
{
    if exists {
        if is_file {
            Found::File
        } else if is_dir {
            Found::Directory
        } else {
            Found::Special
        }
    } else {
        Found::Missing
    }
}

/// What was found at the path that is served.
#[derive(Debug)]
pub enum Target {
    /// Nothing is there.
    Missing,
    /// A regular file, with all its bytes.
    File(Vec<u8>),
    /// A directory, with its entries in the order in which they were read.
    Directory(Vec<DirEntry>),
    /// Something that is neither a regular file nor a directory.
    Special,
}

/// How every directory listing begins.
pub const BEGIN_HTML: &'static str =
    "\n        <!DOCTYPE html> \n        <html> \n        <head> \n            <meta charset=\"utf-8\"> \n        </head> \n        <body>\n        ";

/// The page sent for what is neither a file nor a directory.
pub const NOT_FOUND_PAGE: &'static str =
    " \n                                <!DOCTYPE html> \n                                <html> \n                                    <head> \n                                        <meta charset=\"utf-8\"> \n                                    </head> \n                                    <body>\n                                        <h1>404 NOT FOUND</h1>\n                                    </body>\n                                </html";

/// The status line and the two header lines that every response with a body
/// has, for a body of `length` bytes.
pub open spec fn head_lines(status: ResponseStatus, ranges: AcceptRanges, length: nat) -> Seq<char> {
    Version::V1_1.text() + " "@ + status.text() + "\n"@ + ranges.text() + "\ncontent-length: "@
        + decimal_text(length)
}

/// The header line for the media type of a file: the one that was found in its
/// bytes, or `text/plain`.
pub open spec fn content_type_line(mime: Option<Seq<char>>) -> Seq<char> {
    match mime {
        Some(m) => "Content-Type: "@ + m,
        None => "Content-Type: text/plain"@,
    }
}

/// All that comes before the bytes of a file of `length` bytes.
pub open spec fn file_head(length: nat, mime: Option<Seq<char>>) -> Seq<char> {
    head_lines(ResponseStatus::OK, AcceptRanges::Bytes, length) + "\n"@ + content_type_line(mime)
        + "\r\n\r\n"@
}

/// All that comes before a page of `length` bytes.
pub open spec fn page_head(status: ResponseStatus, length: nat) -> Seq<char> {
    head_lines(status, AcceptRanges::NoRanges, length) + "\r\n\r\n"@
}

/// An entry's name as the listing shows it: a directory's is followed by `/`.
pub open spec fn display_name(entry: DirEntry) -> Seq<char> {
    if entry.is_dir {
        entry.name@ + "/"@
    } else {
        entry.name@
    }
}

/// Where an entry's list item points: the request path, `/` and the entry's
/// name, percent-encoded.
pub open spec fn link(path: Seq<char>, name: Seq<char>) -> Seq<char> {
    percent_encoded(encode_utf8(path + "/"@ + name))
}

/// The list item of one entry.
pub open spec fn list_item(path: Seq<char>, entry: DirEntry) -> Seq<char> {
    "<li><a href=\""@ + link(path, entry.name@) + "\">"@ + display_name(entry) + "</a></li>"@
}

/// The list items of the entries, one after the other, in the entries' order.
pub open spec fn list_items(path: Seq<char>, entries: Seq<DirEntry>) -> Seq<char>
    decreases entries.len(),
{
    if entries.len() == 0 {
        Seq::empty()
    } else {
        list_items(path, entries.drop_last()) + list_item(path, entries.last())
    }
}

/// The heading of a listing: where we are, and the way up.
pub open spec fn listing_heading(path: Seq<char>) -> Seq<char> {
    "<h1>Currently in: "@ + ("/"@ + path) + "</h1><br><hr><a href=\"../\">Go up</a>"@
}

/// A listing up to its first list item.
pub open spec fn listing_top(path: Seq<char>) -> Seq<char> {
    BEGIN_HTML@ + listing_heading(path) + "<ul>"@
}

/// The page that lists a directory.
pub open spec fn listing_page(path: Seq<char>, entries: Seq<DirEntry>) -> Seq<char> {
    listing_top(path) + list_items(path, entries) + "</ul></body></html>"@
}

/// Where the list item of the entry `i` begins in the page that lists
/// `entries`.
pub open spec fn list_item_start(path: Seq<char>, entries: Seq<DirEntry>, i: int) -> int {
    (listing_top(path).len() + list_items(path, entries.take(i)).len()) as int
}

/// The list items of the entries hold the item of each entry, after the items
/// of the entries before it.
pub proof fn lemma_list_items_hold(path: Seq<char>, entries: Seq<DirEntry>, i: int)
    requires
        0 <= i < entries.len(),
    ensures
        occurs_at(
            list_items(path, entries),
            list_item(path, entries[i]),
            list_items(path, entries.take(i)).len() as int,
        ),
    decreases entries.len(),
{
    let front = entries.drop_last();
    let before = list_items(path, entries.take(i));
    let item = list_item(path, entries[i]);
    let from = before.len() as int;
    let to = from + item.len();
    if i == entries.len() - 1 {
        assert(entries.take(i) =~= front);
        assert((before + item).subrange(from, to) =~= item);
    } else {
        lemma_list_items_hold(path, front, i);
        assert(front.take(i) =~= entries.take(i));
        assert(front[i] == entries[i]);
        let all = list_items(path, front);
        let last = list_item(path, entries.last());
        assert((all + last).subrange(from, to) =~= all.subrange(from, to));
    }
}

/// The page that lists a directory holds one list item for each entry, in the
/// order of the entries: the item of the entry `i` begins where the items of
/// the entries before it end.
pub proof fn lemma_listing_holds(path: Seq<char>, entries: Seq<DirEntry>, i: int)
    requires
        0 <= i < entries.len(),
    ensures
        occurs_at(
            listing_page(path, entries),
            list_item(path, entries[i]),
            list_item_start(path, entries, i),
        ),
{
    lemma_list_items_hold(path, entries, i);
    let top = listing_top(path);
    let items = list_items(path, entries);
    let item = list_item(path, entries[i]);
    let at = list_items(path, entries.take(i)).len() as int;
    assert(listing_page(path, entries).subrange(top.len() + at, top.len() + at + item.len())
        =~= items.subrange(at, at + item.len()));
}

/// `bytes` ends in `tail`.
pub open spec fn ends_in(bytes: Seq<u8>, tail: Seq<u8>) -> bool {
    bytes.len() >= tail.len() && bytes.skip(bytes.len() - tail.len()) == tail
}

/// What a response holds.
pub struct ResponseView {
    pub version: Version,
    pub status: ResponseStatus,
    pub content_length: nat,
    pub accept_ranges: AcceptRanges,
    pub body: Seq<u8>,
    pub path: Seq<char>,
}

/// The response for a path at which nothing is.
pub open spec fn missing_response(path: Seq<char>) -> ResponseView {
    ResponseView {
        version: Version::V1_1,
        status: ResponseStatus::NotFound,
        content_length: 0,
        accept_ranges: AcceptRanges::NoRanges,
        body: Seq::empty(),
        path,
    }
}

/// The response that carries a file with the bytes `content`, for which the
/// media type `mime` was found.
pub open spec fn file_response(path: Seq<char>, content: Seq<u8>, mime: Option<Seq<char>>) -> ResponseView {
    ResponseView {
        version: Version::V1_1,
        status: ResponseStatus::OK,
        content_length: content.len(),
        accept_ranges: AcceptRanges::Bytes,
        body: encode_utf8(file_head(content.len(), mime)) + content,
        path,
    }
}

/// The response that carries `page` under the status `status`.
pub open spec fn page_response(path: Seq<char>, status: ResponseStatus, page: Seq<char>) -> ResponseView {
    ResponseView {
        version: Version::V1_1,
        status,
        content_length: encode_utf8(page).len(),
        accept_ranges: AcceptRanges::NoRanges,
        body: encode_utf8(page_head(status, encode_utf8(page).len())) + encode_utf8(page),
        path,
    }
}

/// The response to a request for `path`, where `target` was found at the path
/// that is served.
pub open spec fn response(path: Seq<char>, target: Target) -> ResponseView {
    match target {
        Target::Missing => missing_response(path),
        Target::File(content) => file_response(path, content@, sniffed_mime(content@)),
        Target::Directory(entries) => page_response(
            path,
            ResponseStatus::OK,
            listing_page(path, entries@),
        ),
        Target::Special => page_response(path, ResponseStatus::NotFound, NOT_FOUND_PAGE@),
    }
}

/// A response, built once and not changed after.
#[derive(Debug)]
pub struct HttpResponse {
    version: Version,
    status: ResponseStatus,
    content_length: usize,
    accept_ranges: AcceptRanges,
    pub response_body: Vec<u8>,
    pub current_path: String,
}

impl View for HttpResponse {
    type V = ResponseView;

    closed spec fn view(&self) -> ResponseView {
        ResponseView {
            version: self.version,
            status: self.status,
            content_length: self.content_length as nat,
            accept_ranges: self.accept_ranges,
            body: self.response_body@,
            path: self.current_path@,
        }
    }
}

/// Adds `bytes` at the end of `v`.
fn push_bytes(v: &mut Vec<u8>, bytes: &[u8])
    ensures
        final(v)@ == old(v)@ + bytes@,
{
    v.extend_from_slice(bytes);
    assert(v@ =~= old(v)@ + bytes@);
}

/// Writes the status line and the two header lines that every response with a
/// body has.
fn head_lines_text(status: ResponseStatus, ranges: AcceptRanges, length: usize) -> (r: String)
    ensures
        r@ == head_lines(status, ranges, length as nat),
{
    let mut head = String::from_str(Version::V1_1.as_str());
    head.append(" ");
    head.append(status.as_str());
    head.append("\n");
    head.append(ranges.as_str());
    head.append("\ncontent-length: ");
    let digits = decimal(length);
    head.append(digits.as_str());
    head
}

impl HttpResponse {
    /// The version in the status line.
    pub fn version(&self) -> (r: Version)
        ensures
            r == self@.version,
    {
        self.version
    }

    /// The status of the response.
    pub fn status(&self) -> (r: ResponseStatus)
        ensures
            r == self@.status,
    {
        self.status
    }

    /// The number of bytes that the response declares to carry.
    pub fn content_length(&self) -> (r: usize)
        ensures
            r == self@.content_length,
    {
        self.content_length
    }

    /// What the response says of byte ranges.
    pub fn accept_ranges(&self) -> (r: AcceptRanges)
        ensures
            r == self@.accept_ranges,
    {
        self.accept_ranges
    }

    /// All the bytes of the response: status line, headers and what it
    /// carries.
    pub fn body(&self) -> (r: &[u8])
        ensures
            r@ == self@.body,
    {
        self.response_body.as_slice()
    }

    /// The path of the request that the response answers.
    pub fn path(&self) -> (r: &str)
        ensures
            r@ == self@.path,
    {
        self.current_path.as_str()
    }

    /// The response for a path at which nothing is: no body at all.
    fn missing(current_path: String) -> (r: HttpResponse)
        ensures
            r@ == missing_response(current_path@),
    {
        HttpResponse {
            version: Version::V1_1,
            status: ResponseStatus::NotFound,
            content_length: 0,
            accept_ranges: AcceptRanges::NoRanges,
            response_body: Vec::new(),
            current_path,
        }
    }

    /// The response that carries the file `content`, where `mime` is the media
    /// type that was found in its bytes.
    pub fn file(current_path: String, content: &[u8], mime: Option<&str>) -> (r: HttpResponse)
        ensures
            r@ == file_response(
                current_path@,
                content@,
                match mime {
                    Some(m) => Some(m@),
                    None => None,
                },
            ),
            r@.status == ResponseStatus::OK,
            r@.content_length == content@.len(),
            ends_in(r@.body, content@),
    {
        let content_length: usize = content.len();
        let content_type = match mime {
            Some(m) => {
                let mut line = String::from_str("Content-Type: ");
                line.append(m);
                line
            },
            None => String::from_str("Content-Type: text/plain"),
        };
        let mut head = head_lines_text(ResponseStatus::OK, AcceptRanges::Bytes, content_length);
        head.append("\n");
        head.append(content_type.as_str());
        head.append("\r\n\r\n");
        let mut response_body: Vec<u8> = Vec::new();
        push_bytes(&mut response_body, head.as_str().as_bytes());
        push_bytes(&mut response_body, content);
        assert(response_body@.skip(response_body@.len() - content@.len()) =~= content@);
        HttpResponse {
            version: Version::V1_1,
            status: ResponseStatus::OK,
            content_length,
            accept_ranges: AcceptRanges::Bytes,
            response_body,
            current_path,
        }
    }

    /// The response that carries the page `page` under the status `status`.
    fn page(current_path: String, status: ResponseStatus, page: &str) -> (r: HttpResponse)
        ensures
            r@ == page_response(current_path@, status, page@),
            ends_in(r@.body, encode_utf8(page@)),
    {
        let bytes = page.as_bytes();
        let content_length: usize = bytes.len();
        let mut head = head_lines_text(status, AcceptRanges::NoRanges, content_length);
        head.append("\r\n\r\n");
        let mut response_body: Vec<u8> = Vec::new();
        push_bytes(&mut response_body, head.as_str().as_bytes());
        push_bytes(&mut response_body, bytes);
        assert(response_body@.skip(response_body@.len() - bytes@.len()) =~= bytes@);
        HttpResponse {
            version: Version::V1_1,
            status,
            content_length,
            accept_ranges: AcceptRanges::NoRanges,
            response_body,
            current_path,
        }
    }

    /// Writes the list item of one entry of the directory at `path`.
    fn list_item_text(path: &str, entry: &DirEntry) -> (r: String)
        ensures
            r@ == list_item(path@, *entry),
    {
        let mut display_name = entry.name.clone();
        if entry.is_dir {
            display_name.append("/");
        }
        let mut path_to_encode = String::from_str(path);
        path_to_encode.append("/");
        path_to_encode.append(entry.name.as_str());
        let encoded_path = url_encode(path_to_encode.as_str());
        let mut item = String::from_str("<li><a href=\"");
        item.append(encoded_path.as_str());
        item.append("\">");
        item.append(display_name.as_str());
        item.append("</a></li>");
        item
    }

    /// Writes the page that lists the directory at `path`.
    fn listing_text(path: &str, entries: &[DirEntry]) -> (r: String)
        ensures
            r@ == listing_page(path@, entries@),
    {
        let mut display_path = String::from_str("/");
        display_path.append(path);
        let mut heading = String::from_str("<h1>Currently in: ");
        heading.append(display_path.as_str());
        heading.append("</h1><br><hr><a href=\"../\">Go up</a>");
        let mut listing = String::from_str(BEGIN_HTML);
        listing.append(heading.as_str());
        listing.append("<ul>");
        let n: usize = entries.len();
        let mut i: usize = 0;
        while i < n
            invariant
                n == entries@.len(),
                i <= n,
                listing@ == listing_top(path@) + list_items(path@, entries@.take(i as int)),
            decreases n - i,
        {
            let item = HttpResponse::list_item_text(path, &entries[i]);
            proof {
                let done = entries@.take(i as int);
                let next = entries@.take(i + 1);
                assert(next.drop_last() =~= done);
                assert(next.last() == entries@[i as int]);
                assert(listing_top(path@) + list_items(path@, done) + item@ =~= listing_top(path@) + (
                list_items(path@, done) + item@));
            }
            listing.append(item.as_str());
            i += 1;
        }
        assert(entries@.take(n as int) =~= entries@);
        listing.append("</ul></body></html>");
        listing
    }

    /// The response to `request`, where `target` was found at the path that is
    /// served: the path of the request, or the root in its place.
    pub fn new(request: &HttpRequest, target: &Target) -> (r: HttpResponse)
        ensures
            r@ == response(request@.path, *target),
            match *target {
                Target::Missing => r@.status == ResponseStatus::NotFound && r@.body.len() == 0,
                Target::File(content) => {
                    &&& r@.status == ResponseStatus::OK
                    &&& r@.content_length == content@.len()
                    &&& ends_in(r@.body, content@)
                },
                Target::Directory(entries) => {
                    &&& r@.status == ResponseStatus::OK
                    &&& r@.content_length == encode_utf8(
                        listing_page(request@.path, entries@),
                    ).len()
                    &&& ends_in(r@.body, encode_utf8(listing_page(request@.path, entries@)))
                    &&& forall|i: int|
                        0 <= i < entries@.len() ==> occurs_at(
                            listing_page(request@.path, entries@),
                            list_item(request@.path, #[trigger] entries@[i]),
                            list_item_start(request@.path, entries@, i),
                        )
                },
                Target::Special => {
                    &&& r@.status == ResponseStatus::NotFound
                    &&& r@.content_length == encode_utf8(NOT_FOUND_PAGE@).len()
                    &&& ends_in(r@.body, encode_utf8(NOT_FOUND_PAGE@))
                },
            },
    {
        let current_path = request.path().to_owned();
        match target {
            Target::Missing => HttpResponse::missing(current_path),
            Target::File(content) => {
                let mime = sniff_mime(content.as_slice());
                HttpResponse::file(current_path, content.as_slice(), mime)
            },
            Target::Directory(entries) => {
                let listing = HttpResponse::listing_text(current_path.as_str(), entries.as_slice());
                proof {
                    assert forall|i: int| 0 <= i < entries@.len() implies occurs_at(
                        listing_page(request@.path, entries@),
                        list_item(request@.path, #[trigger] entries@[i]),
                        list_item_start(request@.path, entries@, i),
                    ) by {
                        lemma_listing_holds(request@.path, entries@, i);
                    }
                }
                HttpResponse::page(current_path, ResponseStatus::OK, listing.as_str())
            },
            Target::Special => HttpResponse::page(
                current_path,
                ResponseStatus::NotFound,
                NOT_FOUND_PAGE,
            ),
        }
    }
}

} // verus!
