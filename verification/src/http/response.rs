//! The response side: from the path that a request asks for, and from what
//! the file system holds there, to the response as it goes out.

use crate::http::request::{HttpRequest, Version};
use crate::http::text::{byte_len, byte_len_of, decimal, decimal_of};
use vstd::prelude::*;

verus! {

/// The outcome that a response reports.
#[derive(Debug, Clone, Copy, PartialEq, Eq, Structural)]
pub enum ResponseStatus {
    OK,
    NotFound,
}

impl ResponseStatus {
    /// The status code.
    pub open spec fn spec_code(&self) -> u16 {
        match self {
            ResponseStatus::OK => 200,
            ResponseStatus::NotFound => 404,
        }
    }

    /// The status as it stands in the status line: code, then reason.
    pub open spec fn text(self) -> Seq<char> {
        match self {
            ResponseStatus::OK => "200 OK"@,
            ResponseStatus::NotFound => "404 Not Found"@,
        }
    }

    /// The status code.
    #[verifier::when_used_as_spec(spec_code)]
    pub fn code(&self) -> (c: u16)
        ensures
            c == self.spec_code(),
    {
        match self {
            ResponseStatus::OK => 200,
            ResponseStatus::NotFound => 404,
        }
    }

    /// The status as it stands in the status line: code, then reason.
    pub fn as_str(&self) -> (s: &'static str)
        ensures
            s@ == self.text(),
    {
        match self {
            ResponseStatus::OK => "200 OK",
            ResponseStatus::NotFound => "404 Not Found",
        }
    }
}

/// Whether the server says that it serves byte ranges. It serves none: the
/// header is advice only.
#[derive(Debug, Clone, Copy, PartialEq, Eq, Structural)]
pub enum AcceptRanges {
    Bytes,
    NoRanges,
}

impl AcceptRanges {
    /// The header line.
    pub open spec fn text(self) -> Seq<char> {
        match self {
            AcceptRanges::Bytes => "accept-ranges:bytes"@,
            AcceptRanges::NoRanges => "accept-ranges:none"@,
        }
    }

    /// The header line.
    pub fn as_str(&self) -> (s: &'static str)
        ensures
            s@ == self.text(),
    {
        match self {
            AcceptRanges::Bytes => "accept-ranges:bytes",
            AcceptRanges::NoRanges => "accept-ranges:none",
        }
    }
}

/// What the file system holds at a path.
#[derive(Debug)]
pub enum PathEntry {
    /// Nothing.
    Missing,
    /// Something that is no regular file.
    Directory,
    /// A regular file with this content.
    File(String),
}

/// What the file system holds at a path, a file's content as characters.
pub enum EntryModel {
    Missing,
    Directory,
    File(Seq<char>),
}

impl View for PathEntry {
    type V = EntryModel;

    open spec fn view(&self) -> EntryModel {
        match self {
            PathEntry::Missing => EntryModel::Missing,
            PathEntry::Directory => EntryModel::Directory,
            PathEntry::File(content) => EntryModel::File(content@),
        }
    }
}

impl PathEntry {
    /// What two questions to the file system tell of a path: whether
    /// anything is there, and whether it is a regular file. Only a regular
    /// file needs to be read, so only for one is the answer still open.
    pub fn from_probe(exists: bool, is_file: bool) -> (r: Option<PathEntry>)
        ensures
            match r {
                Some(entry) => !(exists && is_file) && entry@ == (if exists {
                    EntryModel::Directory
                } else {
                    EntryModel::Missing
                }),
                None => exists && is_file,
            },
    {
        if !exists {
            Some(PathEntry::Missing)
        } else if !is_file {
            Some(PathEntry::Directory)
        } else {
            None
        }
    }
}

/// The page that stands for a path that is no file. Its length is announced;
/// the page itself is not sent.
pub const NOT_FOUND_PAGE: &'static str =
    "<html>\n                <body>\n                <h1>404 NOT FOUND</h1>\n                </body>\n                </html>";

/// A response: its parts, and its text as it goes out.
#[derive(Debug)]
pub struct HttpResponse {
    version: Version,
    status: ResponseStatus,
    content_length: usize,
    accept_ranges: AcceptRanges,
    pub response_body: String,
    pub current_path: String,
}

/// A response as plain values.
pub struct ResponseModel {
    pub version: Version,
    pub status: ResponseStatus,
    pub content_length: nat,
    pub accept_ranges: AcceptRanges,
    /// The text that goes out.
    pub body: Seq<char>,
    /// The path that was asked for.
    pub path: Seq<char>,
}

impl View for HttpResponse {
    type V = ResponseModel;

    closed spec fn view(&self) -> ResponseModel {
        ResponseModel {
            version: self.version,
            status: self.status,
            content_length: self.content_length as nat,
            accept_ranges: self.accept_ranges,
            body: self.response_body@,
            path: self.current_path@,
        }
    }
}

impl HttpResponse {
    /// The head of a response: the status line, the two header lines and the
    /// empty line after them. The first two lines end in a bare line feed.
    pub open spec fn head(
        version: Version,
        status: ResponseStatus,
        accept_ranges: AcceptRanges,
        content_length: nat,
    ) -> Seq<char> {
        version.text() + " "@ + status.text() + "\n"@ + accept_ranges.text() + "\ncontent-length: "@
            + decimal(content_length) + "\r\n\r\n"@
    }

    /// The response to a request for `path`, where the file system holds
    /// `entry` there.
    pub open spec fn of(path: Seq<char>, entry: EntryModel) -> ResponseModel {
        match entry {
            EntryModel::Missing => ResponseModel {
                version: Version::V2_0,
                status: ResponseStatus::NotFound,
                content_length: 0,
                accept_ranges: AcceptRanges::NoRanges,
                body: HttpResponse::head(
                    Version::V2_0,
                    ResponseStatus::NotFound,
                    AcceptRanges::NoRanges,
                    0,
                ),
                path,
            },
            EntryModel::Directory => ResponseModel {
                version: Version::V2_0,
                status: ResponseStatus::NotFound,
                content_length: byte_len(NOT_FOUND_PAGE@),
                accept_ranges: AcceptRanges::NoRanges,
                body: HttpResponse::head(
                    Version::V2_0,
                    ResponseStatus::NotFound,
                    AcceptRanges::NoRanges,
                    byte_len(NOT_FOUND_PAGE@),
                ),
                path,
            },
            EntryModel::File(content) => ResponseModel {
                version: Version::V2_0,
                status: ResponseStatus::OK,
                content_length: byte_len(content),
                accept_ranges: AcceptRanges::Bytes,
                body: HttpResponse::head(
                    Version::V2_0,
                    ResponseStatus::OK,
                    AcceptRanges::Bytes,
                    byte_len(content),
                ) + content,
                path,
            },
        }
    }

    /// Builds the response to `request`, where the file system holds `entry`
    /// at the path that the request asks for.
    ///
    /// A regular file is sent whole, after a head that reports 200 and gives
    /// the file's length in bytes. Otherwise the head alone is sent, and it
    /// reports 404: for a path that does not exist with the length 0, for
    /// anything else with the length of a page that does not follow. The
    /// response's version is fixed, whatever the request's is.
    pub fn new(request: &HttpRequest, entry: &PathEntry) -> (r: HttpResponse)
        ensures
            r@ == HttpResponse::of(request@.path, entry@),
    {
        let version = Version::V2_0;
        let current_path = request.resource().path.clone();
        match entry {
            PathEntry::Missing => {
                let status = ResponseStatus::NotFound;
                let accept_ranges = AcceptRanges::NoRanges;
                let content_length: usize = 0;
                let response_body = HttpResponse::compose(
                    version,
                    status,
                    accept_ranges,
                    content_length,
                );
                HttpResponse {
                    version,
                    status,
                    content_length,
                    accept_ranges,
                    response_body,
                    current_path,
                }
            },
            PathEntry::Directory => {
                let status = ResponseStatus::NotFound;
                let accept_ranges = AcceptRanges::NoRanges;
                let content_length = byte_len_of(NOT_FOUND_PAGE);
                let response_body = HttpResponse::compose(
                    version,
                    status,
                    accept_ranges,
                    content_length,
                );
                HttpResponse {
                    version,
                    status,
                    content_length,
                    accept_ranges,
                    response_body,
                    current_path,
                }
            },
            PathEntry::File(content) => {
                let status = ResponseStatus::OK;
                let accept_ranges = AcceptRanges::Bytes;
                let content_length = byte_len_of(content.as_str());
                let response_body = HttpResponse::compose(
                    version,
                    status,
                    accept_ranges,
                    content_length,
                ).concat(content.as_str());
                HttpResponse {
                    version,
                    status,
                    content_length,
                    accept_ranges,
                    response_body,
                    current_path,
                }
            },
        }
    }

    fn compose(
        version: Version,
        status: ResponseStatus,
        accept_ranges: AcceptRanges,
        content_length: usize,
    ) -> (s: String)
        ensures
            s@ == HttpResponse::head(version, status, accept_ranges, content_length as nat),
    {
        let length = decimal_of(content_length);
        String::from_str(version.as_str()).concat(" ").concat(status.as_str()).concat("\n").concat(
            accept_ranges.as_str(),
        ).concat("\ncontent-length: ").concat(length.as_str()).concat("\r\n\r\n")
    }

    /// The text that goes out.
    pub fn response_body(&self) -> (b: &str)
        ensures
            b@ == self@.body,
    {
        self.response_body.as_str()
    }

    /// The path that was asked for.
    pub fn current_path(&self) -> (p: &str)
        ensures
            p@ == self@.path,
    {
        self.current_path.as_str()
    }

    /// The version that the response names.
    pub fn version(&self) -> (v: Version)
        ensures
            v == self@.version,
    {
        self.version
    }

    /// The status that the response reports.
    pub fn status(&self) -> (s: ResponseStatus)
        ensures
            s == self@.status,
    {
        self.status
    }

    /// The length in bytes that the response announces.
    pub fn content_length(&self) -> (n: usize)
        ensures
            n == self@.content_length,
    {
        self.content_length
    }

    /// What the response says of byte ranges.
    pub fn accept_ranges(&self) -> (a: AcceptRanges)
        ensures
            a == self@.accept_ranges,
    {
        self.accept_ranges
    }
}

} // verus!
