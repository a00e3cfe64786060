//! The status page: the census, media types by file extension, and what to
//! reply to a request.
use vstd::prelude::*;
use vstd::string::{StrSliceExecFns, StringExecFns};

verus! {

/// The census that the status endpoint reports.
#[derive(Clone, Copy, Debug, PartialEq, Eq, Structural)]
pub struct PlantStat {
    /// How many plants are alive.
    pub num_plant: u32,
}

/// A media type: `type_/subtype`, with parameters as pairs of name and value.
#[derive(Clone, Debug, PartialEq, Eq)]
pub struct MediaType {
    pub type_: String,
    pub subtype: String,
    pub parameters: Vec<(String, String)>,
}

/// A `MediaType` as a mathematical value.
#[verifier::ext_equal]
pub struct MediaTypeView {
    pub type_: Seq<char>,
    pub subtype: Seq<char>,
    pub parameters: Seq<(Seq<char>, Seq<char>)>,
}

impl View for MediaType {
    type V = MediaTypeView;

    open spec fn view(&self) -> MediaTypeView {
        MediaTypeView {
            type_: self.type_@,
            subtype: self.subtype@,
            parameters: self.parameters@.map_values(|p: (String, String)| (p.0@, p.1@)),
        }
    }
}

/// The one parameter of a text type: the character set UTF-8.
pub open spec fn utf8() -> Seq<(Seq<char>, Seq<char>)> {
    seq![("charset"@, "UTF-8"@)]
}

/// The media type `type_/subtype` in UTF-8.
pub open spec fn text_type(type_: Seq<char>, subtype: Seq<char>) -> MediaTypeView {
    MediaTypeView { type_, subtype, parameters: utf8() }
}

/// The index of the last `.` among the first `n` characters of `s`, or -1
/// where there is none.
pub open spec fn last_dot(s: Seq<char>, n: int) -> int
    decreases n,
{
    if n <= 0 {
        -1
    } else if s[n - 1] == '.' {
        n - 1
    } else {
        last_dot(s, n - 1)
    }
}

/// What follows the last `.` of a path; the whole path where it has none.
pub open spec fn extension(path: Seq<char>) -> Seq<char> {
    path.subrange(last_dot(path, path.len() as int) + 1, path.len() as int)
}

/// The media type that a path's extension stands for: scripts, style sheets
/// and PNG images are known, anything else is plain text.
pub open spec fn media_type_of(path: Seq<char>) -> MediaTypeView {
    let ext = extension(path);
    if ext == "js"@ {
        text_type("application"@, "javascript"@)
    } else if ext == "css"@ {
        text_type("text"@, "css"@)
    } else if ext == "png"@ {
        MediaTypeView { type_: "image"@, subtype: "png"@, parameters: Seq::empty() }
    } else {
        text_type("text"@, "plain"@)
    }
}

/// Whether the characters of `s` from index `from` on spell `word`.
fn rest_is(s: &str, from: usize, word: &str) -> (r: bool)
    requires
        from <= s@.len(),
    ensures
        r == (s@.subrange(from as int, s@.len() as int) == word@),
{
    let n = s.unicode_len();
    let m = word.unicode_len();
    if n - from != m {
        return false;
    }
    let mut k: usize = 0;
    while k < m
        invariant
            k <= m,
            m == word@.len(),
            n == s@.len(),
            n - from == m,
            forall|j: int| 0 <= j < k ==> s@[from + j] == word@[j],
        decreases m - k,
    {
        if s.get_char(from + k) != word.get_char(k) {
            assert(s@.subrange(from as int, n as int)[k as int] != word@[k as int]);
            return false;
        }
        k = k + 1;
    }
    assert(s@.subrange(from as int, n as int) =~= word@);
    true
}

/// Whether `s` begins with `word`.
fn starts_with(s: &str, word: &str) -> (r: bool)
    ensures
        r == (word@.len() <= s@.len() && s@.subrange(0, word@.len() as int) == word@),
{
    let n = s.unicode_len();
    let m = word.unicode_len();
    if n < m {
        return false;
    }
    let mut k: usize = 0;
    while k < m
        invariant
            k <= m,
            m == word@.len(),
            n == s@.len(),
            m <= n,
            forall|j: int| 0 <= j < k ==> s@[j] == word@[j],
        decreases m - k,
    {
        if s.get_char(k) != word.get_char(k) {
            assert(s@.subrange(0, m as int)[k as int] != word@[k as int]);
            return false;
        }
        k = k + 1;
    }
    assert(s@.subrange(0, m as int) =~= word@);
    true
}

/// The index at which the extension of `path` begins.
fn extension_start(path: &str) -> (from: usize)
    ensures
        from == last_dot(path@, path@.len() as int) + 1,
        from <= path@.len(),
{
    let n = path.unicode_len();
    let mut i: usize = n;
    while i > 0
        invariant
            i <= n,
            n == path@.len(),
            last_dot(path@, n as int) == last_dot(path@, i as int),
        decreases i,
    {
        if path.get_char(i - 1) == '.' {
            return i;
        }
        i = i - 1;
    }
    0
}

/// The character set parameter of a text type.
fn utf8_parameter() -> (p: Vec<(String, String)>)
    ensures
        p@.map_values(|p: (String, String)| (p.0@, p.1@)) == utf8(),
{
    let mut p: Vec<(String, String)> = Vec::new();
    p.push((String::from_str("charset"), String::from_str("UTF-8")));
    assert(p@.map_values(|p: (String, String)| (p.0@, p.1@)) =~= utf8());
    p
}

/// The media type `type_/subtype` in UTF-8.
fn text(type_: &str, subtype: &str) -> (m: MediaType)
    ensures
        m@ == text_type(type_@, subtype@),
{
    MediaType {
        type_: String::from_str(type_),
        subtype: String::from_str(subtype),
        parameters: utf8_parameter(),
    }
}

/// The media type to serve the file at `path` as, by its extension.
pub fn path_to_media_type(path: &String) -> (m: MediaType)
    ensures
        m@ == media_type_of(path@),
{
    let s = path.as_str();
    let from = extension_start(s);
    if rest_is(s, from, "js") {
        text("application", "javascript")
    } else if rest_is(s, from, "css") {
        text("text", "css")
    } else if rest_is(s, from, "png") {
        let m = MediaType {
            type_: String::from_str("image"),
            subtype: String::from_str("png"),
            parameters: Vec::new(),
        };
        assert(m@.parameters =~= Seq::empty());
        m
    } else {
        text("text", "plain")
    }
}

/// Where the body of a reply comes from.
#[derive(Clone, Debug, PartialEq, Eq)]
pub enum Source {
    /// The census, to be encoded as JSON.
    Stat(PlantStat),
    /// The file at this path; an empty body where it cannot be read.
    File(String),
}

/// A `Source` as a mathematical value.
#[verifier::ext_equal]
pub enum SourceView {
    Stat(PlantStat),
    File(Seq<char>),
}

impl View for Source {
    type V = SourceView;

    open spec fn view(&self) -> SourceView {
        match self {
            Source::Stat(s) => SourceView::Stat(*s),
            Source::File(p) => SourceView::File(p@),
        }
    }
}

/// What to answer a request with: the type of the body and where to take it from.
#[derive(Clone, Debug, PartialEq, Eq)]
pub struct Reply {
    pub media_type: MediaType,
    pub source: Source,
}

/// The reply to a request for `uri`. Anything under `/api/` gets the census
/// as JSON; `/` gets the index page; anything else gets the file of that
/// name under `http_static`, typed by its extension.
pub open spec fn reply_to(uri: Seq<char>) -> (MediaTypeView, SourceView) {
    if "/api/"@.len() <= uri.len() && uri.subrange(0, "/api/"@.len() as int) == "/api/"@ {
        (text_type("application"@, "json"@), SourceView::Stat(PlantStat { num_plant: 123 }))
    } else if uri == "/"@ {
        (text_type("text"@, "html"@), SourceView::File("http_static/index.html"@))
    } else {
        (media_type_of("http_static"@ + uri), SourceView::File("http_static"@ + uri))
    }
}

/// The server of the status page and of the files beside it.
#[derive(Clone, Copy, Debug)]
pub struct GenesisServer;

impl GenesisServer {
    /// Decides the reply to a request for `request_uri`. Reading the file and
    /// sending the reply are the caller's.
    pub fn handle_request(&self, request_uri: &str) -> (reply: Reply)
        ensures
            (reply.media_type@, reply.source@) == reply_to(request_uri@),
    {
        if starts_with(request_uri, "/api/") {
            Reply {
                media_type: text("application", "json"),
                source: Source::Stat(PlantStat { num_plant: 123 }),
            }
        } else if rest_is(request_uri, 0, "/") {
            assert(request_uri@.subrange(0, request_uri@.len() as int) =~= request_uri@);
            Reply {
                media_type: text("text", "html"),
                source: Source::File(String::from_str("http_static/index.html")),
            }
        } else {
            assert(request_uri@.subrange(0, request_uri@.len() as int) =~= request_uri@);
            let file_path = String::from_str("http_static").concat(request_uri);
            let media_type = path_to_media_type(&file_path);
            Reply { media_type, source: Source::File(file_path) }
        }
    }
}

} // verus!
