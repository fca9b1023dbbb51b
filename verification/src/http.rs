use vstd::prelude::*;

use vstd::utf8::encode_utf8;

use crate::text::{decimal, push_decimal};

verus! {

/// The bytes of an ASCII text.
pub open spec fn ascii_bytes(s: Seq<char>) -> Seq<u8> {
    s.map_values(|c: char| c as u8)
}

/// Whether `buf` starts with `prefix`.
pub open spec fn starts_with(buf: Seq<u8>, prefix: Seq<u8>) -> bool {
    buf.len() >= prefix.len() && buf.subrange(0, prefix.len() as int) == prefix
}

/// How the web server answers a request.
#[derive(PartialEq, Eq, Structural, Clone, Copy, Debug)]
pub enum Route {
    /// The index page.
    Index,
    /// The index page, after a pause of five seconds.
    SlowIndex,
    /// The not-found page.
    NotFound,
}

/// The route for a request whose first bytes are `request`.
pub open spec fn route_of(request: Seq<u8>) -> Route {
    if starts_with(request, ascii_bytes("GET / HTTP/1.1\r\n"@)) {
        Route::Index
    } else if starts_with(request, ascii_bytes("GET /sleep HTTP/1.1\r\n"@)) {
        Route::SlowIndex
    } else {
        Route::NotFound
    }
}

/// The route goes by the request line alone: whatever headers and body
/// follow `GET / HTTP/1.1` or `GET /sleep HTTP/1.1`, the first gives the index
/// and the second the index after a pause; a request whose first byte is not
/// `G` gets the not-found page.
pub proof fn lemma_route_by_request_line(rest: Seq<u8>)
    ensures
        route_of(ascii_bytes("GET / HTTP/1.1\r\n"@) + rest) == Route::Index,
        route_of(ascii_bytes("GET /sleep HTTP/1.1\r\n"@) + rest) == Route::SlowIndex,
        rest.len() > 0 && rest[0] != 71u8 ==> route_of(rest) == Route::NotFound,
{
    reveal_strlit("GET / HTTP/1.1\r\n");
    reveal_strlit("GET /sleep HTTP/1.1\r\n");
    let root = ascii_bytes("GET / HTTP/1.1\r\n"@);
    let sleep = ascii_bytes("GET /sleep HTTP/1.1\r\n"@);
    assert(root.len() == 16);
    assert(sleep.len() == 21);
    assert((root + rest).subrange(0, 16) =~= root);
    assert((sleep + rest).subrange(0, 21) =~= sleep);
    assert((sleep + rest).subrange(0, 16)[5] == sleep[5]);
    assert(sleep[5] != root[5]);
    assert((sleep + rest).subrange(0, 16) != root);
    if rest.len() > 0 && rest[0] != 71u8 {
        assert(root[0] == 71u8);
        assert(sleep[0] == 71u8);
        if rest.len() >= 16 {
            assert(rest.subrange(0, 16)[0] != root[0]);
        }
        if rest.len() >= 21 {
            assert(rest.subrange(0, 21)[0] != sleep[0]);
        }
    }
}

/// Whether `buf` starts with the ASCII text `prefix`.
fn starts_with_text(buf: &[u8], prefix: &str) -> (res: bool)
    ensures
        res == starts_with(buf@, ascii_bytes(prefix@)),
{
    let n = prefix.unicode_len();
    if buf.len() < n {
        return false;
    }
    let mut i: usize = 0;
    while i < n
        invariant
            n == prefix@.len(),
            n <= buf@.len(),
            i <= n,
            forall|j: int| 0 <= j < i ==> buf@[j] == prefix@[j] as u8,
        decreases n - i,
    {
        let c = prefix.get_char(i);
        if buf[i] != c as u8 {
            assert(buf@.subrange(0, n as int)[i as int] != ascii_bytes(prefix@)[i as int]);
            return false;
        }
        i = i + 1;
    }
    assert(buf@.subrange(0, n as int) =~= ascii_bytes(prefix@));
    true
}

/// The route for the request read into `request`: `GET /` gives the index,
/// `GET /sleep` the index after a pause, anything else the not-found page.
pub fn route(request: &[u8]) -> (r: Route)
    ensures
        r == route_of(request@),
{
    if starts_with_text(request, "GET / HTTP/1.1\r\n") {
        Route::Index
    } else if starts_with_text(request, "GET /sleep HTTP/1.1\r\n") {
        Route::SlowIndex
    } else {
        Route::NotFound
    }
}

impl Route {
    /// The status line of the answer.
    pub fn status(&self) -> (s: &'static str)
        ensures
            s@ == match *self {
                Route::NotFound => "HTTP/1.1 404 NOT FOUND"@,
                _ => "HTTP/1.1 200 OK"@,
            },
    {
        match self {
            Route::NotFound => "HTTP/1.1 404 NOT FOUND",
            _ => "HTTP/1.1 200 OK",
        }
    }

    /// The file whose contents make the body of the answer.
    pub fn file_name(&self) -> (s: &'static str)
        ensures
            s@ == match *self {
                Route::NotFound => "404.html"@,
                _ => "index.html"@,
            },
    {
        match self {
            Route::NotFound => "404.html",
            _ => "index.html",
        }
    }

    /// Whether the answer waits five seconds first.
    pub fn pauses(&self) -> (b: bool)
        ensures
            b == (*self == Route::SlowIndex),
    {
        match self {
            Route::SlowIndex => true,
            _ => false,
        }
    }
}

/// The answer with status line `status` and body `contents`, whose length
/// header gives the body's length in UTF-8 bytes.
pub open spec fn response_text(status: Seq<char>, contents: Seq<char>) -> Seq<char> {
    status + "\r\nContent-Length: "@ + decimal(encode_utf8(contents).len()) + "\r\n\r\n"@ + contents
}

/// The answer with status line `status` and body `contents`.
pub fn http_response(status: &str, contents: &str) -> (r: String)
    requires
        encode_utf8(contents@).len() <= usize::MAX,
    ensures
        r@ == response_text(status@, contents@),
{
    let mut r = String::from_str(status);
    r.append("\r\nContent-Length: ");
    let n = contents.len();
    assert(n == encode_utf8(contents@).len());
    push_decimal(&mut r, n as u64);
    r.append("\r\n\r\n");
    r.append(contents);
    r
}

} // verus!
