//! The HTTP side of the server: which status and which resource answer a
//! request, the head of a page response, and the choice between a page and a
//! websocket upgrade.

use vstd::prelude::*;
use crate::http::Http_request;
use crate::text::{decimal, decimal_string};
use crate::websocket::{accept_key_spec, max_key_chars, response, upgrade_head};

verus! {

/// The request lines the server answers with a file, and the file's path.
pub open spec fn served_files_spec() -> Seq<(Seq<char>, Seq<char>)> {
    seq![
        ("GET / HTTP/1.1"@, "./res/hello.html"@),
        ("GET /bg.png HTTP/1.1"@, "./res/bg.png"@),
        ("GET /icon.png HTTP/1.1"@, "./res/icon.png"@),
        ("GET /script.js HTTP/1.1"@, "./res/script.js"@),
        ("GET /styles.css HTTP/1.1"@, "./res/styles.css"@),
        ("GET /monocle.png HTTP/1.1"@, "./res/monocle.png"@),
        ("GET /microscope.png HTTP/1.1"@, "./res/microscope.png"@),
        ("GET /binoculars.png HTTP/1.1"@, "./res/binoculars.png"@),
        ("GET /telescope.png HTTP/1.1"@, "./res/telescope.png"@),
        ("GET /heatwave.png HTTP/1.1"@, "./res/heatwave.png"@),
        ("GET /blizzard.png HTTP/1.1"@, "./res/blizzard.png"@),
        ("GET /univeye.png HTTP/1.1"@, "./res/univeye.png"@),
        ("GET /dragonfirerune.png HTTP/1.1"@, "./res/dragonfirerune.png"@),
        ("GET /hourglass.png HTTP/1.1"@, "./res/hourglass.png"@),
        ("GET /orbit.png HTTP/1.1"@, "./res/orbit.png"@),
        ("GET /blackhole.png HTTP/1.1"@, "./res/blackhole.png"@),
        ("GET /push.png HTTP/1.1"@, "./res/push.png"@),
        ("GET /speedup.png HTTP/1.1"@, "./res/speedup.png"@),
        ("GET /puddle.png HTTP/1.1"@, "./res/puddle.png"@),
        ("GET /heart.png HTTP/1.1"@, "./res/heart.png"@),
        ("GET /candytop.png HTTP/1.1"@, "./res/candytop.png"@)
    ]
}

/// The request lines the server answers with a file, and the file's path.
pub fn served_files() -> (table: Vec<(&'static str, &'static str)>)
    ensures
        table@.map_values(|e: (&str, &str)| (e.0@, e.1@)) == served_files_spec(),
{
    let table = vec![
        ("GET / HTTP/1.1", "./res/hello.html"),
        ("GET /bg.png HTTP/1.1", "./res/bg.png"),
        ("GET /icon.png HTTP/1.1", "./res/icon.png"),
        ("GET /script.js HTTP/1.1", "./res/script.js"),
        ("GET /styles.css HTTP/1.1", "./res/styles.css"),
        ("GET /monocle.png HTTP/1.1", "./res/monocle.png"),
        ("GET /microscope.png HTTP/1.1", "./res/microscope.png"),
        ("GET /binoculars.png HTTP/1.1", "./res/binoculars.png"),
        ("GET /telescope.png HTTP/1.1", "./res/telescope.png"),
        ("GET /heatwave.png HTTP/1.1", "./res/heatwave.png"),
        ("GET /blizzard.png HTTP/1.1", "./res/blizzard.png"),
        ("GET /univeye.png HTTP/1.1", "./res/univeye.png"),
        ("GET /dragonfirerune.png HTTP/1.1", "./res/dragonfirerune.png"),
        ("GET /hourglass.png HTTP/1.1", "./res/hourglass.png"),
        ("GET /orbit.png HTTP/1.1", "./res/orbit.png"),
        ("GET /blackhole.png HTTP/1.1", "./res/blackhole.png"),
        ("GET /push.png HTTP/1.1", "./res/push.png"),
        ("GET /speedup.png HTTP/1.1", "./res/speedup.png"),
        ("GET /puddle.png HTTP/1.1", "./res/puddle.png"),
        ("GET /heart.png HTTP/1.1", "./res/heart.png"),
        ("GET /candytop.png HTTP/1.1", "./res/candytop.png")
    ];
    assert(table@.map_values(|e: (&str, &str)| (e.0@, e.1@)) =~= served_files_spec());
    table
}

/// The status line of a served request.
pub open spec fn status_ok() -> Seq<char> {
    "HTTP/1.1 200 OK"@
}

/// The status line of a request for something the server does not have.
pub open spec fn status_not_found() -> Seq<char> {
    "HTTP/1.1 404 NOT FOUND"@
}

/// The page sent with a `404` status.
pub open spec fn not_found_page() -> Seq<char> {
    "./res/404.html"@
}

/// The request line of a CORS preflight, answered with an empty body.
pub open spec fn preflight_line() -> Seq<char> {
    "OPTIONS / HTTP/1.1"@
}

/// The file for `line` in `table[i..]`, at its first entry for that line.
pub open spec fn lookup_from(table: Seq<(Seq<char>, Seq<char>)>, line: Seq<char>, i: int) -> Option<Seq<char>>
    decreases table.len() - i,
{
    if i < 0 || i >= table.len() {
        None
    } else if table[i].0 == line {
        Some(table[i].1)
    } else {
        lookup_from(table, line, i + 1)
    }
}

/// The status line and the file (if any) that answer the request line `line`:
/// a preflight gets `200` and no body, a served request line `200` and its
/// file, anything else `404` and the not-found page.
pub open spec fn route_spec(line: Seq<char>) -> (Seq<char>, Option<Seq<char>>) {
    if line == preflight_line() {
        (status_ok(), None)
    } else {
        match lookup_from(served_files_spec(), line, 0) {
            Some(path) => (status_ok(), Some(path)),
            None => (status_not_found(), Some(not_found_page())),
        }
    }
}

/// The status line, and the path of the file to send (none for an empty
/// body), that answer a request with the request line `request_line`.
pub fn route(request_line: &String) -> (r: (String, Option<String>))
    ensures
        r.0@ == route_spec(request_line@).0,
        match (r.1, route_spec(request_line@).1) {
            (Some(p), Some(q)) => p@ == q,
            (None, None) => true,
            _ => false,
        },
{
    if *request_line == "OPTIONS / HTTP/1.1".to_owned() {
        return ("HTTP/1.1 200 OK".to_owned(), None);
    }
    let table = served_files();
    let ghost spec_table = served_files_spec();
    let mut i: usize = 0;
    while i < table.len()
        invariant
            i <= table.len(),
            table@.map_values(|e: (&str, &str)| (e.0@, e.1@)) == spec_table,
            spec_table == served_files_spec(),
            request_line@ != preflight_line(),
            lookup_from(spec_table, request_line@, 0) == lookup_from(spec_table, request_line@, i as int),
        decreases table.len() - i,
    {
        assert(spec_table[i as int] == (table@[i as int].0@, table@[i as int].1@));
        if *request_line == table[i].0.to_owned() {
            assert(lookup_from(spec_table, request_line@, i as int) == Some(table@[i as int].1@));
            assert(request_line@ != preflight_line());
            assert(route_spec(request_line@).1 == Some(table@[i as int].1@));
            return ("HTTP/1.1 200 OK".to_owned(), Some(table[i].1.to_owned()));
        }
        i = i + 1;
    }
    ("HTTP/1.1 404 NOT FOUND".to_owned(), Some("./res/404.html".to_owned()))
}

/// The headers sent after the status line of a page response.
pub open spec fn page_headers_tail() -> Seq<char> {
    "\r\nAccess-Control-Allow-Origin: *\r\nAccess-Control-Allow-Headers: content-type\r\n\r\n"@
}

/// The head of a page response: the status line, the body's length and the
/// CORS headers, ending with the empty line before the body.
pub fn response_head(status_line: &String, content_length: usize) -> (head: String)
    ensures
        head@ == status_line@ + "\r\nContent-Length: "@ + decimal(content_length as nat) + page_headers_tail(),
{
    let mut head = status_line.clone();
    head.append("\r\nContent-Length: ");
    let digits = decimal_string(content_length as u64);
    head.append(digits.as_str());
    head.append("\r\nAccess-Control-Allow-Origin: *\r\nAccess-Control-Allow-Headers: content-type\r\n\r\n");
    head
}

/// How the server answers a request.
#[derive(Debug, PartialEq)]
pub enum Reply {
    /// Accept the websocket upgrade with this response, then speak websocket.
    Upgrade(String),
    /// Send a page: this status line, and the file at this path as the body (none: empty).
    Page { status_line: String, resource: Option<String> },
}

/// The header that asks for a websocket upgrade.
pub open spec fn websocket_key_header() -> Seq<char> {
    "Sec-WebSocket-Key"@
}

/// Header values are short enough to hash.
pub open spec fn header_values_bounded(request: Http_request) -> bool {
    forall|i: int| 0 <= i < request.headers@.len() ==> (#[trigger] request.headers@[i]).1@.len() < max_key_chars()
}

/// How the server answers `request`: where it carries a `Sec-WebSocket-Key`
/// header, with the upgrade response for the first such key; otherwise with
/// the page its request line routes to.
pub fn reply_to(request: &Http_request) -> (r: Reply)
    requires
        header_values_bounded(*request),
    ensures
        (exists|i: int| 0 <= i < request.headers@.len() && request.headers@[i].0@ == websocket_key_header())
            ==> (r matches Reply::Upgrade(text) && exists|i: int|
            0 <= i < request.headers@.len() && request.headers@[i].0@ == websocket_key_header()
                && (forall|j: int| 0 <= j < i ==> request.headers@[j].0@ != websocket_key_header())
                && text@ == upgrade_head() + accept_key_spec(request.headers@[i].1@) + "\n\n"@),
        (forall|i: int| 0 <= i < request.headers@.len() ==> request.headers@[i].0@ != websocket_key_header())
            ==> (r matches Reply::Page { status_line, resource } && status_line@ == route_spec(
            request.request_line@,
        ).0 && match (resource, route_spec(request.request_line@).1) {
            (Some(p), Some(q)) => p@ == q,
            (None, None) => true,
            _ => false,
        }),
{
    let name = "Sec-WebSocket-Key".to_owned();
    match request.get_header(name) {
        Some(key) => {
            Reply::Upgrade(response(key.as_str()))
        },
        None => {
            let (status_line, resource) = route(&request.request_line);
            Reply::Page { status_line, resource }
        },
    }
}

/// The request line asks for the page at `/`, answered with `./res/hello.html`,
/// or it is `GET /<name> HTTP/1.1` and `path` is `./res/<name>`.
pub open spec fn names_its_file(line: Seq<char>, path: Seq<char>) -> bool {
    ||| line == "GET / HTTP/1.1"@ && path == "./res/hello.html"@
    ||| {
        &&& line.len() >= 14
        &&& line.subrange(0, 5) == "GET /"@
        &&& line.subrange(line.len() - 9, line.len() as int) == " HTTP/1.1"@
        &&& path == "./res/"@ + line.subrange(5, line.len() - 9)
    }
}

/// Entry `i` of the served table sends the file that its request line names.
proof fn lemma_entry_names_its_file(i: int)
    requires
        0 <= i < served_files_spec().len(),
    ensures
        names_its_file(served_files_spec()[i].0, served_files_spec()[i].1),
{
    let t = served_files_spec();
    reveal_strlit("GET /");
    reveal_strlit(" HTTP/1.1");
    reveal_strlit("./res/");
    if i == 0 {
        reveal_strlit("GET / HTTP/1.1");
        reveal_strlit("./res/hello.html");
    }
    if i == 1 {
        reveal_strlit("GET /bg.png HTTP/1.1");
        reveal_strlit("./res/bg.png");
        assert(t[i].0.subrange(0, 5) =~= "GET /"@);
        assert(t[i].0.subrange(t[i].0.len() - 9, t[i].0.len() as int) =~= " HTTP/1.1"@);
        assert(t[i].1 =~= "./res/"@ + t[i].0.subrange(5, t[i].0.len() - 9));
    }
    if i == 2 {
        reveal_strlit("GET /icon.png HTTP/1.1");
        reveal_strlit("./res/icon.png");
        assert(t[i].0.subrange(0, 5) =~= "GET /"@);
        assert(t[i].0.subrange(t[i].0.len() - 9, t[i].0.len() as int) =~= " HTTP/1.1"@);
        assert(t[i].1 =~= "./res/"@ + t[i].0.subrange(5, t[i].0.len() - 9));
    }
    if i == 3 {
        reveal_strlit("GET /script.js HTTP/1.1");
        reveal_strlit("./res/script.js");
        assert(t[i].0.subrange(0, 5) =~= "GET /"@);
        assert(t[i].0.subrange(t[i].0.len() - 9, t[i].0.len() as int) =~= " HTTP/1.1"@);
        assert(t[i].1 =~= "./res/"@ + t[i].0.subrange(5, t[i].0.len() - 9));
    }
    if i == 4 {
        reveal_strlit("GET /styles.css HTTP/1.1");
        reveal_strlit("./res/styles.css");
        assert(t[i].0.subrange(0, 5) =~= "GET /"@);
        assert(t[i].0.subrange(t[i].0.len() - 9, t[i].0.len() as int) =~= " HTTP/1.1"@);
        assert(t[i].1 =~= "./res/"@ + t[i].0.subrange(5, t[i].0.len() - 9));
    }
    if i == 5 {
        reveal_strlit("GET /monocle.png HTTP/1.1");
        reveal_strlit("./res/monocle.png");
        assert(t[i].0.subrange(0, 5) =~= "GET /"@);
        assert(t[i].0.subrange(t[i].0.len() - 9, t[i].0.len() as int) =~= " HTTP/1.1"@);
        assert(t[i].1 =~= "./res/"@ + t[i].0.subrange(5, t[i].0.len() - 9));
    }
    if i == 6 {
        reveal_strlit("GET /microscope.png HTTP/1.1");
        reveal_strlit("./res/microscope.png");
        assert(t[i].0.subrange(0, 5) =~= "GET /"@);
        assert(t[i].0.subrange(t[i].0.len() - 9, t[i].0.len() as int) =~= " HTTP/1.1"@);
        assert(t[i].1 =~= "./res/"@ + t[i].0.subrange(5, t[i].0.len() - 9));
    }
    if i == 7 {
        reveal_strlit("GET /binoculars.png HTTP/1.1");
        reveal_strlit("./res/binoculars.png");
        assert(t[i].0.subrange(0, 5) =~= "GET /"@);
        assert(t[i].0.subrange(t[i].0.len() - 9, t[i].0.len() as int) =~= " HTTP/1.1"@);
        assert(t[i].1 =~= "./res/"@ + t[i].0.subrange(5, t[i].0.len() - 9));
    }
    if i == 8 {
        reveal_strlit("GET /telescope.png HTTP/1.1");
        reveal_strlit("./res/telescope.png");
        assert(t[i].0.subrange(0, 5) =~= "GET /"@);
        assert(t[i].0.subrange(t[i].0.len() - 9, t[i].0.len() as int) =~= " HTTP/1.1"@);
        assert(t[i].1 =~= "./res/"@ + t[i].0.subrange(5, t[i].0.len() - 9));
    }
    if i == 9 {
        reveal_strlit("GET /heatwave.png HTTP/1.1");
        reveal_strlit("./res/heatwave.png");
        assert(t[i].0.subrange(0, 5) =~= "GET /"@);
        assert(t[i].0.subrange(t[i].0.len() - 9, t[i].0.len() as int) =~= " HTTP/1.1"@);
        assert(t[i].1 =~= "./res/"@ + t[i].0.subrange(5, t[i].0.len() - 9));
    }
    if i == 10 {
        reveal_strlit("GET /blizzard.png HTTP/1.1");
        reveal_strlit("./res/blizzard.png");
        assert(t[i].0.subrange(0, 5) =~= "GET /"@);
        assert(t[i].0.subrange(t[i].0.len() - 9, t[i].0.len() as int) =~= " HTTP/1.1"@);
        assert(t[i].1 =~= "./res/"@ + t[i].0.subrange(5, t[i].0.len() - 9));
    }
    if i == 11 {
        reveal_strlit("GET /univeye.png HTTP/1.1");
        reveal_strlit("./res/univeye.png");
        assert(t[i].0.subrange(0, 5) =~= "GET /"@);
        assert(t[i].0.subrange(t[i].0.len() - 9, t[i].0.len() as int) =~= " HTTP/1.1"@);
        assert(t[i].1 =~= "./res/"@ + t[i].0.subrange(5, t[i].0.len() - 9));
    }
    if i == 12 {
        reveal_strlit("GET /dragonfirerune.png HTTP/1.1");
        reveal_strlit("./res/dragonfirerune.png");
        assert(t[i].0.subrange(0, 5) =~= "GET /"@);
        assert(t[i].0.subrange(t[i].0.len() - 9, t[i].0.len() as int) =~= " HTTP/1.1"@);
        assert(t[i].1 =~= "./res/"@ + t[i].0.subrange(5, t[i].0.len() - 9));
    }
    if i == 13 {
        reveal_strlit("GET /hourglass.png HTTP/1.1");
        reveal_strlit("./res/hourglass.png");
        assert(t[i].0.subrange(0, 5) =~= "GET /"@);
        assert(t[i].0.subrange(t[i].0.len() - 9, t[i].0.len() as int) =~= " HTTP/1.1"@);
        assert(t[i].1 =~= "./res/"@ + t[i].0.subrange(5, t[i].0.len() - 9));
    }
    if i == 14 {
        reveal_strlit("GET /orbit.png HTTP/1.1");
        reveal_strlit("./res/orbit.png");
        assert(t[i].0.subrange(0, 5) =~= "GET /"@);
        assert(t[i].0.subrange(t[i].0.len() - 9, t[i].0.len() as int) =~= " HTTP/1.1"@);
        assert(t[i].1 =~= "./res/"@ + t[i].0.subrange(5, t[i].0.len() - 9));
    }
    if i == 15 {
        reveal_strlit("GET /blackhole.png HTTP/1.1");
        reveal_strlit("./res/blackhole.png");
        assert(t[i].0.subrange(0, 5) =~= "GET /"@);
        assert(t[i].0.subrange(t[i].0.len() - 9, t[i].0.len() as int) =~= " HTTP/1.1"@);
        assert(t[i].1 =~= "./res/"@ + t[i].0.subrange(5, t[i].0.len() - 9));
    }
    if i == 16 {
        reveal_strlit("GET /push.png HTTP/1.1");
        reveal_strlit("./res/push.png");
        assert(t[i].0.subrange(0, 5) =~= "GET /"@);
        assert(t[i].0.subrange(t[i].0.len() - 9, t[i].0.len() as int) =~= " HTTP/1.1"@);
        assert(t[i].1 =~= "./res/"@ + t[i].0.subrange(5, t[i].0.len() - 9));
    }
    if i == 17 {
        reveal_strlit("GET /speedup.png HTTP/1.1");
        reveal_strlit("./res/speedup.png");
        assert(t[i].0.subrange(0, 5) =~= "GET /"@);
        assert(t[i].0.subrange(t[i].0.len() - 9, t[i].0.len() as int) =~= " HTTP/1.1"@);
        assert(t[i].1 =~= "./res/"@ + t[i].0.subrange(5, t[i].0.len() - 9));
    }
    if i == 18 {
        reveal_strlit("GET /puddle.png HTTP/1.1");
        reveal_strlit("./res/puddle.png");
        assert(t[i].0.subrange(0, 5) =~= "GET /"@);
        assert(t[i].0.subrange(t[i].0.len() - 9, t[i].0.len() as int) =~= " HTTP/1.1"@);
        assert(t[i].1 =~= "./res/"@ + t[i].0.subrange(5, t[i].0.len() - 9));
    }
    if i == 19 {
        reveal_strlit("GET /heart.png HTTP/1.1");
        reveal_strlit("./res/heart.png");
        assert(t[i].0.subrange(0, 5) =~= "GET /"@);
        assert(t[i].0.subrange(t[i].0.len() - 9, t[i].0.len() as int) =~= " HTTP/1.1"@);
        assert(t[i].1 =~= "./res/"@ + t[i].0.subrange(5, t[i].0.len() - 9));
    }
    if i == 20 {
        reveal_strlit("GET /candytop.png HTTP/1.1");
        reveal_strlit("./res/candytop.png");
        assert(t[i].0.subrange(0, 5) =~= "GET /"@);
        assert(t[i].0.subrange(t[i].0.len() - 9, t[i].0.len() as int) =~= " HTTP/1.1"@);
        assert(t[i].1 =~= "./res/"@ + t[i].0.subrange(5, t[i].0.len() - 9));
    }
}

/// A looked-up file is the file of an entry for that line.
proof fn lemma_lookup_entry(table: Seq<(Seq<char>, Seq<char>)>, line: Seq<char>, i: int)
    requires
        0 <= i,
    ensures
        lookup_from(table, line, i) matches Some(p) ==> exists|k: int| i <= k < table.len() && #[trigger] table[k] == (line, p),
    decreases table.len() - i,
{
    if i < table.len() && table[i].0 != line {
        lemma_lookup_entry(table, line, i + 1);
    }
    if i < table.len() && table[i].0 == line {
        assert(table[i] == (line, table[i].1));
    }
}

/// Every request the server answers with a file is for that very file: the
/// request line `GET /<name> HTTP/1.1` gets `./res/<name>`, and `GET / HTTP/1.1`
/// gets `./res/hello.html`. The file depends on the name asked for alone.
pub proof fn lemma_route_serves_named_file(line: Seq<char>)
    ensures
        route_spec(line).1 matches Some(path) ==> (route_spec(line).0 == status_ok() ==> names_its_file(line, path)),
{
    lemma_lookup_entry(served_files_spec(), line, 0);
    if let Some(path) = lookup_from(served_files_spec(), line, 0) {
        let k = choose|k: int| 0 <= k < served_files_spec().len() && #[trigger] served_files_spec()[k] == (line, path);
        lemma_entry_names_its_file(k);
    }
    if line == preflight_line() {
    } else if lookup_from(served_files_spec(), line, 0) is None {
        reveal_strlit("HTTP/1.1 200 OK");
        reveal_strlit("HTTP/1.1 404 NOT FOUND");
        assert(status_ok()[9] != status_not_found()[9]);
    }
}

} // verus!
