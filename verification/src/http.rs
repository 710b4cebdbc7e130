//! The HTTP requests the server answers: request line, headers and body lines.

use vstd::prelude::*;
use crate::text::{chars_of, find_at, find_from, find_spec, lemma_find_from, lemma_find_from_first, occurs_at, string_of_range};

verus! {

/// The lines of `s` from index `k` on, as `str::lines` yields them: cut after each
/// `\n`, with the `\n` and a `\r` just before it removed; a final line ending
/// adds no empty line.
pub open spec fn lines_from(s: Seq<char>, k: int) -> Seq<Seq<char>>
    decreases (if k < s.len() { s.len() - k } else { 0 }),
{
    if k < 0 || k >= s.len() {
        Seq::empty()
    } else {
        proof {
            lemma_find_from(s, seq!['\n'], k);
        }
        match find_from(s, seq!['\n'], k) {
            None => seq![s.subrange(k, s.len() as int)],
            Some(nl) => seq![strip_cr(s.subrange(k, nl))] + lines_from(s, nl + 1),
        }
    }
}

/// `line` without a final `\r`.
pub open spec fn strip_cr(line: Seq<char>) -> Seq<char> {
    if line.len() > 0 && line.last() == '\r' {
        line.drop_last()
    } else {
        line
    }
}

/// The lines of `s`, as `str::lines` yields them.
pub open spec fn lines_spec(s: Seq<char>) -> Seq<Seq<char>> {
    lines_from(s, 0)
}

/// The lines of the text `s`, as `str::lines` yields them.
pub fn lines(s: &Vec<char>) -> (r: Vec<Vec<char>>)
    ensures
        r@.map_values(|l: Vec<char>| l@) == lines_spec(s@),
{
    let newline = vec!['\n'];
    assert(newline@ =~= seq!['\n']);
    let mut out: Vec<Vec<char>> = Vec::new();
    let mut k: usize = 0;
    while k < s.len()
        invariant
            newline@ == seq!['\n'],
            k <= s.len(),
            lines_spec(s@) == out@.map_values(|l: Vec<char>| l@) + lines_from(s@, k as int),
        decreases s.len() - k,
    {
        proof {
            lemma_find_from(s@, newline@, k as int);
        }
        let ghost before = out@;
        match find_at(s, &newline, k) {
            None => {
                let line = slice_range(s, k, s.len());
                out.push(line);
                assert(out@.map_values(|l: Vec<char>| l@) =~= before.map_values(|l: Vec<char>| l@).push(
                    s@.subrange(k as int, s.len() as int),
                ));
                assert(lines_spec(s@) =~= out@.map_values(|l: Vec<char>| l@));
                return out;
            },
            Some(nl) => {
                let end = if nl > k && s[nl - 1] == '\r' {
                    nl - 1
                } else {
                    nl
                };
                let line = slice_range(s, k, end);
                assert(line@ =~= strip_cr(s@.subrange(k as int, nl as int)));
                out.push(line);
                assert(out@.map_values(|l: Vec<char>| l@) =~= before.map_values(|l: Vec<char>| l@).push(
                    line@,
                ));
                k = nl + 1;
            },
        }
    }
    assert(lines_spec(s@) =~= out@.map_values(|l: Vec<char>| l@));
    out
}

/// The characters `v[from..to]`.
pub fn slice_range(v: &Vec<char>, from: usize, to: usize) -> (r: Vec<char>)
    requires
        from <= to <= v.len(),
    ensures
        r@ == v@.subrange(from as int, to as int),
{
    let mut r: Vec<char> = Vec::new();
    let mut i = from;
    while i < to
        invariant
            from <= i <= to <= v.len(),
            r@ == v@.subrange(from as int, i as int),
        decreases to - i,
    {
        r.push(v[i]);
        i = i + 1;
        assert(r@ =~= v@.subrange(from as int, i as int));
    }
    r
}

/// `a` and `b` hold the same characters.
pub fn same_chars(a: &Vec<char>, b: &Vec<char>) -> (r: bool)
    ensures
        r == (a@ == b@),
{
    if a.len() != b.len() {
        return false;
    }
    let mut i: usize = 0;
    while i < a.len()
        invariant
            a.len() == b.len(),
            i <= a.len(),
            forall|j: int| 0 <= j < i ==> a@[j] == b@[j],
        decreases a.len() - i,
    {
        if a[i] != b[i] {
            return false;
        }
        i = i + 1;
    }
    assert(a@ =~= b@);
    true
}

/// The separator between a header's name and its value.
pub open spec fn header_separator() -> Seq<char> {
    seq![':', ' ']
}

/// A header line holds the separator `": "`.
pub open spec fn has_header_separator(line: Seq<char>) -> bool {
    find_spec(line, header_separator()) is Some
}

/// A header line cut at its first `": "` into name and value.
pub open spec fn header_split(line: Seq<char>) -> (Seq<char>, Seq<char>) {
    let i = find_spec(line, header_separator()).unwrap();
    (line.subrange(0, i), line.subrange(i + 2, line.len() as int))
}

/// The headers and body lines read from `lines[i..]`: lines equal to the request
/// line `first` are passed over, an empty line starts the body (and is passed
/// over), other lines are headers before the body starts and body lines after.
pub open spec fn read_lines(
    lines: Seq<Seq<char>>,
    first: Seq<char>,
    i: int,
    in_body: bool,
) -> (Seq<(Seq<char>, Seq<char>)>, Seq<Seq<char>>)
    decreases lines.len() - i,
{
    if i < 0 || i >= lines.len() {
        (Seq::empty(), Seq::empty())
    } else {
        let line = lines[i];
        if line == first {
            read_lines(lines, first, i + 1, in_body)
        } else if line.len() == 0 {
            read_lines(lines, first, i + 1, true)
        } else if !in_body {
            let rest = read_lines(lines, first, i + 1, in_body);
            (seq![header_split(line)] + rest.0, rest.1)
        } else {
            let rest = read_lines(lines, first, i + 1, in_body);
            (rest.0, seq![line] + rest.1)
        }
    }
}

/// Every line that `read_lines` takes as a header holds `": "` (where one does
/// not, `parse` panics).
pub open spec fn header_lines_ok(lines: Seq<Seq<char>>, first: Seq<char>, i: int, in_body: bool) -> bool
    decreases lines.len() - i,
{
    if i < 0 || i >= lines.len() {
        true
    } else {
        let line = lines[i];
        if line == first {
            header_lines_ok(lines, first, i + 1, in_body)
        } else if line.len() == 0 {
            header_lines_ok(lines, first, i + 1, true)
        } else if !in_body {
            has_header_separator(line) && header_lines_ok(lines, first, i + 1, in_body)
        } else {
            header_lines_ok(lines, first, i + 1, in_body)
        }
    }
}

/// A text holds a parsable request: it has no lines, or its header lines all hold `": "`.
pub open spec fn parse_ok(s: Seq<char>) -> bool {
    let lines = lines_spec(s);
    lines.len() > 0 ==> header_lines_ok(lines, lines[0], 1, false)
}

/// The headers as pairs of character sequences.
pub open spec fn headers_view(headers: Seq<(String, String)>) -> Seq<(Seq<char>, Seq<char>)> {
    headers.map_values(|h: (String, String)| (h.0@, h.1@))
}

/// The lines as character sequences.
pub open spec fn strings_view(lines: Seq<String>) -> Seq<Seq<char>> {
    lines.map_values(|l: String| l@)
}

/// The text of the error for a request without lines.
pub open spec fn no_request_line() -> Seq<char> {
    seq!['n', 'o', ' ', 'r', 'e', 'q', 'u', 'e', 's', 't', ' ', 'l', 'i', 'n', 'e']
}

/// An HTTP request: its first line, its headers and the lines of its body.
#[allow(non_camel_case_types)]
#[derive(Debug, PartialEq)]
pub struct Http_request {
    pub request_line: String,
    pub headers: Vec<(String, String)>,
    pub body: Vec<String>,
}

impl Http_request {
    /// A request with an empty request line, no headers and no body.
    pub fn new() -> (r: Http_request)
        ensures
            r.request_line@.len() == 0,
            r.headers@.len() == 0,
            r.body@.len() == 0,
    {
        Http_request { request_line: String::new(), headers: Vec::new(), body: Vec::new() }
    }

    /// A header line cut at its first `": "` into name and value.
    pub fn parse_header(header: &String) -> (r: (String, String))
        requires
            has_header_separator(header@),
        ensures
            (r.0@, r.1@) == header_split(header@),
    {
        let s = chars_of(header.as_str());
        Self::split_header(&s)
    }

    /// A header line, given as characters, cut at its first `": "`.
    fn split_header(s: &Vec<char>) -> (r: (String, String))
        requires
            has_header_separator(s@),
        ensures
            (r.0@, r.1@) == header_split(s@),
    {
        let seperator = vec![':', ' '];
        assert(seperator@ =~= header_separator());
        proof {
            lemma_find_from(s@, seperator@, 0);
        }
        let seperator_index = find_at(s, &seperator, 0).unwrap();
        assert(occurs_at(s@, seperator@, seperator_index as int));
        assert(seperator_index + 2 <= s.len());
        (
            string_of_range(s, 0, seperator_index),
            string_of_range(s, seperator_index + 2, s.len()),
        )
    }

    /// Reads a request from its text: the first line is the request line; the
    /// headers follow up to the first empty line, the body lines after it.
    pub fn parse(http_string: &String) -> (r: Result<Http_request, String>)
        requires
            parse_ok(http_string@),
        ensures
            r is Err <==> lines_spec(http_string@).len() == 0,
            r matches Err(e) ==> e@ == no_request_line(),
            r matches Ok(req) ==> {
                let lines = lines_spec(http_string@);
                let read = read_lines(lines, lines[0], 1, false);
                &&& req.request_line@ == lines[0]
                &&& headers_view(req.headers@) == read.0
                &&& strings_view(req.body@) == read.1
            },
    {
        let text = chars_of(http_string.as_str());
        let lines = lines(&text);
        let ghost lv = lines@.map_values(|l: Vec<char>| l@);
        if lines.len() == 0 {
            let message = "no request line";
            proof {
                reveal_strlit("no request line");
            }
            assert(message@ =~= no_request_line());
            return Err(message.to_owned());
        }
        assert(lv[0] == lines@[0]@);
        let mut headers: Vec<(String, String)> = Vec::new();
        let mut body: Vec<String> = Vec::new();
        let mut writing_body = false;
        let mut i: usize = 0;
        while i < lines.len()
            invariant
                lv == lines@.map_values(|l: Vec<char>| l@),
                lv == lines_spec(http_string@),
                lv.len() > 0,
                1 <= lines.len(),
                i <= lines.len(),
                header_lines_ok(lv, lv[0], 1, false),
                i == 0 ==> !writing_body && headers@.len() == 0 && body@.len() == 0,
                i > 0 ==> header_lines_ok(lv, lv[0], i as int, writing_body),
                i > 0 ==> {
                    let all = read_lines(lv, lv[0], 1, false);
                    let rest = read_lines(lv, lv[0], i as int, writing_body);
                    &&& all.0 == headers_view(headers@) + rest.0
                    &&& all.1 == strings_view(body@) + rest.1
                },
            decreases lines.len() - i,
        {
            let ghost hb = headers@;
            let ghost bb = body@;
            assert(lv[i as int] == lines@[i as int]@);
            if i == 0 || same_chars(&lines[i], &lines[0]) {
                if i == 0 {
                    assert(headers_view(headers@) =~= Seq::empty());
                    assert(strings_view(body@) =~= Seq::empty());
                }
            } else if lines[i].len() == 0 {
                writing_body = true;
            } else if !writing_body {
                let header = Self::split_header(&lines[i]);
                headers.push(header);
                assert(headers_view(headers@) =~= headers_view(hb).push((header.0@, header.1@)));
            } else {
                let line = string_of_range(&lines[i], 0, lines[i].len());
                assert(line@ =~= lv[i as int]);
                body.push(line);
                assert(strings_view(body@) =~= strings_view(bb).push(line@));
            }
            i = i + 1;
        }
        let request_line = string_of_range(&lines[0], 0, lines[0].len());
        assert(request_line@ =~= lv[0]);
        Ok(Http_request { request_line, headers, body })
    }

    /// The value of the first header named `name`.
    pub fn get_header(&self, name: String) -> (r: Option<&String>)
        ensures
            r matches Some(v) ==> exists|i: int|
                0 <= i < self.headers@.len() && self.headers@[i].0@ == name@ && *v
                    == self.headers@[i].1 && forall|j: int|
                    0 <= j < i ==> self.headers@[j].0@ != name@,
            r is None ==> forall|j: int|
                0 <= j < self.headers@.len() ==> self.headers@[j].0@ != name@,
    {
        let mut i: usize = 0;
        while i < self.headers.len()
            invariant
                i <= self.headers@.len(),
                forall|j: int| 0 <= j < i ==> self.headers@[j].0@ != name@,
            decreases self.headers.len() - i,
        {
            if self.headers[i].0 == name {
                return Some(&self.headers[i].1);
            }
            i = i + 1;
        }
        None
    }
}

/// In `name + ": " + value`, the separator does not start inside `name` where
/// `name` holds none.
proof fn lemma_no_separator_in_name(name: Seq<char>, value: Seq<char>, j: int)
    requires
        find_spec(name, header_separator()) is None,
        0 <= j < name.len(),
    ensures
        !occurs_at(name + header_separator() + value, header_separator(), j),
{
    let sep = header_separator();
    let line = name + sep + value;
    let n = name.len() as int;
    lemma_find_from(name, sep, 0);
    if occurs_at(line, sep, j) {
        if j + 2 <= n {
            assert(line.subrange(j, j + 2) =~= name.subrange(j, j + 2));
            assert(occurs_at(name, sep, j));
        } else {
            assert(line.subrange(j, j + 2)[1] == line[n]);
            assert(line[n] == ':');
        }
    }
}

/// A header written as name, `": "`, value reads back as that name and value,
/// where the name holds no `": "`.
pub proof fn lemma_header_roundtrip(name: Seq<char>, value: Seq<char>)
    requires
        find_spec(name, header_separator()) is None,
    ensures
        has_header_separator(name + header_separator() + value),
        header_split(name + header_separator() + value) == (name, value),
{
    let sep = header_separator();
    let line = name + sep + value;
    let n = name.len() as int;
    assert(line.subrange(n, n + 2) =~= sep);
    assert(occurs_at(line, sep, n));
    assert forall|j: int| 0 <= j < n implies !occurs_at(line, sep, j) by {
        lemma_no_separator_in_name(name, value, j);
    }
    lemma_find_from_first(line, sep, 0, n);
    assert(line.subrange(0, n) =~= name);
    assert(line.subrange(n + 2, line.len() as int) =~= value);
}

/// The test "is not the request line `first`".
pub open spec fn other_than(first: Seq<char>) -> spec_fn(Seq<char>) -> bool {
    |l: Seq<char>| l != first
}

/// The test "is neither the request line `first` nor empty".
pub open spec fn filled_other_than(first: Seq<char>) -> spec_fn(Seq<char>) -> bool {
    |l: Seq<char>| l != first && l.len() > 0
}

/// The name and value of each header line.
pub open spec fn header_pairs(lines: Seq<Seq<char>>) -> Seq<(Seq<char>, Seq<char>)> {
    lines.map_values(|l: Seq<char>| header_split(l))
}

/// Filtering a sequence that starts with `x`.
proof fn lemma_filter_cons(x: Seq<char>, rest: Seq<Seq<char>>, p: spec_fn(Seq<char>) -> bool)
    ensures
        (seq![x] + rest).filter(p) == if p(x) {
            seq![x] + rest.filter(p)
        } else {
            rest.filter(p)
        },
{
    Seq::filter_distributes_over_add(seq![x], rest, p);
    reveal_with_fuel(Seq::filter, 2);
    assert(seq![x].drop_last() =~= Seq::<Seq<char>>::empty());
    if p(x) {
        assert(seq![x].filter(p) =~= seq![x]);
    } else {
        assert(seq![x].filter(p) =~= Seq::<Seq<char>>::empty());
        assert(Seq::<Seq<char>>::empty() + rest.filter(p) =~= rest.filter(p));
    }
}

/// Once the body has started, no line is a header, and the body lines are the
/// lines from `i` on that are neither empty nor the request line, in order.
proof fn lemma_body_lines(lines: Seq<Seq<char>>, first: Seq<char>, i: int)
    requires
        0 <= i <= lines.len(),
    ensures
        read_lines(lines, first, i, true).0 == Seq::<(Seq<char>, Seq<char>)>::empty(),
        read_lines(lines, first, i, true).1 == lines.subrange(i, lines.len() as int).filter(filled_other_than(first)),
    decreases lines.len() - i,
{
    let part = lines.subrange(i, lines.len() as int);
    if i == lines.len() {
        reveal(Seq::filter);
        assert(part =~= Seq::<Seq<char>>::empty());
    } else {
        lemma_body_lines(lines, first, i + 1);
        assert(part =~= seq![lines[i]] + lines.subrange(i + 1, lines.len() as int));
        lemma_filter_cons(lines[i], lines.subrange(i + 1, lines.len() as int), filled_other_than(first));
    }
}

/// Before the body starts at `b`, the headers are the lines from `i` on that
/// are not the request line, each cut into name and value, and the body is
/// what follows `b`.
proof fn lemma_header_lines(lines: Seq<Seq<char>>, first: Seq<char>, i: int, b: int)
    requires
        0 <= i <= b <= lines.len(),
        forall|j: int| i <= j < b ==> #[trigger] lines[j].len() > 0 || lines[j] == first,
        b < lines.len() ==> lines[b].len() == 0 && lines[b] != first,
    ensures
        read_lines(lines, first, i, false).0 == header_pairs(lines.subrange(i, b).filter(other_than(first))),
        read_lines(lines, first, i, false).1 == if b < lines.len() {
            lines.subrange(b + 1, lines.len() as int).filter(filled_other_than(first))
        } else {
            Seq::empty()
        },
    decreases b - i,
{
    let part = lines.subrange(i, b);
    if i == b {
        reveal(Seq::filter);
        assert(part =~= Seq::<Seq<char>>::empty());
        assert(header_pairs(part.filter(other_than(first))) =~= Seq::empty());
        if b < lines.len() {
            lemma_body_lines(lines, first, b + 1);
        }
    } else {
        lemma_header_lines(lines, first, i + 1, b);
        assert(part =~= seq![lines[i]] + lines.subrange(i + 1, b));
        lemma_filter_cons(lines[i], lines.subrange(i + 1, b), other_than(first));
        let rest = lines.subrange(i + 1, b).filter(other_than(first));
        if lines[i] != first {
            assert(header_pairs(seq![lines[i]] + rest) =~= seq![header_split(lines[i])] + header_pairs(rest));
        }
    }
}

/// How a request is read: where the body starts at the first empty line `b`
/// after the request line that is not a copy of it (or there is none, and `b`
/// is past the end), the headers are exactly the lines before `b` other than
/// copies of the request line, each cut at its first `": "`, in order; and
/// the body is exactly the lines after `b` that are neither empty nor copies
/// of the request line, in order. No line after `b` gives a header.
pub proof fn lemma_parse_sections(lines: Seq<Seq<char>>, b: int)
    requires
        lines.len() > 0,
        1 <= b <= lines.len(),
        forall|j: int| 1 <= j < b ==> #[trigger] lines[j].len() > 0 || lines[j] == lines[0],
        b < lines.len() ==> lines[b].len() == 0 && lines[b] != lines[0],
    ensures
        read_lines(lines, lines[0], 1, false).0 == header_pairs(lines.subrange(1, b).filter(other_than(lines[0]))),
        read_lines(lines, lines[0], 1, false).1 == if b < lines.len() {
            lines.subrange(b + 1, lines.len() as int).filter(filled_other_than(lines[0]))
        } else {
            Seq::empty()
        },
{
    lemma_header_lines(lines, lines[0], 1, b);
}

} // verus!
