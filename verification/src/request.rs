//! The request parser: turns the raw bytes of one HTTP/1.1 message into a
//! structured request, or reports that the bytes are malformed or that more
//! of them are needed.

use vstd::prelude::*;

use crate::bytes::{
    find_byte_from, lemma_spec_find_range, spec_find, spec_parse_usize, spec_split_commas,
    spec_tokens, split_commas, split_ws, subvec, trim, trim_of,
};
use crate::headers::{
    contains_name, insert_first_wins, insert_header, find_header, values_of, Header, HeaderV,
};

verus! {

/// The first line of a request: method, target and protocol version.
pub struct RequestLine {
    pub method: Vec<u8>,
    pub target: Vec<u8>,
    pub version: Vec<u8>,
}

/// A parsed request: start line, headers in order of first occurrence, and
/// the body framed by `Content-Length`.
pub struct Request {
    pub request_line: RequestLine,
    pub headers: Vec<Header>,
    pub body: Vec<u8>,
}

/// Why parsing stopped: the start line did not hold exactly three tokens,
/// or the input ends before the message does and more bytes are needed.
#[derive(Debug, Clone, Copy, PartialEq, Eq, Structural)]
pub enum ParseError {
    MalformedStartLine,
    Incomplete,
}

/// What parsing a byte sequence yields.
pub ghost enum SpecParse {
    Incomplete,
    Malformed,
    Parsed {
        method: Seq<u8>,
        target: Seq<u8>,
        version: Seq<u8>,
        headers: Seq<HeaderV>,
        body: Seq<u8>,
    },
}

/// Result of reading the header section.
pub ghost enum HeadersParse {
    Incomplete,
    Done { headers: Seq<HeaderV>, body_start: int },
}

/// The name `Content-Length`.
pub open spec fn content_length_name() -> Seq<u8> {
    seq![67u8, 111u8, 110u8, 116u8, 101u8, 110u8, 116u8, 45u8, 76u8, 101u8, 110u8, 103u8, 116u8, 104u8]
}

/// How one (already trimmed, non-empty) header line is read: the name is
/// the trimmed part before the first `:`, and the value part after it is
/// split on `,` with each value trimmed.
pub open spec fn parse_header_line(line: Seq<u8>) -> HeaderV {
    let c = spec_find(line, 0, 58);
    let rest = if c < line.len() {
        line.subrange(c + 1, line.len() as int)
    } else {
        Seq::empty()
    };
    HeaderV { name: trim_of(line.subrange(0, c)), values: spec_split_commas(rest) }
}

/// Reading the header section one byte at a time from position `i`: `acc`
/// holds the headers so far and `cur` the bytes of the current line. A
/// line that trims to nothing ends the section; a repeated header name is
/// dropped. Without that empty line the section is incomplete.
pub open spec fn headers_acc(s: Seq<u8>, i: int, acc: Seq<HeaderV>, cur: Seq<u8>) -> HeadersParse
    decreases s.len() - i,
{
    if i < 0 || i >= s.len() {
        HeadersParse::Incomplete
    } else if s[i] == 10 {
        if trim_of(cur).len() == 0 {
            HeadersParse::Done { headers: acc, body_start: i + 1 }
        } else {
            headers_acc(s, i + 1, insert_first_wins(acc, parse_header_line(trim_of(cur))), Seq::empty())
        }
    } else {
        headers_acc(s, i + 1, acc, cur.push(s[i]))
    }
}

/// The body length a header list asks for: the first value of the first
/// `Content-Length` header, when it reads as an unsigned integer. Any
/// other case means "no body".
pub open spec fn spec_content_length(hs: Seq<HeaderV>) -> Option<nat> {
    if contains_name(hs, content_length_name()) && values_of(hs, content_length_name()).len() > 0 {
        spec_parse_usize(values_of(hs, content_length_name())[0])
    } else {
        None
    }
}

/// What parsing one HTTP/1.1 message from `s` yields: the start line up to
/// the first newline must hold exactly three whitespace-separated tokens;
/// then the header section runs to the first blank line; then the body is
/// exactly the announced number of bytes, or empty without a usable
/// `Content-Length`.
pub open spec fn spec_parse_request(s: Seq<u8>) -> SpecParse {
    let nl = spec_find(s, 0, 10);
    if nl >= s.len() {
        SpecParse::Incomplete
    } else {
        let toks = spec_tokens(s.subrange(0, nl));
        if toks.len() != 3 {
            SpecParse::Malformed
        } else {
            match headers_acc(s, nl + 1, Seq::empty(), Seq::empty()) {
                HeadersParse::Incomplete => SpecParse::Incomplete,
                HeadersParse::Done { headers, body_start } => match spec_content_length(headers) {
                    Option::None => SpecParse::Parsed {
                        method: toks[0],
                        target: toks[1],
                        version: toks[2],
                        headers,
                        body: Seq::empty(),
                    },
                    Option::Some(n) => if body_start + n <= s.len() {
                        SpecParse::Parsed {
                            method: toks[0],
                            target: toks[1],
                            version: toks[2],
                            headers,
                            body: s.subrange(body_start, body_start + n),
                        }
                    } else {
                        SpecParse::Incomplete
                    },
                },
            }
        }
    }
}

/// The `Content-Length` name as a vector.
pub fn content_length_key() -> (r: Vec<u8>)
    ensures
        r@ == content_length_name(),
{
    let mut v: Vec<u8> = Vec::new();
    v.push(67);
    v.push(111);
    v.push(110);
    v.push(116);
    v.push(101);
    v.push(110);
    v.push(116);
    v.push(45);
    v.push(76);
    v.push(101);
    v.push(110);
    v.push(103);
    v.push(116);
    v.push(104);
    proof {
        assert(v@ =~= content_length_name());
    }
    v
}

/// Read one trimmed, non-empty header line.
fn parse_header_vec(line: &Vec<u8>) -> (h: Header)
    ensures
        h.deep_view() == parse_header_line(line@),
        h.values@.len() >= 1,
{
    let c = find_byte_from(line, 0, 58);
    proof {
        lemma_spec_find_range(line@, 0, 58);
    }
    let before = subvec(line, 0, c);
    let name = trim(&before);
    let rest: Vec<u8> = if c < line.len() {
        subvec(line, c + 1, line.len())
    } else {
        Vec::new()
    };
    let values = split_commas(&rest);
    proof {
        assert(rest@ == (if (c as int) < line@.len() {
            line@.subrange(c as int + 1, line@.len() as int)
        } else {
            Seq::<u8>::empty()
        }));
    }
    Header { name, values }
}

impl Request {
    /// Every header of a parsed request carries at least one value.
    pub open spec fn wf(&self) -> bool {
        forall|k: int|
            0 <= k < self.headers.deep_view().len() ==> #[trigger] self.headers.deep_view()[k].values.len()
                >= 1
    }

    /// Parse one HTTP/1.1 message from `input`. Extra bytes after the
    /// message are ignored. `Incomplete` asks the caller for more bytes;
    /// a start line without exactly three tokens is malformed.
    pub fn new(input: &Vec<u8>) -> (r: Result<Request, ParseError>)
        ensures
            (match r {
                Ok(req) => spec_parse_request(input@) == (SpecParse::Parsed {
                    method: req.request_line.method@,
                    target: req.request_line.target@,
                    version: req.request_line.version@,
                    headers: req.headers.deep_view(),
                    body: req.body@,
                }),
                Err(ParseError::MalformedStartLine) => spec_parse_request(input@) is Malformed,
                Err(ParseError::Incomplete) => spec_parse_request(input@) is Incomplete,
            }),
            r matches Ok(req) ==> req.wf(),
    {
        let nl = find_byte_from(input, 0, 10);
        proof {
            lemma_spec_find_range(input@, 0, 10);
        }
        if nl == input.len() {
            return Err(ParseError::Incomplete);
        }
        let line0 = subvec(input, 0, nl);
        let mut toks = split_ws(&line0);
        let ghost toksv = spec_tokens(input@.subrange(0, nl as int));
        proof {
            assert(toks.deep_view().len() == toks@.len());
        }
        if toks.len() != 3 {
            return Err(ParseError::MalformedStartLine);
        }
        let version = toks.pop().unwrap();
        let target = toks.pop().unwrap();
        let method = toks.pop().unwrap();
        proof {
            assert(method@ =~= toksv[0]);
            assert(target@ =~= toksv[1]);
            assert(version@ =~= toksv[2]);
        }

        let ghost hdr_start = nl + 1 as int;
        let mut headers: Vec<Header> = Vec::new();
        let mut cur: Vec<u8> = Vec::new();
        let mut i: usize = nl + 1;
        let mut body_start: usize = 0;
        let mut found: bool = false;
        proof {
            assert(headers.deep_view() =~= Seq::<HeaderV>::empty());
        }
        while i < input.len() && !found
            invariant
                hdr_start == nl + 1,
                nl < input@.len(),
                hdr_start <= i <= input@.len(),
                !found ==> headers_acc(input@, i as int, headers.deep_view(), cur@)
                    == headers_acc(input@, hdr_start, Seq::empty(), Seq::empty()),
                found ==> headers_acc(input@, hdr_start, Seq::empty(), Seq::empty())
                    == (HeadersParse::Done {
                    headers: headers.deep_view(),
                    body_start: body_start as int,
                }),
                found ==> body_start <= input@.len(),
                forall|k: int|
                    0 <= k < headers.deep_view().len()
                        ==> #[trigger] headers.deep_view()[k].values.len() >= 1,
            decreases input@.len() - i,
        {
            let b = input[i];
            if b == 10 {
                let line = trim(&cur);
                if line.len() == 0 {
                    found = true;
                    body_start = i + 1;
                } else {
                    let h = parse_header_vec(&line);
                    insert_header(&mut headers, h);
                    cur = Vec::new();
                }
            } else {
                cur.push(b);
            }
            i = i + 1;
        }
        if !found {
            return Err(ParseError::Incomplete);
        }

        let ghost hs = headers.deep_view();
        let clk = content_length_key();
        let idx = find_header(&headers, &clk);
        let mut body: Vec<u8> = Vec::new();
        if idx < headers.len() && headers[idx].values.len() > 0 {
            let n_opt = parse_usize_first(&headers[idx].values);
            proof {
                assert(hs[idx as int].values[0] =~= headers@[idx as int].values@[0]@);
            }
            match n_opt {
                Option::Some(n) => {
                    if n <= input.len() - body_start {
                        body = subvec(input, body_start, body_start + n);
                    } else {
                        return Err(ParseError::Incomplete);
                    }
                },
                Option::None => {},
            }
        }

        let req = Request {
            request_line: RequestLine { method, target, version },
            headers,
            body,
        };
        Ok(req)
    }
}

/// A message whose complete start line does not split into exactly three
/// whitespace-separated tokens is malformed, whatever follows it; one whose
/// start line does split into three never is.
pub proof fn lemma_malformed_start_line(s: Seq<u8>)
    requires
        spec_find(s, 0, 10) < s.len(),
    ensures
        (spec_parse_request(s) is Malformed) <==> spec_tokens(
            s.subrange(0, spec_find(s, 0, 10)),
        ).len() != 3,
{
}

/// A header line made of a plain name — non-empty, no colon, no whitespace
/// — a colon, and a value part parses back to exactly that name with the
/// value part split on commas and each value trimmed. Nothing is lost.
pub proof fn lemma_header_line_round_trip(name: Seq<u8>, value: Seq<u8>)
    requires
        name.len() > 0,
        forall|k: int| 0 <= k < name.len() ==> name[k] != 58 && !crate::bytes::is_ws(#[trigger] name[k]),
    ensures
        parse_header_line(name + seq![58u8] + value) == (HeaderV {
            name: name,
            values: spec_split_commas(value),
        }),
{
    let line = name + seq![58u8] + value;
    crate::bytes::lemma_spec_find_found(line, 0, name.len() as int, 58);
    let c = spec_find(line, 0, 58);
    assert(line.subrange(0, c) =~= name);
    assert(trim_of(name) =~= name);
    assert(line.subrange(c + 1, line.len() as int) =~= value);
}

/// The wire form of a list of header lines: each line followed by its
/// terminator.
pub open spec fn render_header_lines(lines: Seq<Seq<u8>>) -> Seq<u8>
    decreases lines.len(),
{
    if lines.len() == 0 {
        Seq::empty()
    } else {
        lines[0] + seq![10u8] + render_header_lines(lines.skip(1))
    }
}

/// The headers that reading a block's lines in order accumulates.
pub open spec fn fold_header_lines(lines: Seq<Seq<u8>>, acc: Seq<HeaderV>) -> Seq<HeaderV>
    decreases lines.len(),
{
    if lines.len() == 0 {
        acc
    } else {
        fold_header_lines(lines.skip(1), insert_first_wins(acc, parse_header_line(lines[0])))
    }
}

/// Reading the header section consumes one whole line at a time: with the
/// bytes of `line` (which holds no newline) standing at `i` and a newline
/// after them, the scan reaches that newline with the line's bytes
/// appended to `cur`.
pub proof fn lemma_headers_acc_line(
    s: Seq<u8>,
    i: int,
    acc: Seq<HeaderV>,
    cur: Seq<u8>,
    line: Seq<u8>,
)
    requires
        0 <= i,
        i + line.len() < s.len(),
        s.subrange(i, i + line.len()) == line,
        forall|k: int| 0 <= k < line.len() ==> line[k] != 10,
        s[i + line.len()] == 10,
    ensures
        headers_acc(s, i, acc, cur) == (if trim_of(cur + line).len() == 0 {
            HeadersParse::Done { headers: acc, body_start: i + line.len() + 1 }
        } else {
            headers_acc(
                s,
                i + line.len() + 1,
                insert_first_wins(acc, parse_header_line(trim_of(cur + line))),
                Seq::empty(),
            )
        }),
    decreases line.len(),
{
    if line.len() == 0 {
        assert(cur + line =~= cur);
    } else {
        assert(s[i] == line[0]);
        assert(s.subrange(i + 1, i + 1 + line.skip(1).len()) =~= line.skip(1));
        lemma_headers_acc_line(s, i + 1, acc, cur.push(line[0]), line.skip(1));
        assert(cur.push(line[0]) + line.skip(1) =~= cur + line);
    }
}

/// With a whole block of non-blank, already-trimmed lines standing at `i`,
/// each with its terminator and the blank line after them all, the header
/// section parses to exactly the fold of those lines, and the body starts
/// right after the blank line.
pub proof fn lemma_headers_acc_block(s: Seq<u8>, i: int, acc: Seq<HeaderV>, lines: Seq<Seq<u8>>)
    requires
        0 <= i,
        i + render_header_lines(lines).len() + 1 <= s.len(),
        s.subrange(i, i + render_header_lines(lines).len() + 1) == render_header_lines(lines)
            + seq![10u8],
        forall|j: int| 0 <= j < lines.len() ==> (#[trigger] lines[j]).len() > 0,
        forall|j: int| 0 <= j < lines.len() ==> trim_of(#[trigger] lines[j]) == lines[j],
        forall|j: int, k: int| 0 <= j < lines.len() && 0 <= k < lines[j].len() ==> (#[trigger] lines[j][k]) != 10,
    ensures
        headers_acc(s, i, acc, Seq::empty()) == (HeadersParse::Done {
            headers: fold_header_lines(lines, acc),
            body_start: i + render_header_lines(lines).len() + 1,
        }),
    decreases lines.len(),
{
    let r = render_header_lines(lines);
    let blk = s.subrange(i, i + r.len() + 1);
    assert(blk == r + seq![10u8]);
    if lines.len() == 0 {
        assert(s[i] == blk[0]);
        assert(blk[0] == 10);
        assert(trim_of(Seq::<u8>::empty()) =~= Seq::<u8>::empty());
    } else {
        let line = lines[0];
        let rest = render_header_lines(lines.skip(1));
        assert(r =~= line + seq![10u8] + rest);
        assert forall|k: int| 0 <= k < r.len() + 1 implies s[i + k] == blk[k] by {
            assert(blk[k] == s[i + k]);
        }
        assert(s.subrange(i, i + line.len()) =~= line);
        assert(s[i + line.len()] == blk[line.len() as int]);
        assert(blk[line.len() as int] == 10);
        lemma_headers_acc_line(s, i, acc, Seq::empty(), line);
        assert(Seq::<u8>::empty() + line =~= line);
        let i2 = i + line.len() + 1;
        assert forall|k: int|
            0 <= k < rest.len() + 1 implies #[trigger] s.subrange(i2, i2 + rest.len() + 1)[k]
            == blk[line.len() + 1 + k] by {
            assert(s.subrange(i2, i2 + rest.len() + 1)[k] == s[i2 + k]);
            assert(blk[line.len() + 1 + k] == s[i + (line.len() + 1 + k)]);
        }
        assert(s.subrange(i2, i2 + rest.len() + 1) =~= rest + seq![10u8]);
        lemma_headers_acc_block(
            s,
            i2,
            insert_first_wins(acc, parse_header_line(line)),
            lines.skip(1),
        );
    }
}

/// The lines of a header block given as names beside raw value strings.
pub open spec fn header_lines_of(names: Seq<Seq<u8>>, values: Seq<Seq<u8>>) -> Seq<Seq<u8>> {
    Seq::new(names.len(), |j: int| names[j] + seq![58u8] + values[j])
}

/// Folding lines whose parsed names are pairwise distinct and all new keeps
/// every line, in order, with exactly its parsed values.
pub proof fn lemma_fold_all_new(lines: Seq<Seq<u8>>, acc: Seq<HeaderV>)
    requires
        forall|j1: int, j2: int|
            0 <= j1 < j2 < lines.len() ==> parse_header_line(lines[j1]).name != parse_header_line(
                lines[j2],
            ).name,
        forall|j: int|
            0 <= j < lines.len() ==> !contains_name(acc, parse_header_line(#[trigger] lines[j]).name),
    ensures
        fold_header_lines(lines, acc) == acc + Seq::new(
            lines.len(),
            |j: int| parse_header_line(lines[j]),
        ),
    decreases lines.len(),
{
    if lines.len() == 0 {
        assert(fold_header_lines(lines, acc) =~= acc + Seq::new(
            lines.len(),
            |j: int| parse_header_line(lines[j]),
        ));
    } else {
        let h0 = parse_header_line(lines[0]);
        let acc2 = acc.push(h0);
        assert(insert_first_wins(acc, h0) == acc2);
        assert forall|j: int|
            0 <= j < lines.skip(1).len() implies !contains_name(
            acc2,
            parse_header_line(#[trigger] lines.skip(1)[j]).name,
        ) by {
            let n = parse_header_line(lines.skip(1)[j]).name;
            assert(lines.skip(1)[j] == lines[j + 1]);
            assert(n != h0.name);
            crate::headers::lemma_contains_name_iff(acc, n);
            crate::headers::lemma_contains_name_iff(acc2, n);
        }
        lemma_fold_all_new(lines.skip(1), acc2);
        assert(acc2 + Seq::new(lines.skip(1).len(), |j: int| parse_header_line(lines.skip(1)[j]))
            =~= acc + Seq::new(lines.len(), |j: int| parse_header_line(lines[j])));
    }
}

/// A header block with no duplicate names survives parsing whole: with the
/// block's lines standing after the start line, the parsed headers are
/// exactly the block's names, in order, each with its value part split on
/// commas and trimmed.
pub proof fn lemma_header_block_round_trip(
    s: Seq<u8>,
    i: int,
    names: Seq<Seq<u8>>,
    values: Seq<Seq<u8>>,
)
    requires
        names.len() == values.len(),
        forall|j: int| 0 <= j < names.len() ==> (#[trigger] names[j]).len() > 0,
        forall|j: int, k: int|
            0 <= j < names.len() && 0 <= k < names[j].len() ==> (#[trigger] names[j][k]) != 58
                && !crate::bytes::is_ws(names[j][k]),
        forall|j1: int, j2: int| 0 <= j1 < j2 < names.len() ==> names[j1] != names[j2],
        forall|j: int, k: int|
            0 <= j < values.len() && 0 <= k < values[j].len() ==> (#[trigger] values[j][k]) != 10,
        forall|j: int|
            0 <= j < values.len() ==> ((#[trigger] values[j]).len() > 0 ==> !crate::bytes::is_ws(
                values[j].last(),
            )),
        0 <= i,
        i + render_header_lines(header_lines_of(names, values)).len() + 1 <= s.len(),
        s.subrange(i, i + render_header_lines(header_lines_of(names, values)).len() + 1)
            == render_header_lines(header_lines_of(names, values)) + seq![10u8],
    ensures
        headers_acc(s, i, Seq::empty(), Seq::empty()) == (HeadersParse::Done {
            headers: Seq::new(
                names.len(),
                |j: int| HeaderV { name: names[j], values: spec_split_commas(values[j]) },
            ),
            body_start: i + render_header_lines(header_lines_of(names, values)).len() + 1,
        }),
{
    let lines = header_lines_of(names, values);
    assert forall|j: int| 0 <= j < lines.len() implies (#[trigger] lines[j]).len() > 0
        && trim_of(lines[j]) == lines[j] && parse_header_line(lines[j]) == (HeaderV {
        name: names[j],
        values: spec_split_commas(values[j]),
    }) by {
        let line = lines[j];
        assert(line =~= names[j] + seq![58u8] + values[j]);
        assert(!crate::bytes::is_ws(line[0]));
        assert(!crate::bytes::is_ws(line[line.len() - 1]));
        assert(trim_of(line) =~= line);
        lemma_header_line_round_trip(names[j], values[j]);
    }
    assert forall|j: int, k: int|
        0 <= j < lines.len() && 0 <= k < lines[j].len() implies (#[trigger] lines[j][k]) != 10 by {
        assert(lines[j] =~= names[j] + seq![58u8] + values[j]);
    }
    lemma_headers_acc_block(s, i, Seq::empty(), lines);
    lemma_fold_all_new(lines, Seq::empty());
    assert(Seq::<HeaderV>::empty() + Seq::new(lines.len(), |j: int| parse_header_line(lines[j]))
        =~= Seq::new(
        names.len(),
        |j: int| HeaderV { name: names[j], values: spec_split_commas(values[j]) },
    ));
}

/// Read the first value of a non-empty value list as an unsigned integer.
fn parse_usize_first(values: &Vec<Vec<u8>>) -> (r: Option<usize>)
    requires
        values@.len() > 0,
    ensures
        r matches Some(v) ==> spec_parse_usize(values.deep_view()[0]) == Some(v as nat),
        r is None ==> spec_parse_usize(values.deep_view()[0]) is None,
{
    let r = crate::bytes::parse_usize_bytes(&values[0]);
    proof {
        assert(values.deep_view()[0] =~= values@[0]@);
    }
    r
}

} // verus!
