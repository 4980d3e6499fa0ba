//! The response model: a status line, headers and a body, with byte-exact
//! serialization to the wire. `Content-Length` is recomputed from the body
//! at serialization time, so earlier mutation can never leave it stale.

use vstd::prelude::*;

use crate::bytes::{dec_digits, extend_bytes, subvec, usize_to_dec};
use crate::headers::{
    contains_name, join_comma, lemma_set_header_of, lemma_set_header_wf, set_header,
    set_header_of, values_of, Header, HeaderV,
};
use crate::lit::{
    content_type_name, content_type_name_bytes, http11, http11_bytes, ok_phrase, ok_phrase_bytes,
    server_name, server_name_bytes, server_value, server_value_bytes, text_plain,
    text_plain_bytes,
};
use crate::request::content_length_name;

verus! {

/// The first line of a response: version, status code, optional reason.
pub struct StatusLine {
    pub version: Vec<u8>,
    pub status_code: u16,
    pub reason_phrase: Option<Vec<u8>>,
}

/// The mathematical value of a `StatusLine`.
#[verifier::ext_equal]
pub ghost struct StatusLineV {
    pub version: Seq<u8>,
    pub status_code: u16,
    pub reason_phrase: Option<Seq<u8>>,
}

impl View for StatusLine {
    type V = StatusLineV;

    open spec fn view(&self) -> StatusLineV {
        StatusLineV {
            version: self.version@,
            status_code: self.status_code,
            reason_phrase: self.reason_phrase.deep_view(),
        }
    }
}

/// The reason phrase, or nothing when absent.
pub open spec fn reason_or_empty(r: Option<Seq<u8>>) -> Seq<u8> {
    match r {
        Some(s) => s,
        None => Seq::empty(),
    }
}

/// `<version> <code> <reason>`, with an empty reason when none is set.
pub open spec fn status_line_bytes(sl: StatusLineV) -> Seq<u8> {
    sl.version + seq![32u8] + dec_digits(sl.status_code as nat) + seq![32u8] + reason_or_empty(
        sl.reason_phrase,
    )
}

impl StatusLine {
    /// Serialize the status line, without its terminator.
    pub fn to_bytes(&self) -> (r: Vec<u8>)
        ensures
            r@ == status_line_bytes(self@),
    {
        let mut out = subvec(&self.version, 0, self.version.len());
        proof {
            assert(out@ =~= self.version@);
        }
        out.push(32);
        let dec = usize_to_dec(self.status_code as usize);
        extend_bytes(&mut out, &dec);
        out.push(32);
        match &self.reason_phrase {
            Option::Some(rp) => extend_bytes(&mut out, rp),
            Option::None => {},
        }
        proof {
            assert(out@ =~= status_line_bytes(self@));
        }
        out
    }
}

/// An outgoing message: status line, headers, body.
pub struct Response {
    pub status_line: StatusLine,
    pub headers: Vec<Header>,
    pub body: Vec<u8>,
}

/// The mathematical value of a `Response`.
#[verifier::ext_equal]
pub ghost struct ResponseV {
    pub status_line: StatusLineV,
    pub headers: Seq<HeaderV>,
    pub body: Seq<u8>,
}

impl View for Response {
    type V = ResponseV;

    open spec fn view(&self) -> ResponseV {
        ResponseV {
            status_line: self.status_line@,
            headers: self.headers.deep_view(),
            body: self.body@,
        }
    }
}

impl Default for Response {
    /// The same fresh response that `new` builds.
    fn default() -> (r: Response)
        ensures
            r@ == (ResponseV {
                status_line: StatusLineV {
                    version: http11(),
                    status_code: 200,
                    reason_phrase: Some(ok_phrase()),
                },
                headers: default_headers(),
                body: Seq::<u8>::empty(),
            }),
            r.wf(),
    {
        Response::new()
    }
}

/// `<name>: <v1, v2, ...>` and the line terminator.
pub open spec fn header_bytes(h: HeaderV) -> Seq<u8> {
    h.name + seq![58u8, 32u8] + join_comma(h.values) + seq![13u8, 10u8]
}

/// The serialized header lines from `i` on.
pub open spec fn headers_bytes_from(hs: Seq<HeaderV>, i: int) -> Seq<u8>
    decreases hs.len() - i,
{
    if i < 0 || i >= hs.len() {
        Seq::empty()
    } else {
        header_bytes(hs[i]) + headers_bytes_from(hs, i + 1)
    }
}

/// The whole wire form: status line, header lines, blank line, body.
pub open spec fn response_bytes(r: ResponseV) -> Seq<u8> {
    status_line_bytes(r.status_line) + seq![13u8, 10u8] + headers_bytes_from(r.headers, 0) + seq![
        13u8,
        10u8,
    ] + r.body
}

/// The headers a fresh response carries.
pub open spec fn default_headers() -> Seq<HeaderV> {
    seq![
        HeaderV { name: server_name(), values: seq![server_value()] },
        HeaderV { name: content_type_name(), values: seq![text_plain()] },
    ]
}

impl Response {
    /// Every header carries at least one value, so each serializes to one
    /// well-formed line.
    pub open spec fn wf(&self) -> bool {
        forall|k: int|
            0 <= k < self@.headers.len() ==> #[trigger] self@.headers[k].values.len() >= 1
    }

    /// A fresh response: `200 OK` with the two default headers and no body.
    pub fn new() -> (r: Response)
        ensures
            r@ == (ResponseV {
                status_line: StatusLineV {
                    version: http11(),
                    status_code: 200,
                    reason_phrase: Some(ok_phrase()),
                },
                headers: default_headers(),
                body: Seq::<u8>::empty(),
            }),
            r.wf(),
    {
        let mut headers: Vec<Header> = Vec::new();
        let mut server_vals: Vec<Vec<u8>> = Vec::new();
        server_vals.push(server_value_bytes());
        headers.push(Header { name: server_name_bytes(), values: server_vals });
        let mut ct_vals: Vec<Vec<u8>> = Vec::new();
        ct_vals.push(text_plain_bytes());
        headers.push(Header { name: content_type_name_bytes(), values: ct_vals });
        let r = Response {
            status_line: StatusLine {
                version: http11_bytes(),
                status_code: 200,
                reason_phrase: Some(ok_phrase_bytes()),
            },
            headers,
            body: Vec::new(),
        };
        proof {
            assert(r@.headers =~~= default_headers());
        }
        r
    }

    /// Set the status code and reason phrase.
    pub fn set_status(&mut self, code: u16, reason: Vec<u8>)
        ensures
            final(self)@ == (ResponseV {
                status_line: StatusLineV {
                    version: old(self)@.status_line.version,
                    status_code: code,
                    reason_phrase: Some(reason@),
                },
                ..old(self)@
            }),
    {
        self.status_line.status_code = code;
        self.status_line.reason_phrase = Some(reason);
    }

    /// Overwrite the first header of that name, or append one.
    pub fn set_header(&mut self, name: Vec<u8>, values: Vec<Vec<u8>>)
        ensures
            final(self)@ == (ResponseV {
                headers: set_header_of(old(self)@.headers, name@, values.deep_view()),
                ..old(self)@
            }),
    {
        set_header(&mut self.headers, name, values);
    }

    /// Serialize to wire bytes. `Content-Length` is first recomputed from
    /// the current body, whatever was set before, so the announced length
    /// is always exactly the body's length.
    pub fn to_bytes(&mut self) -> (r: Vec<u8>)
        requires
            old(self).wf(),
        ensures
            final(self)@ == (ResponseV {
                headers: set_header_of(
                    old(self)@.headers,
                    content_length_name(),
                    seq![dec_digits(old(self)@.body.len())],
                ),
                ..old(self)@
            }),
            final(self).wf(),
            contains_name(final(self)@.headers, content_length_name()),
            values_of(final(self)@.headers, content_length_name()) == seq![
                dec_digits(old(self)@.body.len()),
            ],
            r@ == response_bytes(final(self)@),
    {
        let mut cl_vals: Vec<Vec<u8>> = Vec::new();
        cl_vals.push(usize_to_dec(self.body.len()));
        proof {
            assert(cl_vals.deep_view() =~~= seq![dec_digits(self@.body.len())]);
        }
        set_header(&mut self.headers, crate::request::content_length_key(), cl_vals);
        proof {
            lemma_set_header_of(
                old(self)@.headers,
                content_length_name(),
                seq![dec_digits(old(self)@.body.len())],
            );
            lemma_set_header_wf(
                old(self)@.headers,
                content_length_name(),
                seq![dec_digits(old(self)@.body.len())],
            );
        }

        let ghost selfv = self@;
        let ghost hs = self.headers.deep_view();
        let mut out = self.status_line.to_bytes();
        out.push(13);
        out.push(10);
        proof {
            assert(out@ =~= status_line_bytes(selfv.status_line) + seq![13u8, 10u8]);
        }
        let mut i: usize = 0;
        while i < self.headers.len()
            invariant
                i <= hs.len(),
                self@ == selfv,
                hs == self.headers.deep_view(),
                hs.len() == self.headers@.len(),
                out@ + headers_bytes_from(hs, i as int) == status_line_bytes(selfv.status_line)
                    + seq![13u8, 10u8] + headers_bytes_from(hs, 0),
            decreases self.headers@.len() - i,
        {
            let ghost prev = out@;
            let h = &self.headers[i];
            extend_bytes(&mut out, &h.name);
            out.push(58);
            out.push(32);
            let joined = crate::headers::join_values(&h.values);
            extend_bytes(&mut out, &joined);
            out.push(13);
            out.push(10);
            proof {
                assert(out@ =~= prev + header_bytes(hs[i as int]));
                assert(prev + header_bytes(hs[i as int]) + headers_bytes_from(hs, i + 1) =~= prev
                    + headers_bytes_from(hs, i as int));
            }
            i = i + 1;
        }
        out.push(13);
        out.push(10);
        extend_bytes(&mut out, &self.body);
        proof {
            assert(headers_bytes_from(hs, i as int) =~= Seq::<u8>::empty());
            assert(out@ =~= response_bytes(selfv));
        }
        out
    }
}

} // verus!
