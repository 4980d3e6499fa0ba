//! Content-encoding negotiation: when the client's advertised encoding list
//! names `gzip`, the response body is replaced by its gzip form and a
//! `Content-Encoding` header is set; otherwise the response is untouched.

use vstd::prelude::*;

use crate::bytes::bytes_eq;
use crate::headers::{
    contains_name, find_header, lemma_set_header_of, lemma_set_header_wf, set_header_of,
    values_of, HeaderV,
};
use crate::lit::{accept_encoding_name, accept_encoding_name_bytes, content_encoding_name,
    content_encoding_name_bytes, gzip, gzip_bytes};
use crate::request::Request;
use crate::response::{Response, ResponseV};

verus! {

/// What gzip decoding returns on any byte sequence: the decoded bytes, or
/// nothing when the input is not a well-formed gzip stream. The decoded
/// output depends on the input bytes alone.
pub uninterp spec fn gunzip_of(b: Seq<u8>) -> Option<Seq<u8>>;

/// Relies on flate2's `write::GzEncoder` (default level) and
/// `read::GzDecoder`: gzip compression is lossless and total for arbitrary
/// bytes, so decoding the encoder's output gives back exactly the input.
/// Writing into a `Vec` cannot fail, so `finish` returns `Ok`.
#[verifier::external_body]
fn gzip_compress(b: &Vec<u8>) -> (r: Vec<u8>)
    ensures
        gunzip_of(r@) == Some(b@),
{
    let mut enc = flate2::write::GzEncoder::new(Vec::new(), flate2::Compression::default());
    let _ = std::io::Write::write_all(&mut enc, b.as_slice());
    enc.finish().unwrap()
}

/// Whether the client's `Accept-Encoding` values name `gzip`.
pub open spec fn spec_wants_gzip(hs: Seq<HeaderV>) -> bool {
    contains_name(hs, accept_encoding_name()) && exists|k: int|
        0 <= k < values_of(hs, accept_encoding_name()).len() && values_of(
            hs,
            accept_encoding_name(),
        )[k] == gzip()
}

/// Negotiate the response's content encoding against the request. When the
/// client accepts `gzip` the body is compressed — decoding it gives back
/// exactly the old body — and `Content-Encoding: gzip` is set; otherwise
/// the response is left exactly as it was.
pub fn negotiate_encoding(req: &Request, resp: &mut Response)
    requires
        old(resp).wf(),
    ensures
        final(resp).wf(),
        spec_wants_gzip(req.headers.deep_view()) ==> {
            &&& final(resp)@.status_line == old(resp)@.status_line
            &&& final(resp)@.headers == set_header_of(
                old(resp)@.headers,
                content_encoding_name(),
                seq![gzip()],
            )
            &&& gunzip_of(final(resp)@.body) == Some(old(resp)@.body)
        },
        !spec_wants_gzip(req.headers.deep_view()) ==> final(resp)@ == old(resp)@,
{
    let ghost hs = req.headers.deep_view();
    let aek = accept_encoding_name_bytes();
    let idx = find_header(&req.headers, &aek);
    let mut wants: bool = false;
    if idx < req.headers.len() {
        let vals = &req.headers[idx].values;
        let ghost vdv = values_of(hs, accept_encoding_name());
        proof {
            assert(vals.deep_view() == vdv);
        }
        let g = gzip_bytes();
        let mut k: usize = 0;
        while k < vals.len()
            invariant
                k <= vals@.len(),
                vdv == vals.deep_view(),
                vdv.len() == vals@.len(),
                g@ == gzip(),
                wants <==> exists|j: int| 0 <= j < k && vdv[j] == gzip(),
            decreases vals@.len() - k,
        {
            proof {
                assert(vdv[k as int] =~= vals@[k as int]@);
            }
            if bytes_eq(&vals[k], &g) {
                wants = true;
            }
            k = k + 1;
        }
    }
    if wants {
        let compressed = gzip_compress(&resp.body);
        resp.body = compressed;
        let mut vs: Vec<Vec<u8>> = Vec::new();
        vs.push(gzip_bytes());
        proof {
            assert(vs.deep_view() =~~= seq![gzip()]);
        }
        resp.set_header(content_encoding_name_bytes(), vs);
        proof {
            lemma_set_header_wf(old(resp)@.headers, content_encoding_name(), seq![gzip()]);
        }
    }
}

} // verus!
