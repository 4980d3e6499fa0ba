//! The byte constants of the protocol: header names, route prefixes and
//! fixed phrases, each as a spec sequence with its executable twin.

use vstd::prelude::*;
use vstd::slice::slice_to_vec;

verus! {

/// `HTTP/1.1`
pub open spec fn http11() -> Seq<u8> {
    seq![72u8, 84u8, 84u8, 80u8, 47u8, 49u8, 46u8, 49u8]
}

pub fn http11_bytes() -> (r: Vec<u8>)
    ensures
        r@ == http11(),
{
    let a: [u8; 8] = [72, 84, 84, 80, 47, 49, 46, 49];
    let v = slice_to_vec(a.as_slice());
    proof {
        assert(v@ =~= http11());
    }
    v
}

/// `OK`
pub open spec fn ok_phrase() -> Seq<u8> {
    seq![79u8, 75u8]
}

pub fn ok_phrase_bytes() -> (r: Vec<u8>)
    ensures
        r@ == ok_phrase(),
{
    let a: [u8; 2] = [79, 75];
    let v = slice_to_vec(a.as_slice());
    proof {
        assert(v@ =~= ok_phrase());
    }
    v
}

/// `Server`
pub open spec fn server_name() -> Seq<u8> {
    seq![83u8, 101u8, 114u8, 118u8, 101u8, 114u8]
}

pub fn server_name_bytes() -> (r: Vec<u8>)
    ensures
        r@ == server_name(),
{
    let a: [u8; 6] = [83, 101, 114, 118, 101, 114];
    let v = slice_to_vec(a.as_slice());
    proof {
        assert(v@ =~= server_name());
    }
    v
}

/// the server's name
pub open spec fn server_value() -> Seq<u8> {
    seq![102u8, 97u8, 114u8, 97u8, 115u8]
}

pub fn server_value_bytes() -> (r: Vec<u8>)
    ensures
        r@ == server_value(),
{
    let a: [u8; 5] = [102, 97, 114, 97, 115];
    let v = slice_to_vec(a.as_slice());
    proof {
        assert(v@ =~= server_value());
    }
    v
}

/// `Content-Type`
pub open spec fn content_type_name() -> Seq<u8> {
    seq![67u8, 111u8, 110u8, 116u8, 101u8, 110u8, 116u8, 45u8, 84u8, 121u8, 112u8, 101u8]
}

pub fn content_type_name_bytes() -> (r: Vec<u8>)
    ensures
        r@ == content_type_name(),
{
    let a: [u8; 12] = [67, 111, 110, 116, 101, 110, 116, 45, 84, 121, 112, 101];
    let v = slice_to_vec(a.as_slice());
    proof {
        assert(v@ =~= content_type_name());
    }
    v
}

/// `text/plain`
pub open spec fn text_plain() -> Seq<u8> {
    seq![116u8, 101u8, 120u8, 116u8, 47u8, 112u8, 108u8, 97u8, 105u8, 110u8]
}

pub fn text_plain_bytes() -> (r: Vec<u8>)
    ensures
        r@ == text_plain(),
{
    let a: [u8; 10] = [116, 101, 120, 116, 47, 112, 108, 97, 105, 110];
    let v = slice_to_vec(a.as_slice());
    proof {
        assert(v@ =~= text_plain());
    }
    v
}

/// `application/octet-stream`
pub open spec fn octet_stream() -> Seq<u8> {
    seq![97u8, 112u8, 112u8, 108u8, 105u8, 99u8, 97u8, 116u8, 105u8, 111u8, 110u8, 47u8, 111u8, 99u8, 116u8, 101u8, 116u8, 45u8, 115u8, 116u8, 114u8, 101u8, 97u8, 109u8]
}

pub fn octet_stream_bytes() -> (r: Vec<u8>)
    ensures
        r@ == octet_stream(),
{
    let a: [u8; 24] = [97, 112, 112, 108, 105, 99, 97, 116, 105, 111, 110, 47, 111, 99, 116, 101, 116, 45, 115, 116, 114, 101, 97, 109];
    let v = slice_to_vec(a.as_slice());
    proof {
        assert(v@ =~= octet_stream());
    }
    v
}

/// `Accept-Encoding`
pub open spec fn accept_encoding_name() -> Seq<u8> {
    seq![65u8, 99u8, 99u8, 101u8, 112u8, 116u8, 45u8, 69u8, 110u8, 99u8, 111u8, 100u8, 105u8, 110u8, 103u8]
}

pub fn accept_encoding_name_bytes() -> (r: Vec<u8>)
    ensures
        r@ == accept_encoding_name(),
{
    let a: [u8; 15] = [65, 99, 99, 101, 112, 116, 45, 69, 110, 99, 111, 100, 105, 110, 103];
    let v = slice_to_vec(a.as_slice());
    proof {
        assert(v@ =~= accept_encoding_name());
    }
    v
}

/// `Content-Encoding`
pub open spec fn content_encoding_name() -> Seq<u8> {
    seq![67u8, 111u8, 110u8, 116u8, 101u8, 110u8, 116u8, 45u8, 69u8, 110u8, 99u8, 111u8, 100u8, 105u8, 110u8, 103u8]
}

pub fn content_encoding_name_bytes() -> (r: Vec<u8>)
    ensures
        r@ == content_encoding_name(),
{
    let a: [u8; 16] = [67, 111, 110, 116, 101, 110, 116, 45, 69, 110, 99, 111, 100, 105, 110, 103];
    let v = slice_to_vec(a.as_slice());
    proof {
        assert(v@ =~= content_encoding_name());
    }
    v
}

/// `gzip`
pub open spec fn gzip() -> Seq<u8> {
    seq![103u8, 122u8, 105u8, 112u8]
}

pub fn gzip_bytes() -> (r: Vec<u8>)
    ensures
        r@ == gzip(),
{
    let a: [u8; 4] = [103, 122, 105, 112];
    let v = slice_to_vec(a.as_slice());
    proof {
        assert(v@ =~= gzip());
    }
    v
}

/// `User-Agent`
pub open spec fn user_agent_name() -> Seq<u8> {
    seq![85u8, 115u8, 101u8, 114u8, 45u8, 65u8, 103u8, 101u8, 110u8, 116u8]
}

pub fn user_agent_name_bytes() -> (r: Vec<u8>)
    ensures
        r@ == user_agent_name(),
{
    let a: [u8; 10] = [85, 115, 101, 114, 45, 65, 103, 101, 110, 116];
    let v = slice_to_vec(a.as_slice());
    proof {
        assert(v@ =~= user_agent_name());
    }
    v
}

/// `GET`
pub open spec fn get_method() -> Seq<u8> {
    seq![71u8, 69u8, 84u8]
}

pub fn get_method_bytes() -> (r: Vec<u8>)
    ensures
        r@ == get_method(),
{
    let a: [u8; 3] = [71, 69, 84];
    let v = slice_to_vec(a.as_slice());
    proof {
        assert(v@ =~= get_method());
    }
    v
}

/// `POST`
pub open spec fn post_method() -> Seq<u8> {
    seq![80u8, 79u8, 83u8, 84u8]
}

pub fn post_method_bytes() -> (r: Vec<u8>)
    ensures
        r@ == post_method(),
{
    let a: [u8; 4] = [80, 79, 83, 84];
    let v = slice_to_vec(a.as_slice());
    proof {
        assert(v@ =~= post_method());
    }
    v
}

/// `/`
pub open spec fn root_path() -> Seq<u8> {
    seq![47u8]
}

pub fn root_path_bytes() -> (r: Vec<u8>)
    ensures
        r@ == root_path(),
{
    let a: [u8; 1] = [47];
    let v = slice_to_vec(a.as_slice());
    proof {
        assert(v@ =~= root_path());
    }
    v
}

/// `/echo/`
pub open spec fn echo_prefix() -> Seq<u8> {
    seq![47u8, 101u8, 99u8, 104u8, 111u8, 47u8]
}

pub fn echo_prefix_bytes() -> (r: Vec<u8>)
    ensures
        r@ == echo_prefix(),
{
    let a: [u8; 6] = [47, 101, 99, 104, 111, 47];
    let v = slice_to_vec(a.as_slice());
    proof {
        assert(v@ =~= echo_prefix());
    }
    v
}

/// `/user-agent`
pub open spec fn user_agent_path() -> Seq<u8> {
    seq![47u8, 117u8, 115u8, 101u8, 114u8, 45u8, 97u8, 103u8, 101u8, 110u8, 116u8]
}

pub fn user_agent_path_bytes() -> (r: Vec<u8>)
    ensures
        r@ == user_agent_path(),
{
    let a: [u8; 11] = [47, 117, 115, 101, 114, 45, 97, 103, 101, 110, 116];
    let v = slice_to_vec(a.as_slice());
    proof {
        assert(v@ =~= user_agent_path());
    }
    v
}

/// `/ip`
pub open spec fn ip_path() -> Seq<u8> {
    seq![47u8, 105u8, 112u8]
}

pub fn ip_path_bytes() -> (r: Vec<u8>)
    ensures
        r@ == ip_path(),
{
    let a: [u8; 3] = [47, 105, 112];
    let v = slice_to_vec(a.as_slice());
    proof {
        assert(v@ =~= ip_path());
    }
    v
}

/// `/files/`
pub open spec fn files_prefix() -> Seq<u8> {
    seq![47u8, 102u8, 105u8, 108u8, 101u8, 115u8, 47u8]
}

pub fn files_prefix_bytes() -> (r: Vec<u8>)
    ensures
        r@ == files_prefix(),
{
    let a: [u8; 7] = [47, 102, 105, 108, 101, 115, 47];
    let v = slice_to_vec(a.as_slice());
    proof {
        assert(v@ =~= files_prefix());
    }
    v
}

/// `Hello, World!`
pub open spec fn hello_world() -> Seq<u8> {
    seq![72u8, 101u8, 108u8, 108u8, 111u8, 44u8, 32u8, 87u8, 111u8, 114u8, 108u8, 100u8, 33u8]
}

pub fn hello_world_bytes() -> (r: Vec<u8>)
    ensures
        r@ == hello_world(),
{
    let a: [u8; 13] = [72, 101, 108, 108, 111, 44, 32, 87, 111, 114, 108, 100, 33];
    let v = slice_to_vec(a.as_slice());
    proof {
        assert(v@ =~= hello_world());
    }
    v
}

/// `Not Found`
pub open spec fn not_found() -> Seq<u8> {
    seq![78u8, 111u8, 116u8, 32u8, 70u8, 111u8, 117u8, 110u8, 100u8]
}

pub fn not_found_bytes() -> (r: Vec<u8>)
    ensures
        r@ == not_found(),
{
    let a: [u8; 9] = [78, 111, 116, 32, 70, 111, 117, 110, 100];
    let v = slice_to_vec(a.as_slice());
    proof {
        assert(v@ =~= not_found());
    }
    v
}

/// `Created`
pub open spec fn created() -> Seq<u8> {
    seq![67u8, 114u8, 101u8, 97u8, 116u8, 101u8, 100u8]
}

pub fn created_bytes() -> (r: Vec<u8>)
    ensures
        r@ == created(),
{
    let a: [u8; 7] = [67, 114, 101, 97, 116, 101, 100];
    let v = slice_to_vec(a.as_slice());
    proof {
        assert(v@ =~= created());
    }
    v
}

/// `Method Not Allowed`
pub open spec fn method_not_allowed() -> Seq<u8> {
    seq![77u8, 101u8, 116u8, 104u8, 111u8, 100u8, 32u8, 78u8, 111u8, 116u8, 32u8, 65u8, 108u8, 108u8, 111u8, 119u8, 101u8, 100u8]
}

pub fn method_not_allowed_bytes() -> (r: Vec<u8>)
    ensures
        r@ == method_not_allowed(),
{
    let a: [u8; 18] = [77, 101, 116, 104, 111, 100, 32, 78, 111, 116, 32, 65, 108, 108, 111, 119, 101, 100];
    let v = slice_to_vec(a.as_slice());
    proof {
        assert(v@ =~= method_not_allowed());
    }
    v
}

} // verus!
