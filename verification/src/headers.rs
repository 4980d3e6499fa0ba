//! Header lists for requests and responses: an association list of header
//! names to ordered value lists, looked up by first occurrence.

use vstd::prelude::*;

verus! {

/// One header: a name and its ordered list of values.
pub struct Header {
    pub name: Vec<u8>,
    pub values: Vec<Vec<u8>>,
}

/// The mathematical value of a `Header`.
#[verifier::ext_equal]
pub ghost struct HeaderV {
    pub name: Seq<u8>,
    pub values: Seq<Seq<u8>>,
}

impl DeepView for Header {
    type V = HeaderV;

    open spec fn deep_view(&self) -> HeaderV {
        HeaderV { name: self.name@, values: self.values.deep_view() }
    }
}

/// Index of the first header named `n` at or after `i`, or `hs.len()` if none.
pub open spec fn name_idx(hs: Seq<HeaderV>, n: Seq<u8>, i: int) -> int
    decreases hs.len() - i,
{
    if i < 0 || i >= hs.len() {
        hs.len() as int
    } else if hs[i].name == n {
        i
    } else {
        name_idx(hs, n, i + 1)
    }
}

pub open spec fn contains_name(hs: Seq<HeaderV>, n: Seq<u8>) -> bool {
    name_idx(hs, n, 0) < hs.len()
}

/// The values of the first header named `n`.
pub open spec fn values_of(hs: Seq<HeaderV>, n: Seq<u8>) -> Seq<Seq<u8>> {
    hs[name_idx(hs, n, 0)].values
}

/// Insertion as the request parser performs it: a name already present
/// keeps its first value list, and the new one is dropped.
pub open spec fn insert_first_wins(hs: Seq<HeaderV>, h: HeaderV) -> Seq<HeaderV> {
    if contains_name(hs, h.name) {
        hs
    } else {
        hs.push(h)
    }
}

/// Replacement as the response model performs it: an existing header named
/// `n` is overwritten in place, else the header is appended.
pub open spec fn set_header_of(hs: Seq<HeaderV>, n: Seq<u8>, vs: Seq<Seq<u8>>) -> Seq<HeaderV> {
    let h = HeaderV { name: n, values: vs };
    if contains_name(hs, n) {
        hs.update(name_idx(hs, n, 0), h)
    } else {
        hs.push(h)
    }
}

pub proof fn lemma_name_idx_range(hs: Seq<HeaderV>, n: Seq<u8>, i: int)
    requires
        0 <= i <= hs.len(),
    ensures
        i <= name_idx(hs, n, i) <= hs.len(),
        name_idx(hs, n, i) < hs.len() ==> hs[name_idx(hs, n, i)].name == n,
    decreases hs.len() - i,
{
    if i < hs.len() && hs[i].name != n {
        lemma_name_idx_range(hs, n, i + 1);
    }
}

/// Index of the first header named `n`, or `hs.len()` if there is none.
pub fn find_header(hs: &Vec<Header>, n: &Vec<u8>) -> (r: usize)
    ensures
        r == name_idx(hs.deep_view(), n@, 0),
        r <= hs@.len(),
        r < hs@.len() ==> hs.deep_view()[r as int].name == n@,
{
    let ghost dv = hs.deep_view();
    let mut i: usize = 0;
    while i < hs.len()
        invariant
            i <= hs@.len(),
            dv == hs.deep_view(),
            dv.len() == hs@.len(),
            name_idx(dv, n@, 0) == name_idx(dv, n@, i as int),
        decreases hs@.len() - i,
    {
        if crate::bytes::bytes_eq(&hs[i].name, n) {
            return i;
        }
        i = i + 1;
    }
    i
}

/// Add `h` unless a header of that name is already present: the first
/// occurrence of a name wins and later ones are dropped.
pub fn insert_header(hs: &mut Vec<Header>, h: Header)
    ensures
        final(hs).deep_view() == insert_first_wins(old(hs).deep_view(), h.deep_view()),
{
    let idx = find_header(hs, &h.name);
    if idx == hs.len() {
        let ghost prev = hs.deep_view();
        let ghost hv = h.deep_view();
        hs.push(h);
        proof {
            assert(hs.deep_view() =~~= prev.push(hv));
        }
    }
}

/// A repeated header name changes nothing: the first occurrence's values
/// survive and the later ones are dropped.
pub proof fn lemma_duplicate_header_dropped(hs: Seq<HeaderV>, h: HeaderV)
    requires
        contains_name(hs, h.name),
    ensures
        insert_first_wins(hs, h) == hs,
{
}

/// A header whose name is new is kept whole: it is appended with exactly
/// the values it arrived with.
pub proof fn lemma_new_header_kept(hs: Seq<HeaderV>, h: HeaderV)
    requires
        !contains_name(hs, h.name),
    ensures
        insert_first_wins(hs, h) == hs.push(h),
        contains_name(insert_first_wins(hs, h), h.name),
        values_of(insert_first_wins(hs, h), h.name) == h.values,
        forall|n: Seq<u8>|
            contains_name(hs, n) ==> #[trigger] values_of(insert_first_wins(hs, h), n)
                == values_of(hs, n),
{
    let res = hs.push(h);
    lemma_name_idx_range(hs, h.name, 0);
    lemma_name_idx_is_first(hs, h.name, 0);
    lemma_name_idx_found(res, h.name, 0, hs.len() as int);
    assert forall|n: Seq<u8>| contains_name(hs, n) implies #[trigger] values_of(res, n)
        == values_of(hs, n) by {
        lemma_name_idx_range(hs, n, 0);
        lemma_name_idx_is_first(hs, n, 0);
        lemma_name_idx_found(res, n, 0, name_idx(hs, n, 0));
    }
}

/// Up to the first header named `n` there is no header named `n`.
pub proof fn lemma_name_idx_is_first(hs: Seq<HeaderV>, n: Seq<u8>, i: int)
    requires
        0 <= i <= hs.len(),
    ensures
        forall|j: int| i <= j < name_idx(hs, n, i) ==> hs[j].name != n,
    decreases hs.len() - i,
{
    if i < hs.len() && hs[i].name != n {
        lemma_name_idx_is_first(hs, n, i + 1);
    }
}

/// A header named `n` at `k`, with none before it, is the first one.
pub proof fn lemma_name_idx_found(hs: Seq<HeaderV>, n: Seq<u8>, i: int, k: int)
    requires
        0 <= i <= k < hs.len(),
        hs[k].name == n,
        forall|j: int| i <= j < k ==> hs[j].name != n,
    ensures
        name_idx(hs, n, i) == k,
    decreases hs.len() - i,
{
    if i < k {
        lemma_name_idx_found(hs, n, i + 1, k);
    }
}

/// After `set_header_of`, the first header named `n` holds exactly `vs`,
/// and every other header is untouched.
pub proof fn lemma_set_header_of(hs: Seq<HeaderV>, n: Seq<u8>, vs: Seq<Seq<u8>>)
    ensures
        contains_name(set_header_of(hs, n, vs), n),
        values_of(set_header_of(hs, n, vs), n) == vs,
{
    let res = set_header_of(hs, n, vs);
    lemma_name_idx_range(hs, n, 0);
    lemma_name_idx_is_first(hs, n, 0);
    let idx = name_idx(hs, n, 0);
    if idx < hs.len() {
        lemma_name_idx_found(res, n, 0, idx);
    } else {
        lemma_name_idx_found(res, n, 0, hs.len() as int);
    }
}

/// `set_header_of` keeps every value list non-empty when `vs` is.
pub proof fn lemma_set_header_wf(hs: Seq<HeaderV>, n: Seq<u8>, vs: Seq<Seq<u8>>)
    requires
        forall|k: int| 0 <= k < hs.len() ==> #[trigger] hs[k].values.len() >= 1,
        vs.len() >= 1,
    ensures
        forall|k: int|
            0 <= k < set_header_of(hs, n, vs).len() ==> #[trigger] set_header_of(hs, n, vs)[k].values.len()
                >= 1,
{
    lemma_name_idx_range(hs, n, 0);
}

/// A name is contained exactly when some header carries it.
pub proof fn lemma_contains_name_iff(hs: Seq<HeaderV>, n: Seq<u8>)
    ensures
        contains_name(hs, n) <==> exists|k: int| 0 <= k < hs.len() && #[trigger] hs[k].name == n,
{
    lemma_name_idx_range(hs, n, 0);
    lemma_name_idx_is_first(hs, n, 0);
    if contains_name(hs, n) {
        assert(hs[name_idx(hs, n, 0)].name == n);
    }
}

/// The comma-and-space joined tail of `vs` from `i` on.
pub open spec fn join_rest(vs: Seq<Seq<u8>>, i: int) -> Seq<u8>
    decreases vs.len() - i,
{
    if i < 0 || i >= vs.len() {
        Seq::empty()
    } else {
        seq![44u8, 32u8] + vs[i] + join_rest(vs, i + 1)
    }
}

/// The values joined with `, `, as one header line carries them.
pub open spec fn join_comma(vs: Seq<Seq<u8>>) -> Seq<u8> {
    if vs.len() == 0 {
        Seq::empty()
    } else {
        vs[0] + join_rest(vs, 1)
    }
}

/// Join the values with `, `.
pub fn join_values(vs: &Vec<Vec<u8>>) -> (r: Vec<u8>)
    ensures
        r@ == join_comma(vs.deep_view()),
{
    let ghost dv = vs.deep_view();
    let mut out: Vec<u8> = Vec::new();
    if vs.len() == 0 {
        return out;
    }
    crate::bytes::extend_bytes(&mut out, &vs[0]);
    proof {
        assert(out@ =~= dv[0]);
    }
    let mut i: usize = 1;
    while i < vs.len()
        invariant
            1 <= i <= dv.len(),
            dv == vs.deep_view(),
            dv.len() == vs@.len(),
            out@ + join_rest(dv, i as int) == join_comma(dv),
        decreases vs@.len() - i,
    {
        let ghost prev = out@;
        out.push(44);
        out.push(32);
        crate::bytes::extend_bytes(&mut out, &vs[i]);
        proof {
            assert(out@ =~= prev + (seq![44u8, 32u8] + dv[i as int]));
            assert(prev + (seq![44u8, 32u8] + dv[i as int]) + join_rest(dv, i + 1) =~= prev
                + join_rest(dv, i as int));
        }
        i = i + 1;
    }
    proof {
        assert(out@ + join_rest(dv, i as int) =~= out@);
    }
    out
}

/// Overwrite the first header named `name` with `values`, or append one.
pub fn set_header(hs: &mut Vec<Header>, name: Vec<u8>, values: Vec<Vec<u8>>)
    ensures
        final(hs).deep_view() == set_header_of(old(hs).deep_view(), name@, values.deep_view()),
{
    let ghost prev = hs.deep_view();
    let ghost hv = HeaderV { name: name@, values: values.deep_view() };
    let idx = find_header(hs, &name);
    if idx == hs.len() {
        hs.push(Header { name, values });
        proof {
            assert(hs.deep_view() =~~= prev.push(hv));
        }
    } else {
        hs.set(idx, Header { name, values });
        proof {
            assert(hs.deep_view() =~~= prev.update(idx as int, hv));
        }
    }
}

} // verus!
