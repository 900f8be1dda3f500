//! Responses as plain values: a status code, an ordered list of headers and
//! a body of bytes.
//!
//! Header names are held in lower case, as the `http` crate normalises them;
//! header values are raw bytes, which need not be text.

use vstd::prelude::*;
use vstd::string::StringSliceAdditionalSpecFns;

verus! {

/// A header as (name, value).
pub type HeaderView = (Seq<char>, Seq<u8>);

/// One response header.
pub struct Header {
    pub name: String,
    pub value: Vec<u8>,
}

impl View for Header {
    type V = HeaderView;

    open spec fn view(&self) -> HeaderView {
        (self.name@, self.value@)
    }
}

impl Clone for Header {
    fn clone(&self) -> (r: Self)
        ensures
            r@ == self@,
    {
        let value = self.value.clone();
        assert(value@ =~= self.value@);
        Header { name: self.name.clone(), value }
    }
}

/// The mathematical value of a response.
pub struct ResponseView {
    pub status: u16,
    pub headers: Seq<HeaderView>,
    pub body: Seq<u8>,
}

/// A complete response, with its body fully read into memory. The store
/// keeps its entries in this form.
pub struct Response {
    pub status: u16,
    pub headers: Vec<Header>,
    pub body: Vec<u8>,
}

/// The values of a list of headers.
pub open spec fn headers_view(headers: Seq<Header>) -> Seq<HeaderView> {
    headers.map_values(|h: Header| h@)
}

impl View for Response {
    type V = ResponseView;

    open spec fn view(&self) -> ResponseView {
        ResponseView { status: self.status, headers: headers_view(self.headers@), body: self.body@ }
    }
}

/// A copy of a list of headers.
pub fn copy_headers(headers: &Vec<Header>) -> (r: Vec<Header>)
    ensures
        headers_view(r@) == headers_view(headers@),
{
    let mut out: Vec<Header> = Vec::new();
    let mut i: usize = 0;
    while i < headers.len()
        invariant
            i <= headers@.len(),
            out@.len() == i,
            forall|j: int| 0 <= j < i ==> out@[j]@ == headers@[j]@,
        decreases headers@.len() - i,
    {
        out.push(headers[i].clone());
        i = i + 1;
    }
    assert(headers_view(out@) =~= headers_view(headers@));
    out
}

impl Clone for Response {
    fn clone(&self) -> (r: Self)
        ensures
            r@ == self@,
    {
        let body = self.body.clone();
        assert(body@ =~= self.body@);
        Response { status: self.status, headers: copy_headers(&self.headers), body }
    }
}

/// The value of the first header named `name`, looking from position `from` on.
pub open spec fn find_header(headers: Seq<HeaderView>, name: Seq<char>, from: int) -> Option<Seq<u8>>
    decreases headers.len() - from,
{
    if from < 0 || from >= headers.len() {
        None
    } else if headers[from].0 == name {
        Some(headers[from].1)
    } else {
        find_header(headers, name, from + 1)
    }
}

/// The value of the first header named `name`, if there is one.
pub open spec fn header_value(headers: Seq<HeaderView>, name: Seq<char>) -> Option<Seq<u8>> {
    find_header(headers, name, 0)
}

/// The headers that are not named `name`, in their order.
pub open spec fn without_header(headers: Seq<HeaderView>, name: Seq<char>) -> Seq<HeaderView>
    decreases headers.len(),
{
    if headers.len() == 0 {
        headers
    } else {
        let rest = without_header(headers.drop_last(), name);
        if headers.last().0 == name {
            rest
        } else {
            rest.push(headers.last())
        }
    }
}

/// The headers with every value under `name` replaced by the single `value`.
pub open spec fn with_header(headers: Seq<HeaderView>, name: Seq<char>, value: Seq<u8>) -> Seq<HeaderView> {
    without_header(headers, name).push((name, value))
}

/// Whether two strings hold the same characters.
pub fn same_text(a: &str, b: &str) -> (r: bool)
    ensures
        r == (a@ == b@),
{
    let x = a.as_bytes();
    let y = b.as_bytes();
    proof {
        vstd::utf8::encode_utf8_decode_utf8(a@);
        vstd::utf8::encode_utf8_decode_utf8(b@);
    }
    if x.len() != y.len() {
        return false;
    }
    let mut i: usize = 0;
    while i < x.len()
        invariant
            i <= x@.len(),
            x@.len() == y@.len(),
            x@ == a.spec_bytes(),
            y@ == b.spec_bytes(),
            forall|j: int| 0 <= j < i ==> x@[j] == y@[j],
        decreases x@.len() - i,
    {
        if x[i] != y[i] {
            return false;
        }
        i = i + 1;
    }
    assert(x@ =~= y@);
    true
}

/// No header named `name` is left after removing that name.
pub proof fn lemma_without_header_excludes(headers: Seq<HeaderView>, name: Seq<char>)
    ensures
        forall|i: int| 0 <= i < without_header(headers, name).len() ==> (#[trigger] without_header(headers, name)[i]).0 != name,
    decreases headers.len(),
{
    if headers.len() > 0 {
        lemma_without_header_excludes(headers.drop_last(), name);
        let rest = without_header(headers.drop_last(), name);
        let all = without_header(headers, name);
        assert forall|i: int| 0 <= i < all.len() implies (#[trigger] all[i]).0 != name by {
            if i < rest.len() {
                assert(all[i] == rest[i]);
            }
        }
    }
}

/// Removing a name commutes with appending a header of another name.
pub proof fn lemma_without_header_push(headers: Seq<HeaderView>, h: HeaderView, name: Seq<char>)
    requires
        h.0 != name,
    ensures
        without_header(headers.push(h), name) == without_header(headers, name).push(h),
{
    assert(headers.push(h).drop_last() =~= headers);
}

/// The first header named `name` from `from` on is the one at `i` when none
/// between them has that name.
pub proof fn lemma_find_header_at(headers: Seq<HeaderView>, name: Seq<char>, from: int, i: int)
    requires
        0 <= from <= i < headers.len(),
        headers[i].0 == name,
        forall|j: int| from <= j < i ==> (#[trigger] headers[j]).0 != name,
    ensures
        find_header(headers, name, from) == Some(headers[i].1),
    decreases i - from,
{
    if from < i {
        lemma_find_header_at(headers, name, from + 1, i);
    }
}

/// Index of the first header named `name`, if there is one.
pub fn find_header_index(headers: &Vec<Header>, name: &str) -> (r: Option<usize>)
    ensures
        match r {
            Some(i) => i < headers@.len() && header_value(headers_view(headers@), name@) == Some(
                headers@[i as int].value@,
            ),
            None => header_value(headers_view(headers@), name@) is None,
        },
{
    let ghost hs = headers_view(headers@);
    let mut i: usize = 0;
    while i < headers.len()
        invariant
            i <= headers@.len(),
            hs == headers_view(headers@),
            header_value(hs, name@) == find_header(hs, name@, i as int),
        decreases headers@.len() - i,
    {
        if same_text(headers[i].name.as_str(), name) {
            return Some(i);
        }
        i = i + 1;
    }
    None
}

/// Sets the header `name` to `value`, dropping every earlier value under that name.
pub fn set_header(headers: &mut Vec<Header>, name: &str, value: Vec<u8>)
    ensures
        headers_view(final(headers)@) == with_header(headers_view(old(headers)@), name@, value@),
{
    let ghost hs = headers_view(headers@);
    let mut out: Vec<Header> = Vec::new();
    let mut i: usize = 0;
    while i < headers.len()
        invariant
            i <= headers@.len(),
            hs == headers_view(headers@),
            headers_view(out@) == without_header(hs.subrange(0, i as int), name@),
        decreases headers@.len() - i,
    {
        let ghost before = out@;
        if !same_text(headers[i].name.as_str(), name) {
            out.push(headers[i].clone());
            assert(headers_view(out@) =~= headers_view(before).push(hs[i as int]));
        }
        i = i + 1;
        assert(hs.subrange(0, i as int).drop_last() =~= hs.subrange(0, i as int - 1));
    }
    assert(hs.subrange(0, i as int) =~= hs);
    let ghost kept = out@;
    out.push(Header { name: name.to_string(), value });
    assert(headers_view(out@) =~= headers_view(kept).push((name@, value@)));
    *headers = out;
}

} // verus!
