//! Decides whether a response belongs to one of the cacheable asset classes,
//! by a case-sensitive substring test of its content type.

use vstd::prelude::*;
use vstd::string::StringSliceAdditionalSpecFns;

use crate::message::{header_value, headers_view, find_header_index, Header, HeaderView};

verus! {

/// `needle` occurs in `hay` starting at byte `i`.
pub open spec fn occurs_at(hay: Seq<u8>, needle: Seq<u8>, i: int) -> bool {
    0 <= i && i + needle.len() <= hay.len() && hay.subrange(i, i + needle.len()) == needle
}

/// `needle` occurs somewhere in `hay` as a contiguous run of bytes.
pub open spec fn occurs_in(hay: Seq<u8>, needle: Seq<u8>) -> bool {
    exists|i: int| occurs_at(hay, needle, i)
}

fn matches_at(hay: &[u8], needle: &[u8], start: usize) -> (r: bool)
    requires
        start + needle@.len() <= hay@.len(),
    ensures
        r == occurs_at(hay@, needle@, start as int),
{
    let n: usize = hay.len();
    let mut j: usize = 0;
    while j < needle.len()
        invariant
            n == hay@.len(),
            j <= needle@.len(),
            start + needle@.len() <= hay@.len(),
            forall|k: int| 0 <= k < j ==> hay@[start + k] == needle@[k],
        decreases needle@.len() - j,
    {
        if hay[start + j] != needle[j] {
            assert(hay@.subrange(start as int, start + needle@.len())[j as int] != needle@[j as int]);
            return false;
        }
        j = j + 1;
    }
    assert(hay@.subrange(start as int, start + needle@.len()) =~= needle@);
    true
}

/// Whether `needle` occurs in `hay`.
pub fn contains_bytes(hay: &[u8], needle: &[u8]) -> (r: bool)
    ensures
        r == occurs_in(hay@, needle@),
{
    if needle.len() > hay.len() {
        return false;
    }
    let last: usize = hay.len() - needle.len();
    let mut i: usize = 0;
    loop
        invariant
            i <= last,
            last + needle@.len() == hay@.len(),
            forall|k: int| 0 <= k < i ==> !occurs_at(hay@, needle@, k),
        decreases last - i,
    {
        if matches_at(hay, needle, i) {
            return true;
        }
        if i == last {
            assert forall|k: int| !occurs_at(hay@, needle@, k) by {
                if 0 <= k <= i {
                }
            }
            return false;
        }
        i = i + 1;
    }
}

/// The name of the header that declares a response's content type.
pub const CONTENT_TYPE: &'static str = "content-type";

/// The asset classes that may be cached, as tags looked for in a content type.
pub open spec fn asset_types() -> Seq<&'static str> {
    seq!["css", "javascript", "wasm", "webp", "ttf", "x-icon"]
}

fn asset_type(k: usize) -> (r: &'static str)
    requires
        k < asset_types().len(),
    ensures
        r == asset_types()[k as int],
{
    match k {
        0 => "css",
        1 => "javascript",
        2 => "wasm",
        3 => "webp",
        4 => "ttf",
        _ => "x-icon",
    }
}

/// A content type is cacheable when one of the asset tags occurs in it.
pub open spec fn cacheable(content_type: Seq<u8>) -> bool {
    exists|k: int| 0 <= k < asset_types().len() && occurs_in(content_type, #[trigger] asset_types()[k].spec_bytes())
}

fn cacheable_bytes(content_type: &[u8]) -> (r: bool)
    ensures
        r == cacheable(content_type@),
{
    let mut k: usize = 0;
    while k < 6
        invariant
            asset_types().len() == 6,
            forall|j: int| 0 <= j < k ==> !occurs_in(content_type@, #[trigger] asset_types()[j].spec_bytes()),
        decreases 6 - k,
    {
        if contains_bytes(content_type, asset_type(k).as_bytes()) {
            return true;
        }
        k = k + 1;
    }
    false
}

/// Whether a content type names a cacheable asset class: true exactly when
/// one of the tags `css`, `javascript`, `wasm`, `webp`, `ttf`, `x-icon`
/// occurs in it, case-sensitively.
pub fn is_cacheable(content_type: &str) -> (r: bool)
    ensures
        r == cacheable(content_type.spec_bytes()),
{
    cacheable_bytes(content_type.as_bytes())
}

/// A byte that may stand in a header value read as text: visible ASCII or a tab.
pub open spec fn visible_ascii(b: u8) -> bool {
    (32 <= b && b < 127) || b == 9
}

/// A header value that can be read as text.
pub open spec fn is_text(value: Seq<u8>) -> bool {
    forall|i: int| 0 <= i < value.len() ==> visible_ascii(#[trigger] value[i])
}

fn text_value(value: &[u8]) -> (r: bool)
    ensures
        r == is_text(value@),
{
    let mut i: usize = 0;
    while i < value.len()
        invariant
            i <= value@.len(),
            forall|j: int| 0 <= j < i ==> visible_ascii(#[trigger] value@[j]),
        decreases value@.len() - i,
    {
        let b = value[i];
        if !((32 <= b && b < 127) || b == 9) {
            return false;
        }
        i = i + 1;
    }
    true
}

/// A response is eligible for storage when its first content-type header
/// reads as text and names a cacheable asset class. A missing or unreadable
/// content type makes it ineligible.
pub open spec fn eligible(headers: Seq<HeaderView>) -> bool {
    match header_value(headers, CONTENT_TYPE@) {
        Some(v) => is_text(v) && cacheable(v),
        None => false,
    }
}

/// Whether a response with these headers may be stored.
pub fn has_cacheable_type(headers: &Vec<Header>) -> (r: bool)
    ensures
        r == eligible(headers_view(headers@)),
{
    match find_header_index(headers, CONTENT_TYPE) {
        Some(i) => {
            let value = headers[i].value.as_slice();
            text_value(value) && cacheable_bytes(value)
        },
        None => false,
    }
}

} // verus!
