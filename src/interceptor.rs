//! The decisions of the caching interceptor.
//!
//! A request is handled in two steps around the downstream handler:
//! `lookup` serves a stored response, or says to forward the request; after
//! a forward, `complete` takes what the handler produced (with its body read
//! in full, or the failure to read it), tags it, stores it when its content
//! type is cacheable, and gives the response to send.

use vstd::prelude::*;
use vstd::string::{StrSliceExecFns, StringSliceAdditionalSpecFns};

use crate::eligibility::{eligible, has_cacheable_type};
use crate::message::{
    header_value, lemma_find_header_at, lemma_without_header_excludes,
    lemma_without_header_push, headers_view, set_header, with_header, without_header, Header,
    HeaderView, Response, ResponseView,
};
use crate::store::{
    bounded, lemma_lookup_after_put, lookup, put, touch, Entries, ResponseCache,
};

verus! {

/// The number of responses the store holds in the standard set-up.
pub const CACHE_CAPACITY: usize = 200;

/// The status of a response served from the store.
pub const HIT_STATUS: u16 = 206;

/// The status of the response sent when a body could not be read.
pub const STORAGE_FAILURE_STATUS: u16 = 507;

/// The body of the response sent when a body could not be read.
pub const STORAGE_FAILURE_BODY: &'static str = "Failed to convert body to bytes";

pub const CACHE_STATUS_HEADER: &'static str = "x-cache-status";

pub const CACHE_STATUS_VALUE: &'static str = "HIT";

pub const CACHE_CONTROL_HEADER: &'static str = "cache-control";

pub const CACHE_CONTROL_VALUE: &'static str = "public, max-age=31536000";

/// The key of a request: its target (path and query), as it stands.
pub open spec fn key_of(target: Seq<char>) -> Seq<char> {
    target
}

/// The store key for a request target. No normalisation is done: targets
/// that differ in case, a trailing slash or the order of the query are
/// different keys.
pub fn cache_key(target: &str) -> (r: String)
    ensures
        r@ == key_of(target@),
{
    target.to_owned()
}

/// Two requests with the same target have the same key.
pub proof fn lemma_key_deterministic(target1: Seq<char>, target2: Seq<char>)
    requires
        target1 == target2,
    ensures
        key_of(target1) == key_of(target2),
{
}

/// The headers of a response that comes from the handler, with the two cache
/// headers set.
pub open spec fn tagged(headers: Seq<HeaderView>) -> Seq<HeaderView> {
    with_header(
        with_header(headers, CACHE_STATUS_HEADER@, CACHE_STATUS_VALUE.spec_bytes()),
        CACHE_CONTROL_HEADER@,
        CACHE_CONTROL_VALUE.spec_bytes(),
    )
}

/// A stored response as it is served again: with the hit status, and the
/// stored headers and body.
pub open spec fn hit_response(stored: ResponseView) -> ResponseView {
    ResponseView { status: HIT_STATUS, headers: stored.headers, body: stored.body }
}

/// The response sent when the handler's body could not be read.
pub open spec fn storage_failure() -> ResponseView {
    ResponseView {
        status: STORAGE_FAILURE_STATUS,
        headers: Seq::empty(),
        body: STORAGE_FAILURE_BODY.spec_bytes(),
    }
}

/// The store after a handler's response has been produced under `key`: the
/// response is written when the handler's headers make it eligible.
pub open spec fn store_after(
    s: Entries,
    key: Seq<char>,
    handler_headers: Seq<HeaderView>,
    response: ResponseView,
    capacity: nat,
) -> Entries {
    if eligible(handler_headers) {
        put(s, key, response, capacity)
    } else {
        s
    }
}

/// What to do with a request after the store was consulted.
pub enum Step {
    /// Send this response; the handler is not called.
    Serve(Response),
    /// Call the handler, then `complete`.
    Forward,
}

/// Looks `key` up in the store. A stored response is served with the hit
/// status and becomes the most recently used; otherwise the request is to
/// be forwarded.
pub fn lookup_step(cache: &mut ResponseCache, key: &str) -> (r: Step)
    ensures
        final(cache).capacity() == old(cache).capacity(),
        final(cache)@ == touch(old(cache)@, key@),
        match lookup(old(cache)@, key@) {
            Some(stored) => r matches Step::Serve(resp) && resp@ == hit_response(stored),
            None => r is Forward,
        },
{
    match cache.get(key) {
        Some(stored) => {
            let Response { status: _, headers, body } = stored;
            Step::Serve(Response { status: HIT_STATUS, headers, body })
        },
        None => Step::Forward,
    }
}

/// Finishes a forwarded request from what the handler produced: its status,
/// its headers, and its body read in full (`None` when reading failed).
///
/// With a body, the response keeps the handler's status and body, and its
/// headers get `x-cache-status: HIT` and `cache-control: public,
/// max-age=31536000` whatever the content type; it is stored under `key`
/// when the content type is cacheable. Without one, the response is the
/// storage failure and nothing is stored.
pub fn complete(
    cache: &mut ResponseCache,
    key: String,
    status: u16,
    headers: Vec<Header>,
    body: Option<Vec<u8>>,
) -> (r: Response)
    ensures
        final(cache).capacity() == old(cache).capacity(),
        body matches Some(b) ==> r@ == (ResponseView {
            status,
            headers: tagged(headers_view(headers@)),
            body: b@,
        }),
        body is Some ==> final(cache)@ == store_after(
            old(cache)@,
            key@,
            headers_view(headers@),
            r@,
            old(cache).capacity(),
        ),
        body is None ==> r@ == storage_failure() && final(cache)@ == old(cache)@,
{
    match body {
        Some(bytes) => {
            let store_it = has_cacheable_type(&headers);
            // Responses that are not stored get the cache headers too, which
            // tells clients to keep them for a year. Kept because clients may
            // rely on it; a candidate for change.
            let mut tags = headers;
            set_header(&mut tags, CACHE_STATUS_HEADER, CACHE_STATUS_VALUE.as_bytes_vec());
            set_header(&mut tags, CACHE_CONTROL_HEADER, CACHE_CONTROL_VALUE.as_bytes_vec());
            let response = Response { status, headers: tags, body: bytes };
            if store_it {
                cache.set(key, response.clone());
            }
            response
        },
        None => {
            let failure = Response {
                status: STORAGE_FAILURE_STATUS,
                headers: Vec::new(),
                body: STORAGE_FAILURE_BODY.as_bytes_vec(),
            };
            assert(headers_view(failure.headers@) =~= Seq::<HeaderView>::empty());
            failure
        },
    }
}

/// Once `complete` has stored a response under a key, the next lookup of
/// that key serves it with the hit status and the stored headers and body.
pub proof fn lemma_hit_after_store(
    s: Entries,
    key: Seq<char>,
    handler_headers: Seq<HeaderView>,
    response: ResponseView,
    capacity: nat,
)
    requires
        bounded(s, capacity),
        eligible(handler_headers),
    ensures
        lookup(store_after(s, key, handler_headers, response, capacity), key) == Some(response),
        hit_response(response).status == HIT_STATUS,
        hit_response(response).headers == response.headers,
        hit_response(response).body == response.body,
{
    lemma_lookup_after_put(s, key, response, capacity);
}

/// A handler's response that is not eligible is never stored: after a miss
/// on its key, the key is still absent once the response has been produced.
pub proof fn lemma_ineligible_not_stored(
    s: Entries,
    key: Seq<char>,
    handler_headers: Seq<HeaderView>,
    response: ResponseView,
    capacity: nat,
)
    requires
        lookup(s, key) is None,
        !eligible(handler_headers),
    ensures
        store_after(s, key, handler_headers, response, capacity) == s,
        lookup(store_after(s, key, handler_headers, response, capacity), key) is None,
{
}

/// Every response from the handler is tagged: its headers end with
/// `x-cache-status: HIT` and `cache-control: public, max-age=31536000`, the
/// only headers under those names, and the others keep their order.
pub proof fn lemma_tagged(headers: Seq<HeaderView>)
    ensures
        tagged(headers) == without_header(
            without_header(headers, CACHE_STATUS_HEADER@),
            CACHE_CONTROL_HEADER@,
        ).push((CACHE_STATUS_HEADER@, CACHE_STATUS_VALUE.spec_bytes())).push(
            (CACHE_CONTROL_HEADER@, CACHE_CONTROL_VALUE.spec_bytes()),
        ),
        header_value(tagged(headers), CACHE_STATUS_HEADER@) == Some(CACHE_STATUS_VALUE.spec_bytes()),
        header_value(tagged(headers), CACHE_CONTROL_HEADER@) == Some(CACHE_CONTROL_VALUE.spec_bytes()),
{
    let status_name = CACHE_STATUS_HEADER@;
    let control_name = CACHE_CONTROL_HEADER@;
    reveal_strlit("x-cache-status");
    reveal_strlit("cache-control");
    assert(status_name.len() != control_name.len());
    let status_tag = (status_name, CACHE_STATUS_VALUE.spec_bytes());
    let control_tag = (control_name, CACHE_CONTROL_VALUE.spec_bytes());
    let kept = without_header(without_header(headers, status_name), control_name);
    lemma_without_header_push(without_header(headers, status_name), status_tag, control_name);
    let t = tagged(headers);
    assert(t == kept.push(status_tag).push(control_tag));
    lemma_without_header_excludes(headers, status_name);
    lemma_without_header_excludes(without_header(headers, status_name), control_name);
    let w = without_header(headers, status_name);
    assert forall|j: int| 0 <= j < kept.len() implies (#[trigger] kept[j]).0 != status_name by {
        lemma_kept_names(w, control_name, status_name);
    }
    assert forall|j: int| 0 <= j < kept.len() + 1 implies (#[trigger] t[j]).0 != control_name by {
        if j < kept.len() {
            assert(t[j] == kept[j]);
        }
    }
    lemma_find_header_at(t, status_name, 0, kept.len() as int);
    lemma_find_header_at(t, control_name, 0, kept.len() as int + 1);
}

/// Removing one name keeps no header of a name that was absent already.
proof fn lemma_kept_names(headers: Seq<HeaderView>, removed: Seq<char>, absent: Seq<char>)
    requires
        forall|i: int| 0 <= i < headers.len() ==> (#[trigger] headers[i]).0 != absent,
    ensures
        forall|i: int| 0 <= i < without_header(headers, removed).len() ==> (#[trigger] without_header(headers, removed)[i]).0 != absent,
    decreases headers.len(),
{
    if headers.len() > 0 {
        let front = headers.drop_last();
        assert forall|i: int| 0 <= i < front.len() implies (#[trigger] front[i]).0 != absent by {
            assert(front[i] == headers[i]);
        }
        lemma_kept_names(front, removed, absent);
        let rest = without_header(front, removed);
        let all = without_header(headers, removed);
        assert forall|i: int| 0 <= i < all.len() implies (#[trigger] all[i]).0 != absent by {
            if i < rest.len() {
                assert(all[i] == rest[i]);
            } else {
                assert(all[i] == headers[headers.len() - 1]);
            }
        }
    }
}

} // verus!
