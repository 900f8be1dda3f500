//! The guard in front of protected endpoints: a request goes on to the
//! inner service only when its session holds a token.

use vstd::prelude::*;
use vstd::string::{StrSliceExecFns, StringSliceAdditionalSpecFns};

use crate::message::{headers_view, HeaderView, Response, ResponseView};

verus! {

/// The status of the response to a request without a session token.
pub const UNAUTHORIZED_STATUS: u16 = 401;

/// The body of the response to a request without a session token.
pub const UNAUTHORIZED_BODY: &'static str = "Session does not exist";

/// The token kept in a signed-in user's session.
pub struct Token {
    value: String,
}

impl View for Token {
    type V = Seq<char>;

    closed spec fn view(&self) -> Seq<char> {
        self.value@
    }
}

impl Token {
    /// The session key under which the token is kept.
    pub const KEY: &'static str = "token";

    pub fn new(value: String) -> (r: Token)
        ensures
            r@ == value@,
    {
        Token { value }
    }

    pub fn as_str(&self) -> (r: &str)
        ensures
            r@ == self@,
    {
        self.value.as_str()
    }
}

/// Wraps a service in an `AuthService`.
pub struct AuthLayer;

impl AuthLayer {
    pub fn layer<S>(&self, inner: S) -> (r: AuthService<S>)
        ensures
            r.inner() == inner,
    {
        AuthService { inner }
    }
}

/// What the guard does with a request.
pub enum AuthDecision {
    /// Hand the request to the inner service.
    Forward,
    /// Answer with this response instead.
    Reject(Response),
}

/// The response to a request whose session holds no token.
pub open spec fn unauthorized() -> ResponseView {
    ResponseView {
        status: UNAUTHORIZED_STATUS,
        headers: Seq::empty(),
        body: UNAUTHORIZED_BODY.spec_bytes(),
    }
}

/// A service that lets a request through to `inner` only when its session
/// holds a token.
#[derive(Clone)]
pub struct AuthService<T> {
    inner: T,
}

impl<T> AuthService<T> {
    /// The wrapped service.
    pub closed spec fn inner(&self) -> T {
        self.inner
    }

    /// Access to the wrapped service, to poll or call it.
    pub fn inner_mut(&mut self) -> (r: &mut T)
        ensures
            *r == old(self).inner(),
            final(self).inner() == *final(r),
    {
        &mut self.inner
    }

    /// The guard's check, which always passes on its own; the session test
    /// is made by `decide`.
    pub fn handler() -> (r: Result<(), ()>)
        ensures
            r is Ok,
    {
        Ok(())
    }

    /// Forwards when the session holds a token (`Some`); otherwise rejects
    /// with status 401 and the body `Session does not exist`. A request
    /// without a session, or whose session could not be read, comes here
    /// as `None`.
    pub fn decide(token: &Option<Token>) -> (r: AuthDecision)
        ensures
            token is Some ==> r is Forward,
            token is None ==> (r matches AuthDecision::Reject(resp) && resp@ == unauthorized()),
    {
        match token {
            Some(_) => AuthDecision::Forward,
            None => {
                let resp = Response {
                    status: UNAUTHORIZED_STATUS,
                    headers: Vec::new(),
                    body: UNAUTHORIZED_BODY.as_bytes_vec(),
                };
                assert(headers_view(resp.headers@) =~= Seq::<HeaderView>::empty());
                AuthDecision::Reject(resp)
            },
        }
    }
}

} // verus!
