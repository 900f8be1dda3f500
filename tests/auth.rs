use cache_response::auth::{AuthDecision, AuthLayer, AuthService, Token, UNAUTHORIZED_STATUS};

#[test]
fn token_key_and_value() {
    assert_eq!(Token::KEY, "token");
    let t = Token::new("abc".to_string());
    assert_eq!(t.as_str(), "abc");
}

#[test]
fn handler_always_passes() {
    assert_eq!(AuthService::<u8>::handler(), Ok(()));
}

#[test]
fn request_with_token_is_forwarded() {
    let decision = AuthService::<u32>::decide(&Some(Token::new("jwt".to_string())));
    assert!(matches!(decision, AuthDecision::Forward));
}

#[test]
fn request_without_token_is_rejected() {
    match AuthService::<u32>::decide(&None) {
        AuthDecision::Reject(r) => {
            assert_eq!(r.status, 401);
            assert_eq!(r.status, UNAUTHORIZED_STATUS);
            assert_eq!(r.body, b"Session does not exist".to_vec());
            assert!(r.headers.is_empty());
        }
        AuthDecision::Forward => panic!("forwarded without a token"),
    }
}

#[test]
fn layer_wraps_the_inner_service() {
    let mut service = AuthLayer.layer(vec![1u8]);
    service.inner_mut().push(2);
    assert_eq!(service.inner_mut().clone(), vec![1, 2]);
}
