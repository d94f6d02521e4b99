use nucleus::auth::{
    bearer_token, generate_token, hash_token, token_access, ApiToken, AuthContext, DomainScope, Perm, Scope,
};
use nucleus::error::NucleusError;
use nucleus::id::{DomainId, TokenId};

#[test]
fn perm_ordering() {
    let ctx = AuthContext {
        token_id: TokenId::new(1),
        scopes: vec![Scope {
            domain: DomainScope::One(DomainId::new(7)),
            perm: Perm::Write,
        }],
    };
    assert!(ctx.allows(DomainId::new(7), Perm::Read));
    assert!(ctx.allows(DomainId::new(7), Perm::Write));
    assert!(!ctx.allows(DomainId::new(7), Perm::Admin));
    assert!(!ctx.allows(DomainId::new(8), Perm::Read)); // wrong domain
    assert!(!ctx.is_admin());
}

#[test]
fn admin_all_grants_everything() {
    let ctx = AuthContext {
        token_id: TokenId::new(1),
        scopes: vec![Scope::admin_all()],
    };
    assert!(ctx.is_admin());
    assert!(ctx.allows(DomainId::new(123), Perm::Write));
}

#[test]
fn tokens_are_unique_and_hash_is_stable() {
    let (a, ha) = generate_token();
    let (b, _hb) = generate_token();
    assert!(a.starts_with("nuc_"));
    assert_ne!(a, b);
    assert_eq!(hash_token(&a), ha);
}

#[test]
fn token_shape_is_prefix_and_64_hex_digits() {
    let (t, _) = generate_token();
    assert_eq!(t.len(), 68);
    assert!(t[4..].chars().all(|c| c.is_ascii_hexdigit() && !c.is_ascii_uppercase()));
}

#[test]
fn hash_token_is_sha256_of_the_text() {
    // SHA-256("abc")
    let h = hash_token("abc");
    assert_eq!(h[0], 0xba);
    assert_eq!(h[1], 0x78);
    assert_eq!(h[31], 0xad);
}

#[test]
fn empty_scopes_allow_nothing() {
    let ctx = AuthContext { token_id: TokenId::new(2), scopes: vec![] };
    assert!(!ctx.allows(DomainId::new(1), Perm::Read));
    assert!(!ctx.is_admin());
}

#[test]
fn domain_admin_is_not_global_admin() {
    let ctx = AuthContext {
        token_id: TokenId::new(3),
        scopes: vec![Scope { domain: DomainScope::One(DomainId::new(5)), perm: Perm::Admin }],
    };
    assert!(ctx.allows(DomainId::new(5), Perm::Admin));
    assert!(!ctx.is_admin());
}

#[test]
fn bearer_headers() {
    assert_eq!(bearer_token("Bearer  nuc_abc ").unwrap(), "nuc_abc");
    assert!(matches!(bearer_token("Basic xyz"), Err(NucleusError::Unauthorized)));
    assert!(matches!(bearer_token("bearer nuc_abc"), Err(NucleusError::Unauthorized)));
    assert!(matches!(bearer_token("Bearer"), Err(NucleusError::Unauthorized)));
    assert_eq!(bearer_token("Bearer ").unwrap(), "");
}

#[test]
fn expired_tokens_are_refused() {
    let tok = ApiToken {
        id: TokenId::new(3),
        name: "t".to_string(),
        hash: [0u8; 32],
        scopes: vec![Scope::admin_all()],
        created_at: 0,
        expires_at: Some(100),
    };
    let ctx = token_access(&tok, 100).unwrap();
    assert_eq!(ctx.token_id, TokenId::new(3));
    assert!(ctx.is_admin());
    assert!(matches!(token_access(&tok, 101), Err(NucleusError::Unauthorized)));
    let forever = ApiToken { expires_at: None, ..tok };
    assert!(token_access(&forever, i64::MAX).is_ok());
}
