//! Token-based authentication and authorization.

use crate::crypto::random_bytes;
use sha2::{Digest, Sha256};
use vstd::prelude::*;

use crate::id::{DomainId, TokenId};
use crate::error::NucleusError;
use crate::text::{push_char, str_chars, string_from_chars, trim, trim_chars};

verus! {

/// Permission level, ordered Read < Write < Admin.
#[derive(Debug, Clone, Copy, PartialEq, Eq, Structural)]
pub enum Perm {
    Read,
    Write,
    Admin,
}

/// The position of a permission in the order Read < Write < Admin.
pub open spec fn perm_rank(p: Perm) -> nat {
    match p {
        Perm::Read => 0,
        Perm::Write => 1,
        Perm::Admin => 2,
    }
}

impl Perm {
    fn rank(self) -> (r: u8)
        ensures r == perm_rank(self),
    {
        match self {
            Perm::Read => 0,
            Perm::Write => 1,
            Perm::Admin => 2,
        }
    }
}


/// Which domain(s) a scope applies to.
#[derive(Debug, Clone, Copy, PartialEq, Eq, Structural)]
pub enum DomainScope {
    All,
    One(DomainId),
}

/// Whether a domain scope covers `domain`.
pub open spec fn scope_covers(s: DomainScope, domain: DomainId) -> bool {
    match s {
        DomainScope::All => true,
        DomainScope::One(d) => d == domain,
    }
}

impl DomainScope {
    fn matches(self, domain: DomainId) -> (r: bool)
        ensures r == scope_covers(self, domain),
    {
        match self {
            DomainScope::All => true,
            DomainScope::One(d) => d == domain,
        }
    }
}

/// A single grant: `perm` over `domain`.
#[derive(Debug, Clone, Copy, PartialEq, Eq, Structural)]
pub struct Scope {
    pub domain: DomainScope,
    pub perm: Perm,
}

impl Scope {
    /// A global administrator grant.
    pub fn admin_all() -> (r: Self)
        ensures r == (Scope { domain: DomainScope::All, perm: Perm::Admin }),
    {
        Scope { domain: DomainScope::All, perm: Perm::Admin }
    }
}

/// User-facing token prefix, purely for recognisability.
pub const TOKEN_PREFIX: &'static str = "nuc_";

/// A persisted API token. The plaintext is never stored — only `hash`.
#[derive(Debug, Clone)]
pub struct ApiToken {
    pub id: TokenId,
    pub name: String,
    pub hash: [u8; 32],
    pub scopes: Vec<Scope>,
    pub created_at: i64,
    pub expires_at: Option<i64>,
}

/// The authenticated identity attached to a request after the bearer token is
/// validated.
#[derive(Debug, Clone)]
pub struct AuthContext {
    pub token_id: TokenId,
    pub scopes: Vec<Scope>,
}

/// Some grant covers `domain` with at least the permission `need`.
pub open spec fn grants(scopes: Seq<Scope>, domain: DomainId, need: Perm) -> bool {
    exists|i: int| 0 <= i < scopes.len() && scope_covers(#[trigger] scopes[i].domain, domain)
        && perm_rank(scopes[i].perm) >= perm_rank(need)
}

/// Some grant is `Admin` over all domains.
pub open spec fn grants_admin(scopes: Seq<Scope>) -> bool {
    exists|i: int| 0 <= i < scopes.len() && (#[trigger] scopes[i]).domain == DomainScope::All
        && scopes[i].perm == Perm::Admin
}

/// Permissions are ordered: whatever a set of grants allows on a domain, it
/// also allows with any weaker permission.
pub proof fn lemma_grants_monotone(scopes: Seq<Scope>, domain: DomainId, need: Perm, weaker: Perm)
    requires
        grants(scopes, domain, need),
        perm_rank(weaker) <= perm_rank(need),
    ensures
        grants(scopes, domain, weaker),
{
    let i = choose|i: int| 0 <= i < scopes.len() && scope_covers(#[trigger] scopes[i].domain, domain)
        && perm_rank(scopes[i].perm) >= perm_rank(need);
    assert(scope_covers(scopes[i].domain, domain));
}

/// A global administrator may do anything on any domain.
pub proof fn lemma_admin_grants_everything(scopes: Seq<Scope>, domain: DomainId, need: Perm)
    requires grants_admin(scopes),
    ensures grants(scopes, domain, need),
{
    let i = choose|i: int| 0 <= i < scopes.len() && (#[trigger] scopes[i]).domain == DomainScope::All
        && scopes[i].perm == Perm::Admin;
    assert(scope_covers(scopes[i].domain, domain));
}

/// Holding the `admin_all` grant makes a caller a global administrator.
pub proof fn lemma_admin_all_is_admin(scopes: Seq<Scope>)
    requires scopes.contains(Scope { domain: DomainScope::All, perm: Perm::Admin }),
    ensures grants_admin(scopes),
{
    let i = choose|i: int| 0 <= i < scopes.len() && scopes[i] == Scope { domain: DomainScope::All, perm: Perm::Admin };
    assert(scopes[i].domain == DomainScope::All);
}

impl AuthContext {
    /// Whether the caller may perform `need` on `domain`.
    pub fn allows(&self, domain: DomainId, need: Perm) -> (r: bool)
        ensures r == grants(self.scopes@, domain, need),
    {
        let mut i: usize = 0;
        while i < self.scopes.len()
            invariant
                i <= self.scopes@.len(),
                forall|k: int| 0 <= k < i ==> !(scope_covers(#[trigger] self.scopes@[k].domain, domain)
                    && perm_rank(self.scopes@[k].perm) >= perm_rank(need)),
            decreases self.scopes.len() - i,
        {
            let s = self.scopes[i];
            if s.domain.matches(domain) && s.perm.rank() >= need.rank() {
                return true;
            }
            i = i + 1;
        }
        false
    }

    /// Whether the caller is a global administrator (manage domains/tokens).
    pub fn is_admin(&self) -> (r: bool)
        ensures r == grants_admin(self.scopes@),
    {
        let mut i: usize = 0;
        while i < self.scopes.len()
            invariant
                i <= self.scopes@.len(),
                forall|k: int| 0 <= k < i ==> !((#[trigger] self.scopes@[k]).domain == DomainScope::All
                    && self.scopes@[k].perm == Perm::Admin),
            decreases self.scopes.len() - i,
        {
            let s = self.scopes[i];
            if matches!(s.domain, DomainScope::All) && s.perm == Perm::Admin {
                return true;
            }
            i = i + 1;
        }
        false
    }
}

/// The SHA-256 digest of `data`.
pub uninterp spec fn sha256(data: Seq<u8>) -> Seq<u8>;

/// `sha2::Sha256::digest`: the 32-byte SHA-256 digest of `data`, named by
/// `sha256` (nothing else is claimed of it).
#[verifier::external_body]
pub(crate) fn sha256_digest(data: &[u8]) -> (r: [u8; 32])
    ensures r@ == sha256(data@),
{
    Sha256::digest(data).into()
}

/// The lowercase hex digit for `n < 16`.
pub open spec fn hex_digit(n: u8) -> char {
    if n < 10 { ((n + 48) as u8) as char } else { ((n - 10 + 97) as u8) as char }
}

/// Lowercase hex, two digits per byte.
pub open spec fn hex(bytes: Seq<u8>) -> Seq<char>
    decreases bytes.len(),
{
    if bytes.len() == 0 {
        Seq::empty()
    } else {
        hex(bytes.drop_last()) + seq![hex_digit(bytes.last() / 16), hex_digit(bytes.last() % 16)]
    }
}

fn hex_char(n: u8) -> (r: char)
    requires n < 16,
    ensures r == hex_digit(n),
{
    if n < 10 { (n + 48) as char } else { (n - 10 + 97) as char }
}

/// Append the lowercase hex form of `bytes` to `s`.
pub fn push_hex(s: &mut String, bytes: &[u8])
    ensures final(s)@ == old(s)@ + hex(bytes@),
{
    let mut i: usize = 0;
    while i < bytes.len()
        invariant
            i <= bytes@.len(),
            s@ == old(s)@ + hex(bytes@.take(i as int)),
        decreases bytes.len() - i,
    {
        let b = bytes[i];
        push_char(s, hex_char(b / 16));
        push_char(s, hex_char(b % 16));
        assert(bytes@.take(i + 1).drop_last() =~= bytes@.take(i as int));
        i = i + 1;
        assert(s@ =~= old(s)@ + hex(bytes@.take(i as int)));
    }
    assert(bytes@.take(bytes@.len() as int) =~= bytes@);
}

fn to_hex(bytes: &[u8]) -> (r: String)
    ensures r@ == hex(bytes@),
{
    let mut s = String::new();
    push_hex(&mut s, bytes);
    assert(Seq::<char>::empty() + hex(bytes@) =~= hex(bytes@));
    s
}

/// SHA-256 of a token string (of its UTF-8 bytes).
pub fn hash_token(token: &str) -> (r: [u8; 32])
    ensures r@ == sha256(vstd::utf8::encode_utf8(token@)),
{
    sha256_digest(token.as_bytes())
}

/// The bearer token an `Authorization` header value carries: what follows
/// `Bearer `, trimmed; `None` without that prefix.
pub open spec fn bearer_spec(h: Seq<char>) -> Option<Seq<char>> {
    if h.len() >= 7 && h.take(7) == seq!['B', 'e', 'a', 'r', 'e', 'r', ' '] {
        Some(trim(h.skip(7)))
    } else {
        None
    }
}

/// The bearer token of an `Authorization` header value; `Unauthorized` when
/// the header is not a bearer credential.
pub fn bearer_token(header: &str) -> (r: Result<String, NucleusError>)
    ensures
        match bearer_spec(header@) {
            Some(t) => r matches Ok(s) && s@ == t,
            None => r == Err::<String, NucleusError>(NucleusError::Unauthorized),
        },
{
    let cs = str_chars(header);
    let p = ['B', 'e', 'a', 'r', 'e', 'r', ' '];
    assert(p@ == seq!['B', 'e', 'a', 'r', 'e', 'r', ' ']);
    if cs.len() < 7 {
        return Err(NucleusError::Unauthorized);
    }
    let mut i: usize = 0;
    while i < 7
        invariant
            cs@ == header@,
            cs@.len() >= 7,
            i <= 7,
            p@ == seq!['B', 'e', 'a', 'r', 'e', 'r', ' '],
            forall|j: int| 0 <= j < i ==> cs@[j] == p@[j],
        decreases 7 - i,
    {
        if cs[i] != p[i] {
            assert(cs@.take(7)[i as int] != p@[i as int]);
            assert(cs@.take(7) != seq!['B', 'e', 'a', 'r', 'e', 'r', ' ']);
            return Err(NucleusError::Unauthorized);
        }
        i = i + 1;
    }
    assert(cs@.take(7) =~= p@);
    let mut rest: Vec<char> = Vec::new();
    let mut k: usize = 7;
    while k < cs.len()
        invariant
            7 <= k <= cs@.len(),
            rest@ == cs@.subrange(7, k as int),
        decreases cs.len() - k,
    {
        rest.push(cs[k]);
        k = k + 1;
        assert(rest@ =~= cs@.subrange(7, k as int));
    }
    assert(rest@ =~= cs@.skip(7));
    let t = trim_chars(rest.as_slice());
    Ok(string_from_chars(t.as_slice()))
}

/// The access a stored token grants at time `now`: its scopes, unless it has
/// expired (`now` past `expires_at`), which is `Unauthorized`.
pub fn token_access(token: &ApiToken, now: i64) -> (r: Result<AuthContext, NucleusError>)
    ensures
        match token.expires_at {
            Some(exp) if now > exp => r == Err::<AuthContext, NucleusError>(NucleusError::Unauthorized),
            _ => r matches Ok(ctx) && ctx.token_id == token.id && ctx.scopes@ == token.scopes@,
        },
{
    match token.expires_at {
        Some(exp) => {
            if now > exp {
                return Err(NucleusError::Unauthorized);
            }
        },
        None => {},
    }
    let mut scopes: Vec<Scope> = Vec::new();
    let mut i: usize = 0;
    while i < token.scopes.len()
        invariant
            i <= token.scopes@.len(),
            scopes@ == token.scopes@.take(i as int),
        decreases token.scopes.len() - i,
    {
        scopes.push(token.scopes[i]);
        i = i + 1;
        assert(scopes@ =~= token.scopes@.take(i as int));
    }
    assert(token.scopes@.take(token.scopes@.len() as int) =~= token.scopes@);
    Ok(AuthContext { token_id: token.id, scopes })
}

/// Generate a fresh token, returning `(plaintext, hash)`: the plaintext is
/// `nuc_` followed by 64 lowercase hex digits of 32 random bytes, the hash its
/// SHA-256.
pub fn generate_token() -> (r: (String, [u8; 32]))
    ensures
        exists|b: Seq<u8>| b.len() == 32 && r.0@ == TOKEN_PREFIX@ + hex(b),
        r.1@ == sha256(vstd::utf8::encode_utf8(r.0@)),
{
    let bytes = random_bytes(32);
    let mut token = String::from_str(TOKEN_PREFIX);
    token.append(to_hex(&bytes).as_str());
    let hash = hash_token(token.as_str());
    (token, hash)
}

} // verus!
