//! Accounts and sessions: e-mail normalisation, sign-up rules, password
//! hashing, session tokens and the session cookie.

use argon2::password_hash::{PasswordHash, PasswordHasher, PasswordVerifier, SaltString};
use argon2::Argon2;
use rand::RngCore;
use vstd::prelude::*;
use vstd::utf8::*;

use crate::error::{self, AppError};
use crate::models::AuthPayload;
use crate::text::{self, contains_char, hex_encode, i64_to_string, push_char, split_char, strip_prefix,
    to_lowercase, trim,
};

verus! {

/// Name of the session cookie.
pub const COOKIE_NAME: &'static str = "session";

/// Lifetime of a session, in days.
pub const SESSION_DAYS: i64 = 30;

/// The user a request is made for.
#[derive(Debug, Clone)]
pub struct AuthUser {
    pub id: i64,
    pub email: String,
}

/// `argon2::password_hash::SaltString`, held opaque: a salt is only handed
/// from `generate_salt` to `argon2_hash`.
#[verifier::external_type_specification]
#[verifier::external_body]
pub struct ExSaltString(SaltString);

/// `rand::rngs::OsRng` through `RngCore::fill_bytes`: `n` bytes from the
/// operating system's random generator. Only their number is claimed; the
/// call panics when the operating system cannot supply them.
#[verifier::external_body]
pub(crate) fn random_bytes(n: usize) -> (b: Vec<u8>)
    ensures
        b@.len() == n,
{
    let mut b = vec![0u8; n];
    rand::rngs::OsRng.fill_bytes(&mut b);
    b
}

/// `SaltString::generate` with `OsRng`: a fresh random salt. Nothing is
/// claimed of it.
#[verifier::external_body]
fn generate_salt() -> SaltString {
    SaltString::generate(&mut rand::rngs::OsRng)
}

/// Whether `PasswordHash::new` parses `stored` and `Argon2::default()`
/// accepts `password` against it (`verify_password` returns `Ok`).
pub uninterp spec fn password_matches(password: Seq<char>, stored: Seq<char>) -> bool;

/// An ASCII decimal digit.
pub open spec fn is_digit(c: char) -> bool {
    '0' <= c && c <= '9'
}

/// The text holds `p=` followed by nine digits or more. In a PHC string `=`
/// only separates a parameter's name from its value, and argon2 reads a
/// value without leading zeros, so such text names a parallelism of at
/// least 10^8: above argon2's limit of 2^24 - 1 lanes, and for values from
/// 2^29 on it overflows argon2's `p * 8` check before that limit is tested.
pub open spec fn oversized_p_param(s: Seq<char>) -> bool {
    exists|i: int|
        0 <= i && i + 11 <= s.len() && #[trigger] s[i] == 'p' && s[i + 1] == '=' && all_digits(
            s.subrange(i + 2, i + 11),
        )
}

/// Every character is a digit.
pub open spec fn all_digits(t: Seq<char>) -> bool {
    forall|k: int| 0 <= k < t.len() ==> is_digit(#[trigger] t[k])
}

fn digits_at(s: &str, at: usize) -> (b: bool)
    requires
        at + 9 <= s@.len(),
        at + 9 <= usize::MAX,
    ensures
        b == all_digits(s@.subrange(at as int, at + 9)),
{
    let mut j: usize = 0;
    while j < 9
        invariant
            at + 9 <= s@.len(),
            at + 9 <= usize::MAX,
            0 <= j <= 9,
            forall|k: int| 0 <= k < j ==> is_digit(#[trigger] s@[at + k]),
        decreases 9 - j,
    {
        let c = s.get_char(at + j);
        if !('0' <= c && c <= '9') {
            proof {
                assert(s@.subrange(at as int, at + 9)[j as int] == c);
            }
            return false;
        }
        j = j + 1;
    }
    proof {
        let t = s@.subrange(at as int, at + 9);
        assert forall|k: int| 0 <= k < t.len() implies is_digit(#[trigger] t[k]) by {
            assert(t[k] == s@[at + k]);
        }
    }
    true
}

/// Whether stored text names an oversized parallelism (see
/// `oversized_p_param`).
pub fn has_oversized_p(s: &str) -> (b: bool)
    ensures
        b == oversized_p_param(s@),
{
    let n = s.unicode_len();
    let mut i: usize = 0;
    while i < n && n - i >= 11
        invariant
            n == s@.len(),
            forall|k: int|
                0 <= k < i && k + 11 <= n ==> !(#[trigger] s@[k] == 'p' && s@[k + 1] == '='
                    && all_digits(s@.subrange(k + 2, k + 11))),
        decreases n - i,
    {
        if s.get_char(i) == 'p' && s.get_char(i + 1) == '=' && digits_at(s, i + 2) {
            return true;
        }
        i = i + 1;
    }
    proof {
        assert forall|k: int|
            0 <= k && k + 11 <= s@.len() implies !(#[trigger] s@[k] == 'p' && s@[k + 1] == '='
            && all_digits(s@.subrange(k + 2, k + 11))) by {
            assert(k < i);
        }
    }
    false
}

/// Longest password argon2 accepts, in bytes (`argon2::MAX_PWD_LEN`).
pub const MAX_PASSWORD_BYTES: u64 = 0xffff_ffff;

/// The start of every PHC string that `Argon2::default()` writes: the
/// Argon2id algorithm, version 0x13 and the default parameters (19 MiB of
/// memory, 2 passes, 1 lane).
pub open spec fn argon2_default_prefix() -> Seq<char> {
    "$argon2id$v=19$m=19456,t=2,p=1$"@
}

/// `Argon2::default().hash_password` with the given salt, as PHC text
/// (`PasswordHash`'s `Display`). What is claimed:
/// - it succeeds for every password of at most `MAX_PASSWORD_BYTES` bytes:
///   the password length is the one input check that a generated salt, the
///   default parameters and the 32-byte output leave to fail;
/// - the text starts with the algorithm, version and parameters it records;
/// - after those come the salt and the digest, both in unpadded Base64, so
///   no further `=`;
/// - the password that was hashed is accepted against it: verification
///   recomputes the hash with the algorithm, version, parameters and salt
///   recorded in the text.
/// The salt and digest parts of the text, and the error's message, are left
/// unsaid.
#[verifier::external_body]
fn argon2_hash(password: &str, salt: &SaltString) -> (r: Result<String, String>)
    ensures
        encode_utf8(password@).len() <= MAX_PASSWORD_BYTES ==> r is Ok,
        r matches Ok(h) ==> password_matches(password@, h@) && argon2_default_prefix().is_prefix_of(
            h@,
        ),
        r matches Ok(h) ==> forall|i: int|
            argon2_default_prefix().len() <= i < h@.len() ==> #[trigger] h@[i] != '=',
{
    match Argon2::default().hash_password(password.as_bytes(), salt) {
        Ok(h) => Ok(h.to_string()),
        Err(e) => Err(e.to_string()),
    }
}

/// `PasswordHash::new` on the stored text, then `Argon2::default()
/// .verify_password`: true when both succeed. The result is named
/// `password_matches`. One fact of the parser is stated: a PHC string starts
/// with `$`, so text that does not is refused. Which other texts parse, and
/// which passwords a parsed hash accepts, is left to the argon2 crate.
/// Stored text naming an oversized parallelism is excluded: on some of it
/// argon2's parameter check overflows, which panics where overflow checks
/// are on.
#[verifier::external_body]
fn verify_password(password: &str, stored: &str) -> (ok: bool)
    requires
        !oversized_p_param(stored@),
    ensures
        ok == password_matches(password@, stored@),
        !(stored@.len() > 0 && stored@[0] == '$') ==> !ok,
{
    match PasswordHash::new(stored) {
        Ok(parsed) => Argon2::default().verify_password(password.as_bytes(), &parsed).is_ok(),
        Err(_) => false,
    }
}

proof fn lemma_default_hash_p_small(h: Seq<char>)
    requires
        argon2_default_prefix().is_prefix_of(h),
        forall|i: int| argon2_default_prefix().len() <= i < h.len() ==> #[trigger] h[i] != '=',
    ensures
        !oversized_p_param(h),
{
    reveal_strlit("$argon2id$v=19$m=19456,t=2,p=1$");
    let pre = argon2_default_prefix();
    assert(pre.len() == 31);
    if oversized_p_param(h) {
        let i = choose|i: int|
            0 <= i && i + 11 <= h.len() && #[trigger] h[i] == 'p' && h[i + 1] == '=' && all_digits(
                h.subrange(i + 2, i + 11),
            );
        if i + 1 >= 31 {
            assert(h[i + 1] != '=');
        } else {
            assert(h[i] == pre[i]);
            assert(i == 27);
            assert(h[30] == pre[30]);
            assert(h.subrange(i + 2, i + 11)[1] == h[30]);
        }
    }
}

/// Hash a password with a fresh random salt. It succeeds for every password
/// of at most `MAX_PASSWORD_BYTES` bytes; the hash is Argon2id PHC text and
/// accepts the password it was made from.
pub fn hash_password(password: &str) -> (r: Result<String, AppError>)
    ensures
        encode_utf8(password@).len() <= MAX_PASSWORD_BYTES ==> r is Ok,
        r matches Ok(h) ==> password_matches(password@, h@) && argon2_default_prefix().is_prefix_of(
            h@,
        ),
        r matches Ok(h) ==> !oversized_p_param(h@),
        r matches Err(e) ==> e.status == 500,
{
    let salt = generate_salt();
    match argon2_hash(password, &salt) {
        Ok(h) => {
            proof {
                lemma_default_hash_p_small(h@);
            }
            Ok(h)
        },
        Err(m) => Err(AppError::internal(m.as_str())),
    }
}

/// A new session token: 32 random bytes as 64 lower-case hex digits.
pub fn new_token() -> (t: String)
    ensures
        t@.len() == 64,
        forall|i: int| 0 <= i < t@.len() ==> text::is_lower_hex(#[trigger] t@[i]),
        exists|b: Seq<u8>| b.len() == 32 && t@ == text::hex(b),
{
    let bytes = random_bytes(32);
    hex_encode(bytes.as_slice())
}

/// The SQLite date modifier that puts a session's expiry `SESSION_DAYS`
/// after its creation.
pub fn session_lifetime() -> (m: String)
    ensures
        m@ == "+"@ + text::decimal(SESSION_DAYS as int) + " days"@,
{
    let mut m = String::from_str("+");
    let days = i64_to_string(SESSION_DAYS);
    m.append(days.as_str());
    m.append(" days");
    m
}

/// The `Set-Cookie` value that stores a session token.
pub open spec fn session_cookie(token: Seq<char>) -> Seq<char> {
    COOKIE_NAME@ + "="@ + token + "; HttpOnly; Path=/; SameSite=Lax; Max-Age="@ + text::decimal(
        SESSION_DAYS * 24 * 60 * 60,
    )
}

/// The `Set-Cookie` value that stores a session token for the session's
/// lifetime.
pub fn set_cookie(token: &str) -> (c: String)
    ensures
        c@ == session_cookie(token@),
{
    let mut c = String::from_str(COOKIE_NAME);
    c.append("=");
    c.append(token);
    c.append("; HttpOnly; Path=/; SameSite=Lax; Max-Age=");
    let age = i64_to_string(SESSION_DAYS * 24 * 60 * 60);
    c.append(age.as_str());
    c
}

/// The `Set-Cookie` value that removes the session cookie.
pub fn clear_cookie() -> (c: String)
    ensures
        c@ == COOKIE_NAME@ + "=; HttpOnly; Path=/; SameSite=Lax; Max-Age=0"@,
{
    let mut c = String::from_str(COOKIE_NAME);
    c.append("=; HttpOnly; Path=/; SameSite=Lax; Max-Age=0");
    c
}

/// The value of the first `key`-prefixed piece, each piece trimmed.
pub open spec fn cookie_in(parts: Seq<Seq<char>>, key: Seq<char>) -> Option<Seq<char>>
    decreases parts.len(),
{
    if parts.len() == 0 {
        None
    } else {
        let t = text::trimmed(parts[0]);
        if key.is_prefix_of(t) {
            Some(t.skip(key.len() as int))
        } else {
            cookie_in(parts.drop_first(), key)
        }
    }
}

/// The value of cookie `name` in a `Cookie` header: the header split at
/// `;`, each piece trimmed, and the first piece that starts with `name=`
/// gives what follows.
pub open spec fn cookie_of(header: Seq<char>, name: Seq<char>) -> Option<Seq<char>> {
    cookie_in(text::split_on(header, ';'), name.push('='))
}

/// An optional string by its characters.
pub open spec fn opt_view(o: Option<String>) -> Option<Seq<char>> {
    match o {
        Some(s) => Some(s@),
        None => None,
    }
}

/// The value of cookie `name` in the request's `Cookie` header, if the
/// request has one.
pub fn cookie_value(header: Option<&str>, name: &str) -> (v: Option<String>)
    ensures
        header is None ==> v is None,
        header matches Some(h) ==> opt_view(v) == cookie_of(h@, name@),
{
    let raw = match header {
        Some(h) => h,
        None => {
            return None;
        },
    };
    let mut key = String::from_str(name);
    push_char(&mut key, '=');
    let parts = split_char(raw, ';');
    let ghost ps = text::views(parts@);
    let mut i: usize = 0;
    proof {
        assert(ps.skip(0) =~= ps);
    }
    while i < parts.len()
        invariant
            header == Some(raw),
            ps == text::views(parts@),
            ps == text::split_on(raw@, ';'),
            key@ == name@.push('='),
            0 <= i <= parts@.len(),
            cookie_of(raw@, name@) == cookie_in(ps.skip(i as int), key@),
        decreases parts@.len() - i,
    {
        let part = trim(parts[i].as_str());
        proof {
            assert(ps.skip(i as int)[0] == parts@[i as int]@);
            assert(ps.skip(i as int).drop_first() =~= ps.skip(i + 1));
        }
        match strip_prefix(part, key.as_str()) {
            Some(rest) => {
                return Some(String::from_str(rest));
            },
            None => {},
        }
        i = i + 1;
    }
    None
}

/// E-mail addresses are compared trimmed and in lower case.
pub fn normalize_email(raw: &str) -> (e: String)
    ensures
        e@ == text::lowercase(text::trimmed(raw@)),
{
    to_lowercase(trim(raw))
}

/// Whether a normalised e-mail address is accepted at sign-up.
pub open spec fn email_acceptable(email: Seq<char>) -> bool {
    email.len() > 0 && email.contains('@')
}

/// Sign-up input checks: the normalised e-mail address must be non-empty and
/// hold an `@`, and the password must be at least 6 bytes long (in UTF-8).
/// Gives the normalised address.
pub fn check_signup(payload: &AuthPayload) -> (r: Result<String, AppError>)
    ensures
        ({
            let email = text::lowercase(text::trimmed(payload.email@));
            match r {
                Ok(e) => e@ == email && email_acceptable(email) && encode_utf8(payload.password@).len()
                    >= 6,
                Err(err) => if !email_acceptable(email) {
                    error::is_error(err, 400, "a valid email is required"@)
                } else {
                    encode_utf8(payload.password@).len() < 6 && error::is_error(
                        err,
                        400,
                        "password must be at least 6 characters"@,
                    )
                },
            }
        }),
        // an address is refused only for being empty or lacking `@`, and a
        // password only for being shorter than 6 bytes
        ({
            let email = text::lowercase(text::trimmed(payload.email@));
            email.len() > 0 && email.contains('@') && encode_utf8(payload.password@).len() >= 6
                ==> (r matches Ok(e) && e@ == email)
        }),
        ({
            let email = text::lowercase(text::trimmed(payload.email@));
            email.len() == 0 || !email.contains('@') ==> (r matches Err(err) && err.status == 400
                && err.message@ == "a valid email is required"@)
        }),
{
    let email = normalize_email(payload.email.as_str());
    if email.as_str().is_empty() || !contains_char(email.as_str(), '@') {
        return Err(AppError::bad_request("a valid email is required"));
    }
    if payload.password.as_str().as_bytes().len() < 6 {
        return Err(AppError::bad_request("password must be at least 6 characters"));
    }
    Ok(email)
}

/// Sign-up refuses an address that already has an account.
pub fn check_email_free(existing: Option<i64>) -> (r: Result<(), AppError>)
    ensures
        existing is None <==> r is Ok,
        r matches Err(e) ==> error::is_error(e, 409, "an account with that email already exists"@),
{
    match existing {
        Some(_) => Err(AppError::conflict("an account with that email already exists")),
        None => Ok(()),
    }
}

/// The outcome of a login attempt given the account found for the address:
/// the account's id, or `None` for a refusal.
pub open spec fn login_outcome(password: Seq<char>, account: Option<(i64, Seq<char>)>) -> Option<i64> {
    match account {
        Some((id, stored)) => if !oversized_p_param(stored) && password_matches(password, stored) {
            Some(id)
        } else {
            None
        },
        None => None,
    }
}

/// Login: the account found for the normalised address (its id and stored
/// hash) must exist and accept the password; both refusals read alike. Stored
/// text that is no PHC string (does not start with `$`) accepts no password,
/// and neither does text naming an oversized parallelism, which argon2
/// refuses too.
pub fn check_login(password: &str, account: Option<(i64, String)>) -> (r: Result<i64, AppError>)
    ensures
        account matches Some((id, h)) && !(h@.len() > 0 && h@[0] == '$') ==> r is Err,
        ({
            let acc = match account {
                Some((id, h)) => Some((id, h@)),
                None => None,
            };
            match r {
                Ok(id) => login_outcome(password@, acc) == Some(id),
                Err(e) => login_outcome(password@, acc) is None && error::is_error(
                    e,
                    401,
                    "invalid email or password"@,
                ),
            }
        }),
{
    match account {
        None => Err(AppError::unauthorized("invalid email or password")),
        Some((id, stored)) => {
            if has_oversized_p(stored.as_str()) {
                Err(AppError::unauthorized("invalid email or password"))
            } else if verify_password(password, stored.as_str()) {
                Ok(id)
            } else {
                Err(AppError::unauthorized("invalid email or password"))
            }
        },
    }
}

/// A request must carry the session cookie.
pub fn require_session_token(token: Option<String>) -> (r: Result<String, AppError>)
    ensures
        opt_view(token) == match r {
            Ok(t) => Some(t@),
            Err(_) => None,
        },
        r matches Err(e) ==> error::is_error(e, 401, "not logged in"@),
{
    match token {
        Some(t) => Ok(t),
        None => Err(AppError::unauthorized("not logged in")),
    }
}

/// The session must still be live: the user found for an unexpired token.
pub fn session_user(row: Option<(i64, String)>) -> (r: Result<AuthUser, AppError>)
    ensures
        row is None <==> r is Err,
        row matches Some((id, email)) ==> (r matches Ok(u) && u.id == id && u.email@ == email@),
        r matches Err(e) ==> error::is_error(e, 401, "session expired"@),
{
    match row {
        Some((id, email)) => Ok(AuthUser { id, email }),
        None => Err(AppError::unauthorized("session expired")),
    }
}


/// The session cookie round trip: a browser sends back the first piece of the
/// `Set-Cookie` value that `set_cookie` wrote for a token made by
/// `new_token`, and reading the session cookie from that `Cookie` header
/// gives the token back.
pub proof fn lemma_session_cookie_round_trip(token: Seq<char>)
    requires
        forall|i: int| 0 <= i < token.len() ==> text::is_lower_hex(#[trigger] token[i]),
    ensures
        text::split_on(session_cookie(token), ';')[0] == COOKIE_NAME@ + "="@ + token,
        cookie_of(text::split_on(session_cookie(token), ';')[0], COOKIE_NAME@) == Some(token),
{
    reveal_strlit("session");
    reveal_strlit("=");
    reveal_strlit("; HttpOnly; Path=/; SameSite=Lax; Max-Age=");
    let a = COOKIE_NAME@ + "="@ + token;
    let rest = " HttpOnly; Path=/; SameSite=Lax; Max-Age="@ + text::decimal(SESSION_DAYS * 24 * 60 * 60);
    let tail = "; HttpOnly; Path=/; SameSite=Lax; Max-Age="@;
    assert(tail =~= seq![';'] + tail.drop_first());
    assert(tail.drop_first() =~= " HttpOnly; Path=/; SameSite=Lax; Max-Age="@) by {
        reveal_strlit(" HttpOnly; Path=/; SameSite=Lax; Max-Age=");
    }
    assert(session_cookie(token) =~= a.push(';') + rest);
    assert(!a.contains(';')) by {
        if a.contains(';') {
            let k = choose|k: int| 0 <= k < a.len() && a[k] == ';';
            if k >= 8 {
                assert(a[k] == token[k - 8]);
                assert(text::is_lower_hex(token[k - 8]));
            }
        }
    }
    text::lemma_split_first(a, ';', rest);
    text::lemma_split_no_sep(a, ';');
    assert(a[0] == 's');
    assert(!text::is_ws(a.last())) by {
        if token.len() > 0 {
            assert(a.last() == token[token.len() - 1]);
            assert(text::is_lower_hex(token[token.len() - 1]));
        } else {
            assert(a.last() == '=');
        }
    }
    text::lemma_trimmed_unchanged(a);
    let key = COOKIE_NAME@.push('=');
    assert(key =~= a.take(8));
    assert(key.is_prefix_of(a));
    assert(a.skip(8) =~= token);
}

proof fn lemma_cookie_in_concat(x: Seq<Seq<char>>, y: Seq<Seq<char>>, key: Seq<char>)
    ensures
        cookie_in(x + y, key) == if cookie_in(x, key) is Some {
            cookie_in(x, key)
        } else {
            cookie_in(y, key)
        },
    decreases x.len(),
{
    if x.len() == 0 {
        assert(x + y =~= y);
    } else {
        lemma_cookie_in_concat(x.drop_first(), y, key);
        assert((x + y).drop_first() =~= x.drop_first() + y);
        assert((x + y)[0] == x[0]);
    }
}

/// A browser that holds other cookies too sends the session cookie after
/// them; as long as none of the others is a session cookie, reading the
/// session cookie from that `Cookie` header gives the token.
pub proof fn lemma_session_cookie_among_others(others: Seq<char>, token: Seq<char>)
    requires
        forall|i: int| 0 <= i < token.len() ==> text::is_lower_hex(#[trigger] token[i]),
        cookie_of(others, COOKIE_NAME@) is None,
    ensures
        cookie_of(others + "; "@ + COOKIE_NAME@ + "="@ + token, COOKIE_NAME@) == Some(token),
{
    reveal_strlit("session");
    reveal_strlit("=");
    reveal_strlit("; ");
    let a = COOKIE_NAME@ + "="@ + token;
    let b = seq![' '] + a;
    let header = others + "; "@ + COOKIE_NAME@ + "="@ + token;
    assert(header =~= others.push(';') + b);
    text::lemma_split_concat(others, ';', b);
    assert(!b.contains(';')) by {
        if b.contains(';') {
            let k = choose|k: int| 0 <= k < b.len() && b[k] == ';';
            if k >= 9 {
                assert(b[k] == token[k - 9]);
                assert(text::is_lower_hex(token[k - 9]));
            }
        }
    }
    text::lemma_split_no_sep(b, ';');
    let key = COOKIE_NAME@.push('=');
    lemma_cookie_in_concat(text::split_on(others, ';'), seq![b], key);
    assert(b.drop_first() =~= a);
    assert(text::trim_start(b) == text::trim_start(a));
    assert(!text::is_ws(a.last())) by {
        if token.len() > 0 {
            assert(a.last() == token[token.len() - 1]);
            assert(text::is_lower_hex(token[token.len() - 1]));
        } else {
            assert(a.last() == '=');
        }
    }
    text::lemma_trimmed_unchanged(a);
    assert(text::trimmed(b) == a);
    assert(key =~= a.take(8));
    assert(a.skip(8) =~= token);
    assert(seq![b].drop_first() =~= Seq::<Seq<char>>::empty());
}

/// Sign-up accepts exactly the addresses that are non-empty and hold an `@`
/// once trimmed and lower-cased; no other rule refuses an address.
pub proof fn lemma_signup_address_rule(email: Seq<char>)
    ensures
        email_acceptable(email) <==> (email.len() > 0 && email.contains('@')),
{
}

/// Sign-up never stores the password itself: the stored text is Argon2id PHC
/// text, which a password not written in that form cannot equal.
pub proof fn lemma_stored_hash_is_not_password(password: Seq<char>, stored: Seq<char>)
    requires
        argon2_default_prefix().is_prefix_of(stored),
        !argon2_default_prefix().is_prefix_of(password),
    ensures
        stored != password,
{
}

/// A password is accepted against the hash that sign-up stored for it: when
/// `hash_password` gave `stored` for `password`, `check_login` with the
/// account's id and that hash logs the user in.
pub proof fn lemma_login_after_signup(password: Seq<char>, stored: Seq<char>, id: i64)
    requires
        password_matches(password, stored),
        !oversized_p_param(stored),
    ensures
        login_outcome(password, Some((id, stored))) == Some(id),
{
}

} // verus!
