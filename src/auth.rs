use vstd::prelude::*;
use base64::Engine;

verus! {

/// A site account's standing.
#[derive(Clone, Copy, Debug, PartialEq, Eq, Structural)]
pub enum Role {
    Admin,
    Normal,
    Banned,
}

/// A site account.
#[derive(Clone, Debug)]
pub struct User {
    pub id: i64,
    pub name: String,
    pub password: Option<String>,
    pub role: Role,
    pub valid_after: i64,
}

impl User {
    /// Whether the account is a site admin.
    pub fn is_admin(&self) -> (r: bool)
        ensures
            r == (self.role == Role::Admin),
    {
        self.role == Role::Admin
    }
}

/// What a session token says of its holder.
#[derive(Clone, Debug)]
pub struct Claims {
    pub sub: i64,
    pub name: String,
    pub role: String,
    pub iat: i64,
    pub exp: usize,
}

/// The query of an OAuth callback.
#[derive(Clone, Debug)]
pub struct AuthRequest {
    pub code: String,
    pub state: String,
}

/// Who a Basic credential identifies.
#[derive(Clone, Debug)]
pub enum AuthResult {
    Player(String),
    SuperSpectator,
    Invalid,
}

/// The bytes that standard base64 (with padding) gives for `s`, if it is valid.
pub uninterp spec fn base64_decoded(s: Seq<char>) -> Option<Seq<u8>>;

/// Relies on base64's `STANDARD.decode`: the bytes of valid input, an error
/// otherwise; the result depends on the input alone.
#[verifier::external_body]
fn decode_base64(s: &str) -> (r: Option<Vec<u8>>)
    ensures
        r is Some == base64_decoded(s@) is Some,
        r matches Some(b) ==> base64_decoded(s@) == Some(b@),
{
    base64::engine::general_purpose::STANDARD.decode(s).ok()
}

/// The text that the bytes `b` hold as UTF-8, if they are valid UTF-8.
pub uninterp spec fn utf8_decoded(b: Seq<u8>) -> Option<Seq<char>>;

/// Relies on `String::from_utf8`: the text of valid UTF-8, an error otherwise.
#[verifier::external_body]
fn decode_utf8(b: Vec<u8>) -> (r: Option<String>)
    ensures
        r is Some == utf8_decoded(b@) is Some,
        r matches Some(s) ==> utf8_decoded(b@) == Some(s@),
{
    String::from_utf8(b).ok()
}

/// A character allowed in a player name: an ASCII letter or digit, `_` or `-`.
pub open spec fn name_char(c: char) -> bool {
    ('0' <= c && c <= '9') || ('A' <= c && c <= 'Z') || ('a' <= c && c <= 'z') || c == '_' || c == '-'
}

/// A player name: one to sixteen allowed characters.
pub open spec fn valid_name(s: Seq<char>) -> bool {
    1 <= s.len() <= 16 && forall|i: int| 0 <= i < s.len() ==> name_char(#[trigger] s[i])
}

/// Relies on regex's `Regex::is_match` with the pattern
/// `^[0-9A-Za-z_\-]{1,16}$`: anchored at both ends, one to sixteen characters
/// of the class.
#[verifier::external_body]
fn matches_name_pattern(u: &str) -> (r: bool)
    ensures
        r == valid_name(u@),
{
    match regex::Regex::new(r"^[0-9A-Za-z_\-]{1,16}$") {
        Ok(re) => re.is_match(u),
        Err(_) => false,
    }
}

/// The prefix of a Basic authorization header.
pub open spec fn basic_prefix() -> Seq<char> {
    "Basic "@
}

/// The position of the first `:` in `s`, if any.
pub open spec fn first_colon(s: Seq<char>) -> Option<int> {
    if exists|i: int| 0 <= i < s.len() && s[i] == ':' {
        Some(choose|i: int| 0 <= i < s.len() && s[i] == ':' && forall|j: int| 0 <= j < i ==> s[j] != ':')
    } else {
        None
    }
}

/// Who a decoded `user:password` text identifies: the super password makes a
/// super spectator; the player password with a valid name makes that player.
pub open spec fn credential_outcome(text: Seq<char>, player_pass: Seq<char>, super_pass: Seq<char>) -> Option<Option<Seq<char>>> {
    match first_colon(text) {
        None => None,
        Some(k) => {
            let u = text.subrange(0, k);
            let p = text.subrange(k + 1, text.len() as int);
            if p == super_pass {
                Some(None)
            } else if p == player_pass && valid_name(u) {
                Some(Some(u))
            } else {
                None
            }
        },
    }
}

/// Splits `user:password` at the first colon and decides who it is.
pub fn check_credentials(text: &str, player_pass: &str, super_pass: &str) -> (r: AuthResult)
    ensures
        match credential_outcome(text@, player_pass@, super_pass@) {
            None => r is Invalid,
            Some(None) => r is SuperSpectator,
            Some(Some(u)) => r matches AuthResult::Player(name) && name@ == u,
        },
{
    let n = text.unicode_len();
    let mut k: usize = 0;
    while k < n && text.get_char(k) != ':'
        invariant
            n == text@.len(),
            k <= n,
            forall|j: int| 0 <= j < k ==> text@[j] != ':',
        decreases n - k,
    {
        k += 1;
    }
    if k == n {
        return AuthResult::Invalid;
    }
    proof {
        let c = choose|i: int| 0 <= i < text@.len() && text@[i] == ':' && forall|j: int| 0 <= j < i ==> text@[j] != ':';
        if c < k {
            assert(text@[c] != ':');
        }
        if k < c {
            assert(text@[k as int] == ':');
        }
    }
    let u = text.substring_char(0, k);
    let p = text.substring_char(k + 1, n);
    if crate::text::str_eq(p, super_pass) {
        return AuthResult::SuperSpectator;
    }
    if crate::text::str_eq(p, player_pass) && matches_name_pattern(u) {
        return AuthResult::Player(String::from_str(u));
    }
    AuthResult::Invalid
}

/// Who an `Authorization` header identifies: `Basic ` and base64 of UTF-8
/// `user:password` (see `check_credentials`); anything else is invalid.
pub fn check_auth(auth_header: Option<&str>, player_pass: &str, super_pass: &str) -> (r: AuthResult)
    ensures
        match auth_header {
            None => r is Invalid,
            Some(h) => if h@.len() < 6 || h@.subrange(0, 6) != basic_prefix() {
                r is Invalid
            } else {
                match base64_decoded(h@.subrange(6, h@.len() as int)) {
                    None => r is Invalid,
                    Some(bytes) => match utf8_decoded(bytes) {
                        None => r is Invalid,
                        Some(text) => match credential_outcome(text, player_pass@, super_pass@) {
                            None => r is Invalid,
                            Some(None) => r is SuperSpectator,
                            Some(Some(u)) => r matches AuthResult::Player(name) && name@ == u,
                        },
                    },
                }
            },
        },
{
    let h = match auth_header {
        Some(h) => h,
        None => {
            return AuthResult::Invalid;
        },
    };
    let n = h.unicode_len();
    if n < 6 || !crate::text::str_eq(h.substring_char(0, 6), "Basic ") {
        return AuthResult::Invalid;
    }
    let bytes = match decode_base64(h.substring_char(6, n)) {
        Some(b) => b,
        None => {
            return AuthResult::Invalid;
        },
    };
    let text = match decode_utf8(bytes) {
        Some(t) => t,
        None => {
            return AuthResult::Invalid;
        },
    };
    check_credentials(text.as_str(), player_pass, super_pass)
}

} // verus!
