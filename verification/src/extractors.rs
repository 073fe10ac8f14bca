//! The auth gateway: the three credentials a request may carry, each
//! checked afresh on every request.

use vstd::prelude::*;

use crate::entity::{Machine, MachineView};
use crate::error::{ApiError, AuthReason};
use crate::store::{Store, StoreView};
use crate::text::{chars_eq, str_eq, to_chars};

verus! {

/// The configuration of the service, made once at startup and never changed.
#[derive(Debug, PartialEq, Eq)]
pub struct AppState {
    /// The secret that grants the admin capability.
    pub admin_password: String,
    /// The secret that grants the shared API capability.
    pub api_token: String,
    /// Where the static assets lie.
    pub static_root: String,
}

/// The text of a bearer token, if the request carried one.
pub open spec fn bearer_text(bearer: Option<&str>) -> Option<Seq<char>> {
    match bearer {
        Some(token) => Some(token@),
        None => None,
    }
}

/// Whether the request carried exactly the secret.
pub open spec fn holds_secret(bearer: Option<Seq<char>>, secret: Seq<char>) -> bool {
    bearer == Some(secret)
}

/// Compares the bearer token of a request with a configured secret.
fn bearer_is(bearer: Option<&str>, secret: &str) -> (same: bool)
    ensures
        same == holds_secret(bearer_text(bearer), secret@),
{
    match bearer {
        Some(token) => str_eq(token, secret),
        None => false,
    }
}

/// Proof that a request holds the admin capability.
#[derive(Clone, Copy, Debug, PartialEq, Eq, Structural)]
pub struct AdminUser {}

impl AdminUser {
    /// Grants the admin capability to a request whose bearer token equals
    /// the admin secret, and to no other.
    pub fn from_request_parts(bearer: Option<&str>, state: &AppState) -> (out: Result<
        AdminUser,
        ApiError,
    >)
        ensures
            holds_secret(bearer_text(bearer), state.admin_password@) ==> out == Ok::<
                AdminUser,
                ApiError,
            >(AdminUser {  }),
            !holds_secret(bearer_text(bearer), state.admin_password@) ==> out == Err::<
                AdminUser,
                ApiError,
            >(ApiError::Unauthorized(AuthReason::LoginRequired)),
    {
        if bearer_is(bearer, state.admin_password.as_str()) {
            Ok(AdminUser {  })
        } else {
            Err(ApiError::Unauthorized(AuthReason::LoginRequired))
        }
    }
}

/// Proof that a request holds the shared API capability.
#[derive(Clone, Copy, Debug, PartialEq, Eq, Structural)]
pub struct ApiUser {}

impl ApiUser {
    /// Grants the shared API capability to a request whose bearer token
    /// equals the API secret, and to no other.
    pub fn from_request_parts(bearer: Option<&str>, state: &AppState) -> (out: Result<
        ApiUser,
        ApiError,
    >)
        ensures
            holds_secret(bearer_text(bearer), state.api_token@) ==> out == Ok::<ApiUser, ApiError>(
                ApiUser {  },
            ),
            !holds_secret(bearer_text(bearer), state.api_token@) ==> out == Err::<
                ApiUser,
                ApiError,
            >(ApiError::Unauthorized(AuthReason::TokenRequired)),
    {
        if bearer_is(bearer, state.api_token.as_str()) {
            Ok(ApiUser {  })
        } else {
            Err(ApiError::Unauthorized(AuthReason::TokenRequired))
        }
    }
}

/// Whether `c` is one of the ten decimal digits.
pub open spec fn is_digit(c: char) -> bool {
    '0' <= c <= '9'
}

/// Whether every character of `s` is a decimal digit.
pub open spec fn all_digits(s: Seq<char>) -> bool {
    forall|i: int| 0 <= i < s.len() ==> is_digit(#[trigger] s[i])
}

/// The number that a run of decimal digits writes.
pub open spec fn digits_value(s: Seq<char>) -> int
    decreases s.len(),
{
    if s.len() == 0 {
        0
    } else {
        digits_value(s.drop_last()) * 10 + (s.last() as int - '0' as int)
    }
}

/// The number that `s` writes in decimal: an optional `+` or `-`, then one
/// or more digits and nothing else, of a value that fits in 32 bits.
pub open spec fn parse_i32(s: Seq<char>) -> Option<i32> {
    let negative = s.len() > 0 && s[0] == '-';
    let signed = s.len() > 0 && (s[0] == '-' || s[0] == '+');
    let digits = if signed {
        s.skip(1)
    } else {
        s
    };
    let value = if negative {
        -digits_value(digits)
    } else {
        digits_value(digits)
    };
    if digits.len() > 0 && all_digits(digits) && i32::MIN <= value <= i32::MAX {
        Some(value as i32)
    } else {
        None
    }
}

/// The value of a run of digits is not negative.
proof fn lemma_digits_not_negative(s: Seq<char>)
    requires
        all_digits(s),
    ensures
        digits_value(s) >= 0,
    decreases s.len(),
{
    if s.len() > 0 {
        assert(is_digit(s[s.len() - 1]));
        assert forall|i: int| 0 <= i < s.drop_last().len() implies is_digit(
            #[trigger] s.drop_last()[i],
        ) by {
            assert(is_digit(s[i]));
        }
        lemma_digits_not_negative(s.drop_last());
    }
}

/// Reading more digits never makes the number smaller.
proof fn lemma_digits_grow(s: Seq<char>, k: int)
    requires
        all_digits(s),
        0 <= k <= s.len(),
    ensures
        0 <= digits_value(s.take(k)) <= digits_value(s),
    decreases s.len() - k,
{
    assert forall|i: int| 0 <= i < s.take(k).len() implies is_digit(#[trigger] s.take(k)[i]) by {
        assert(is_digit(s[i]));
    }
    lemma_digits_not_negative(s.take(k));
    if k == s.len() {
        assert(s.take(k) =~= s);
    } else {
        lemma_digits_grow(s, k + 1);
        assert(s.take(k + 1).drop_last() =~= s.take(k));
        assert(is_digit(s[k]));
    }
}

/// Reads a decimal number of 32 bits; see `parse_i32`.
pub fn parse_number(s: &Vec<char>) -> (out: Option<i32>)
    ensures
        out == parse_i32(s@),
{
    let n = s.len();
    if n == 0 {
        return None;
    }
    let negative = s[0] == '-';
    let start: usize = if s[0] == '-' || s[0] == '+' {
        1
    } else {
        0
    };
    if start == n {
        return None;
    }
    let ghost digits = s@.skip(start as int);
    assert(s@.skip(0) =~= s@);
    let mut acc: i64 = 0;
    let mut i: usize = start;
    assert(digits.take(0) =~= Seq::<char>::empty());
    while i < n
        invariant
            start <= i <= n,
            0 < n == s.len(),
            negative == (s@[0] == '-'),
            start == if s@[0] == '-' || s@[0] == '+' {
                1usize
            } else {
                0usize
            },
            digits == if s@[0] == '-' || s@[0] == '+' {
                s@.skip(1)
            } else {
                s@
            },
            all_digits(digits.take(i - start)),
            acc == digits_value(digits.take(i - start)),
            0 <= acc <= 0x8000_0000,
        decreases n - i,
    {
        let c = s[i];
        let ghost seen = digits.take(i - start);
        let ghost more = digits.take(i - start + 1);
        assert(more.drop_last() =~= seen);
        assert(more.last() == c);
        if !(c >= '0' && c <= '9') {
            assert(!is_digit(digits[i - start]));
            return None;
        }
        let digit: i64 = (c as u32 - '0' as u32) as i64;
        acc = acc * 10 + digit;
        assert forall|j: int| 0 <= j < more.len() implies is_digit(#[trigger] more[j]) by {
            if j < seen.len() {
                assert(is_digit(seen[j]));
            }
        }
        if acc > 0x8000_0000 {
            proof {
                if all_digits(digits) {
                    lemma_digits_grow(digits, i - start + 1);
                }
            }
            return None;
        }
        i += 1;
    }
    assert(digits.take(n - start) =~= digits);
    let value: i64 = if negative {
        -acc
    } else {
        acc
    };
    if value < -0x8000_0000 || value > 0x7fff_ffff {
        None
    } else {
        Some(value as i32)
    }
}

/// Whether `i` is the place of the first `:` of `token`.
pub open spec fn first_colon_at(token: Seq<char>, i: int) -> bool {
    &&& 0 <= i < token.len()
    &&& token[i] == ':'
    &&& forall|j: int| 0 <= j < i ==> token[j] != ':'
}

/// The machine id and the secret that a per-machine token of the form
/// `<id>:<secret>` carries: the id is the decimal number before the first
/// `:`, the secret is all that follows it. Any other text carries nothing.
pub open spec fn parse_machine_token(token: Seq<char>) -> Option<(i32, Seq<char>)> {
    if exists|i: int| first_colon_at(token, i) {
        let i = choose|i: int| first_colon_at(token, i);
        match parse_i32(token.take(i)) {
            Some(id) => Some((id, token.skip(i + 1))),
            None => None,
        }
    } else {
        None
    }
}

/// Takes a per-machine token apart; see `parse_machine_token`.
pub fn split_machine_token(token: &str) -> (out: Option<(i32, Vec<char>)>)
    ensures
        match out {
            Some((id, secret)) => parse_machine_token(token@) == Some((id, secret@)),
            None => parse_machine_token(token@) is None,
        },
{
    let chars = to_chars(token);
    let mut i: usize = 0;
    while i < chars.len() && chars[i] != ':'
        invariant
            i <= chars.len(),
            forall|j: int| 0 <= j < i ==> chars@[j] != ':',
        decreases chars.len() - i,
    {
        i += 1;
    }
    if i == chars.len() {
        assert forall|k: int| !first_colon_at(chars@, k) by {}
        return None;
    }
    proof {
        assert(first_colon_at(chars@, i as int));
        let c = choose|k: int| first_colon_at(chars@, k);
        assert(c == i) by {
            if c < i {
                assert(chars@[c] != ':');
            } else if c > i {
                assert(chars@[i as int] != ':');
            }
        }
    }
    let mut id_text: Vec<char> = Vec::new();
    let mut k: usize = 0;
    while k < i
        invariant
            k <= i < chars.len(),
            id_text@ == chars@.take(k as int),
        decreases i - k,
    {
        id_text.push(chars[k]);
        assert(chars@.take(k + 1) =~= chars@.take(k as int).push(chars@[k as int]));
        k += 1;
    }
    let mut secret: Vec<char> = Vec::new();
    let mut k: usize = i + 1;
    assert(chars@.subrange(i + 1, i + 1) =~= Seq::<char>::empty());
    while k < chars.len()
        invariant
            i < k <= chars.len(),
            secret@ == chars@.subrange(i + 1, k as int),
        decreases chars.len() - k,
    {
        secret.push(chars[k]);
        assert(chars@.subrange(i + 1, k + 1) =~= chars@.subrange(i + 1, k as int).push(
            chars@[k as int],
        ));
        k += 1;
    }
    assert(chars@.subrange(i + 1, chars.len() as int) =~= chars@.skip(i + 1));
    match parse_number(&id_text) {
        Some(id) => Some((id, secret)),
        None => None,
    }
}

/// What the gateway makes of a per-machine credential: the machine named by
/// the token where the token's secret is that machine's key, else a refusal.
pub open spec fn machine_check(store: StoreView, bearer: Option<Seq<char>>) -> Result<
    MachineView,
    ApiError,
> {
    match bearer {
        None => Err(ApiError::Unauthorized(AuthReason::TokenRequired)),
        Some(token) => match parse_machine_token(token) {
            None => Err(ApiError::Unauthorized(AuthReason::InvalidTokenFormat)),
            Some((id, secret)) => match store.machine_by_id(id) {
                Some(m) => if m.key == secret {
                    Ok(m)
                } else {
                    Err(ApiError::Unauthorized(AuthReason::TokenRequired))
                },
                None => Err(ApiError::Unauthorized(AuthReason::TokenRequired)),
            },
        },
    }
}

/// Proof that a request holds the per-machine capability, with the machine
/// that it speaks for.
#[derive(Debug, PartialEq, Eq)]
pub struct ApiClient(pub Machine);

impl ApiClient {
    /// Resolves the machine that a per-machine token speaks for; see
    /// `machine_check`.
    pub fn from_request_parts(bearer: Option<&str>, store: &Store) -> (out: Result<
        ApiClient,
        ApiError,
    >)
        requires
            store.wf(),
        ensures
            match out {
                Ok(client) => machine_check(store@, bearer_text(bearer)) == Ok::<
                    MachineView,
                    ApiError,
                >(client.0@),
                Err(e) => machine_check(store@, bearer_text(bearer)) == Err::<
                    MachineView,
                    ApiError,
                >(e),
            },
    {
        let token = match bearer {
            Some(token) => token,
            None => {
                return Err(ApiError::Unauthorized(AuthReason::TokenRequired));
            },
        };
        let (id, secret) = match split_machine_token(token) {
            Some(parts) => parts,
            None => {
                return Err(ApiError::Unauthorized(AuthReason::InvalidTokenFormat));
            },
        };
        match store.find_machine_by_id(id) {
            Some(machine) => {
                let key = to_chars(machine.key.as_str());
                if chars_eq(&key, &secret) {
                    Ok(ApiClient(machine))
                } else {
                    Err(ApiError::Unauthorized(AuthReason::TokenRequired))
                }
            },
            None => Err(ApiError::Unauthorized(AuthReason::TokenRequired)),
        }
    }
}

} // verus!
