//! Comparisons whose running time does not depend on where inputs differ.

use vstd::prelude::*;

verus! {

proof fn lemma_or_xor_zero(d: u8, x: u8, y: u8)
    ensures
        (d | (x ^ y)) == 0u8 <==> (d == 0u8 && x == y),
{
    assert((d | (x ^ y)) == 0u8 <==> (d == 0u8 && x == y)) by (bit_vector);
}

/// Byte at `i`, or zero past the end.
pub open spec fn byte_or_zero(s: Seq<u8>, i: int) -> u8 {
    if 0 <= i < s.len() {
        s[i]
    } else {
        0u8
    }
}

/// Compares two byte strings, visiting every position of the longer one
/// whatever the content, so that timing reveals only the lengths.
pub fn constant_time_eq(a: &[u8], b: &[u8]) -> (r: bool)
    ensures
        r == (a@ == b@),
{
    let max_len: usize = if a.len() > b.len() {
        a.len()
    } else {
        b.len()
    };
    let mut diff: u8 = if a.len() == b.len() {
        0
    } else {
        1
    };
    let mut i: usize = 0;
    while i < max_len
        invariant
            i <= max_len,
            max_len == if a@.len() > b@.len() { a@.len() } else { b@.len() },
            diff == 0 <==> (a@.len() == b@.len() && forall|j: int|
                0 <= j < i ==> byte_or_zero(a@, j) == byte_or_zero(b@, j)),
        decreases max_len - i,
    {
        let ai: u8 = if i < a.len() {
            a[i]
        } else {
            0
        };
        let bi: u8 = if i < b.len() {
            b[i]
        } else {
            0
        };
        assert(ai == byte_or_zero(a@, i as int) && bi == byte_or_zero(b@, i as int));
        proof {
            lemma_or_xor_zero(diff, ai, bi);
        }
        let ghost prev = diff;
        diff = diff | (ai ^ bi);
        i = i + 1;
        assert(diff == 0 <==> (prev == 0 && ai == bi));
    }
    if diff == 0 {
        assert(a@ =~= b@) by {
            assert forall|j: int| 0 <= j < a@.len() implies a@[j] == b@[j] by {
                assert(byte_or_zero(a@, j) == byte_or_zero(b@, j));
            }
        }
    }
    diff == 0
}

/// Constant-time equality of two optional strings: both absent, or both
/// present with equal bytes.
pub fn ct_eq_str_opt(a: Option<&str>, b: Option<&str>) -> (r: bool)
    ensures
        r == match (a, b) {
            (Some(x), Some(y)) => x@ == y@,
            (None, None) => true,
            _ => false,
        },
{
    match (a, b) {
        (Some(x), Some(y)) => {
            let r = constant_time_eq(x.as_bytes(), y.as_bytes());
            proof {
                vstd::utf8::encode_utf8_decode_utf8(x@);
                vstd::utf8::encode_utf8_decode_utf8(y@);
            }
            r
        },
        (None, None) => true,
        _ => false,
    }
}

} // verus!

verus! {

/// Result of checking basic-auth credentials against the configured users.
#[derive(Clone, Copy, Debug, PartialEq, Eq)]
pub enum AuthOutcome {
    Granted,
    /// right user and password, but the path is not allowed to them
    PathNotAllowed,
    /// no such user, or a wrong password
    BadCredentials,
    /// no users are configured at all
    NoUsers,
}

/// Index of the first user with this name.
pub open spec fn first_user(users: Seq<crate::config::CofgUser>, name: Seq<char>) -> Option<int> {
    if exists|i: int| 0 <= i < users.len() && users[i].name@ == name {
        Some(choose|i: int| 0 <= i < users.len() && users[i].name@ == name && forall|j: int| 0 <= j < i ==> users[j].name@ != name)
    } else {
        None
    }
}

/// Some prefix in the list starts the path.
pub open spec fn some_prefix(list: Seq<Seq<char>>, path: Seq<char>) -> bool {
    exists|i: int| 0 <= i < list.len() && crate::text::has_prefix(path, list[i])
}

/// The path is allowed to a user: inside one of the allowed prefixes (all
/// paths when none are given) and inside none of the disallowed ones.
pub open spec fn path_allowed(user: crate::config::CofgUser, path: Seq<char>) -> bool {
    &&& match user.allow {
        Some(a) => some_prefix(crate::text::views(a@), path),
        None => true,
    }
    &&& match user.disallow {
        Some(d) => !some_prefix(crate::text::views(d@), path),
        None => true,
    }
}

pub open spec fn users_view(users: Option<Vec<crate::config::CofgUser>>) -> Option<Seq<crate::config::CofgUser>> {
    match users {
        Some(v) => Some(v@),
        None => None,
    }
}

pub open spec fn opt_str_view(s: Option<&str>) -> Option<Seq<char>> {
    match s {
        Some(x) => Some(x@),
        None => None,
    }
}

pub open spec fn opt_string_view(s: Option<String>) -> Option<Seq<char>> {
    match s {
        Some(x) => Some(x@),
        None => None,
    }
}

/// What basic authentication decides for a user name, an optional password
/// and a request path.
pub open spec fn auth_decision(
    users: Option<Seq<crate::config::CofgUser>>,
    name: Seq<char>,
    password: Option<Seq<char>>,
    path: Seq<char>,
) -> AuthOutcome {
    match users {
        None => AuthOutcome::NoUsers,
        Some(us) => match first_user(us, name) {
            None => AuthOutcome::BadCredentials,
            Some(i) => if opt_string_view(us[i].passwords) != password {
                AuthOutcome::BadCredentials
            } else if path_allowed(us[i], path) {
                AuthOutcome::Granted
            } else {
                AuthOutcome::PathNotAllowed
            },
        },
    }
}

fn any_prefix(list: &Vec<String>, path: &str) -> (r: bool)
    ensures
        r == some_prefix(crate::text::views(list@), path@),
{
    let mut i: usize = 0;
    while i < list.len()
        invariant
            i <= list@.len(),
            forall|j: int| 0 <= j < i ==> !crate::text::has_prefix(path@, #[trigger] crate::text::views(list@)[j]),
        decreases list@.len() - i,
    {
        assert(crate::text::views(list@)[i as int] == list@[i as int]@);
        if crate::text::starts_with_str(path, list[i].as_str()) {
            return true;
        }
        i = i + 1;
    }
    false
}

/// Checks basic-auth credentials: the first user with the name must have
/// the password (compared in constant time; a user without password matches
/// only a request without one), and the path must be allowed to them.
pub fn authorize(
    users: &Option<Vec<crate::config::CofgUser>>,
    name: &str,
    password: Option<&str>,
    path: &str,
) -> (r: AuthOutcome)
    ensures
        r == auth_decision(
            users_view(*users),
            name@,
            opt_str_view(password),
            path@,
        ),
{
    let us = match users {
        Some(us) => us,
        None => return AuthOutcome::NoUsers,
    };
    assert(users_view(*users) == Some(us@));
    let mut i: usize = 0;
    while i < us.len()
        invariant
            users_view(*users) == Some(us@),
            i <= us@.len(),
            forall|j: int| 0 <= j < i ==> us@[j].name@ != name@,
        decreases us@.len() - i,
    {
        if crate::text::str_eq(us[i].name.as_str(), name) {
            proof {
                let k = choose|k: int| 0 <= k < us@.len() && us@[k].name@ == name@ && forall|j: int| 0 <= j < k ==> us@[j].name@ != name@;
                assert(k == i) by {
                    if k < i {
                    } else if k > i {
                    }
                }
            }
            let user = &us[i];
            assert(first_user(us@, name@) == Some(i as int));
            assert(us@[i as int] == *user);
            let stored: Option<&str> = match &user.passwords {
                Some(p) => Some(p.as_str()),
                None => None,
            };
            assert(opt_str_view(stored) == opt_string_view(user.passwords));
            let same = ct_eq_str_opt(stored, password);
            assert(same == (opt_str_view(stored) == opt_str_view(password)));
            if !same {
                return AuthOutcome::BadCredentials;
            }
            let in_allow = match &user.allow {
                Some(a) => any_prefix(a, path),
                None => true,
            };
            let not_in_disallow = match &user.disallow {
                Some(d) => !any_prefix(d, path),
                None => true,
            };
            assert(path_allowed(*user, path@) == (in_allow && not_in_disallow));
            if in_allow && not_in_disallow {
                return AuthOutcome::Granted;
            } else {
                return AuthOutcome::PathNotAllowed;
            }
        }
        i = i + 1;
    }
    assert(first_user(us@, name@) is None);
    AuthOutcome::BadCredentials
}

} // verus!
