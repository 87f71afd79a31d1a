//! HTTP Basic authentication and runtime passwords.
use std::time::{Duration, SystemTime};
use vstd::prelude::*;
use vstd::utf8::*;

use crate::events::duration_nanos;
use crate::http::utf8_text;
use crate::text::{
    chars_of, decimal, decimal_string, find, find_in, owned, push_char, range_equals,
    range_starts_with, starts_with, string_of_range,
};

verus! {

/// Who may use the share.
#[derive(Clone, Debug)]
pub struct AuthConfig {
    pub enabled: bool,
    pub username: String,
    pub password: Option<String>,
    pub password_env: Option<String>,
}

impl Default for AuthConfig {
    fn default() -> (a: Self)
        ensures
            a.enabled,
            a.username@ == "davbox"@,
            a.password is None,
            a.password_env matches Some(n) && n@ == "DAVBOX_PASSWORD"@,
    {
        AuthConfig {
            enabled: true,
            username: owned("davbox"),
            password: None,
            password_env: Some(owned("DAVBOX_PASSWORD")),
        }
    }
}

/// The value of the first variable named `name` in `env`.
pub open spec fn env_lookup(env: Seq<(String, String)>, name: Seq<char>) -> Option<Seq<char>>
    decreases env.len(),
{
    if env.len() == 0 {
        None
    } else if env[0].0@ == name {
        Some(env[0].1@)
    } else {
        env_lookup(env.drop_first(), name)
    }
}

/// The runtime password made from a clock reading `v`: its eight decimal digits
/// with a dash after the fourth.
pub open spec fn password_text(v: nat) -> Seq<char> {
    decimal(v).subrange(0, 4) + seq!['-'] + decimal(v).subrange(4, decimal(v).len() as int)
}

/// The eight-digit values that runtime passwords are made from.
pub open spec fn password_value_in_range(v: nat) -> bool {
    10_000_000 <= v < 99_999_999
}

/// `p` is a password that `generate_password` can return.
pub open spec fn is_generated_password(p: Seq<char>) -> bool {
    exists|v: nat| password_value_in_range(v) && p == password_text(v)
}

/// The password that a config ends up with: its own, else the value of the
/// environment variable it names, else the freshly generated `generated`.
pub open spec fn runtime_password(
    password: Option<Seq<char>>,
    password_env: Option<Seq<char>>,
    env: Seq<(String, String)>,
    generated: Seq<char>,
) -> Seq<char> {
    match password {
        Some(p) => p,
        None => match password_env {
            Some(name) => match env_lookup(env, name) {
                Some(v) => v,
                None => generated,
            },
            None => generated,
        },
    }
}

pub open spec fn opt_chars(o: Option<String>) -> Option<Seq<char>> {
    match o {
        Some(s) => Some(s@),
        None => None,
    }
}

impl AuthConfig {
    /// Fills in the password: from the environment variable named by
    /// `password_env`, or else a generated one. A disabled config is returned as it is.
    pub fn with_runtime_password(self, env: &[(String, String)]) -> (r: Self)
        ensures
            !self.enabled ==> r == self,
            self.enabled ==> {
                &&& r.enabled
                &&& r.username == self.username
                &&& r.password_env == self.password_env
                &&& r.password is Some
                &&& exists|g: Seq<char>|
                    is_generated_password(g) && r.password->0@ == runtime_password(
                        opt_chars(self.password),
                        opt_chars(self.password_env),
                        env@,
                        g,
                    )
            },
    {
        if !self.enabled {
            return self;
        }
        let ghost initial = self;
        let mut out = self;
        if out.password.is_none() {
            if let Some(name) = &out.password_env {
                let found = find_env(env, name.as_str());
                if let Some(value) = found {
                    out.password = Some(value);
                }
            }
        }
        if out.password.is_none() {
            let g = generate_password();
            out.password = Some(g);
            proof {
                let gv = out.password->0@;
                assert(out.password->0@ == runtime_password(
                    opt_chars(initial.password),
                    opt_chars(initial.password_env),
                    env@,
                    gv,
                ));
            }
        } else {
            proof {
                assert(password_value_in_range(10_000_000));
                let g = password_text(10_000_000);
                assert(is_generated_password(g));
                assert(out.password->0@ == runtime_password(
                    opt_chars(initial.password),
                    opt_chars(initial.password_env),
                    env@,
                    g,
                ));
            }
        }
        out
    }
}

/// The value of the first entry of `env` whose key is `name`.
fn find_env(env: &[(String, String)], name: &str) -> (r: Option<String>)
    ensures
        match r {
            Some(v) => env_lookup(env@, name@) == Some(v@),
            None => env_lookup(env@, name@) is None,
        },
{
    let mut i: usize = 0;
    assert(env@.skip(0) =~= env@);
    while i < env.len()
        invariant
            0 <= i <= env@.len(),
            env_lookup(env@, name@) == env_lookup(env@.skip(i as int), name@),
        decreases env@.len() - i,
    {
        let ghost rest = env@.skip(i as int);
        assert(rest[0] == env@[i as int]);
        if crate::text::same_text(env[i].0.as_str(), name) {
            return Some(env[i].1.clone());
        }
        assert(rest.drop_first() =~= env@.skip(i + 1));
        i += 1;
    }
    assert(env@.skip(i as int).len() == 0);
    None
}

// ---------------------------------------------------------------------------
// Generated passwords
// ---------------------------------------------------------------------------

/// `std::time::SystemTime`, carried as an opaque value.
#[verifier::external_type_specification]
#[verifier::external_body]
pub struct ExSystemTime(SystemTime);

/// `SystemTime::now`: the current wall-clock time. Nothing is promised of it.
#[verifier::external_body]
fn system_time_now() -> SystemTime {
    SystemTime::now()
}

/// `SystemTime::duration_since(UNIX_EPOCH)`: how long after the Unix epoch `t`
/// is, `None` for a time before it. It depends on the clock, so nothing is
/// promised of it.
#[verifier::external_body]
fn since_unix_epoch(t: SystemTime) -> Option<Duration> {
    t.duration_since(std::time::UNIX_EPOCH).ok()
}

/// The runtime password for a clock reading of `nanos` nanoseconds.
pub fn password_from_clock(nanos: u128) -> (p: String)
    ensures
        p@ == password_text((10_000_000 + nanos % 89_999_999) as nat),
        password_value_in_range((10_000_000 + nanos % 89_999_999) as nat),
{
    let value = (nanos % 89_999_999) as u64 + 10_000_000;
    let digits = decimal_string(value as u128);
    let cs = chars_of(digits.as_str());
    proof {
        lemma_eight_digits(value as nat);
    }
    let mut p = string_of_range(&cs, 0, 4);
    push_char(&mut p, '-');
    let tail = string_of_range(&cs, 4, cs.len());
    crate::text::push_str(&mut p, tail.as_str());
    p
}

proof fn lemma_eight_digits(v: nat)
    requires
        10_000_000 <= v < 100_000_000,
    ensures
        decimal(v).len() == 8,
{
    assert(decimal(v) == decimal(v / 10).push(crate::text::digit_char(v % 10)));
    assert(decimal(v / 10) == decimal(v / 100).push(crate::text::digit_char((v / 10) % 10)));
    assert(decimal(v / 100) == decimal(v / 1000).push(crate::text::digit_char((v / 100) % 10)));
    assert(decimal(v / 1000) == decimal(v / 10000).push(
        crate::text::digit_char((v / 1000) % 10),
    ));
    assert(decimal(v / 10000) == decimal(v / 100000).push(
        crate::text::digit_char((v / 10000) % 10),
    ));
    assert(decimal(v / 100000) == decimal(v / 1000000).push(
        crate::text::digit_char((v / 100000) % 10),
    ));
    assert(decimal(v / 1000000) == decimal(v / 10000000).push(
        crate::text::digit_char((v / 1000000) % 10),
    ));
    assert(v / 10000000 < 10);
    assert(decimal(v / 10000000).len() == 1);
}

/// A fresh eight-digit password such as `1234-5678`, taken from the clock.
pub fn generate_password() -> (p: String)
    ensures
        is_generated_password(p@),
{
    let nanos = match since_unix_epoch(system_time_now()) {
        Some(d) => duration_nanos(&d),
        None => 42,
    };
    password_from_clock(nanos)
}

// ---------------------------------------------------------------------------
// Base64 and Basic credentials
// ---------------------------------------------------------------------------

/// `u8::is_ascii_whitespace`.
pub open spec fn is_ascii_space(b: u8) -> bool {
    b == 32 || b == 9 || b == 10 || b == 12 || b == 13
}

/// The 6-bit value of a base64 alphabet byte.
pub open spec fn b64_value(b: u8) -> Option<u8> {
    if 65 <= b <= 90 {
        Some((b - 65) as u8)
    } else if 97 <= b <= 122 {
        Some((b - 97 + 26) as u8)
    } else if 48 <= b <= 57 {
        Some((b - 48 + 52) as u8)
    } else if b == 43 {
        Some(62)
    } else if b == 47 {
        Some(63)
    } else {
        None
    }
}

/// The 6-bit digits of base64 text: whitespace is skipped, `=` ends the text,
/// and any other byte outside the alphabet makes it invalid.
pub open spec fn b64_digits(b: Seq<u8>) -> Option<Seq<u8>>
    decreases b.len(),
{
    if b.len() == 0 || b[0] == 61 {
        Some(Seq::empty())
    } else if is_ascii_space(b[0]) {
        b64_digits(b.skip(1))
    } else {
        match (b64_value(b[0]), b64_digits(b.skip(1))) {
            (Some(v), Some(rest)) => Some(seq![v] + rest),
            _ => None,
        }
    }
}

/// The byte that the last digit of `d` completes, if any: digits carry six bits
/// each and every eight bits make a byte.
pub open spec fn b64_step(d: Seq<u8>) -> Seq<u8> {
    let n = d.len();
    if n % 4 == 2 {
        seq![((d[n - 2] << 2) | (d[n - 1] >> 4)) as u8]
    } else if n % 4 == 3 {
        seq![(((d[n - 2] & 15) << 4) | (d[n - 1] >> 2)) as u8]
    } else if n % 4 == 0 && n > 0 {
        seq![(((d[n - 2] & 3) << 6) | d[n - 1]) as u8]
    } else {
        Seq::empty()
    }
}

/// The bytes that a sequence of 6-bit digits carries; bits left over at the end are dropped.
pub open spec fn b64_bytes(d: Seq<u8>) -> Seq<u8>
    decreases d.len(),
{
    if d.len() == 0 {
        Seq::empty()
    } else {
        b64_bytes(d.drop_last()) + b64_step(d)
    }
}

/// What base64 text decodes to, or `None` when it holds a byte outside the alphabet.
pub open spec fn b64_decode(b: Seq<u8>) -> Option<Seq<u8>> {
    match b64_digits(b) {
        Some(d) => Some(b64_bytes(d)),
        None => None,
    }
}

fn b64_value_exec(b: u8) -> (r: Option<u8>)
    ensures
        r == b64_value(b),
{
    if 65 <= b && b <= 90 {
        Some(b - 65)
    } else if 97 <= b && b <= 122 {
        Some(b - 97 + 26)
    } else if 48 <= b && b <= 57 {
        Some(b - 48 + 52)
    } else if b == 43 {
        Some(62)
    } else if b == 47 {
        Some(63)
    } else {
        None
    }
}

/// Decodes base64 text as the Basic scheme carries it.
pub fn base64_decode(input: &str) -> (r: Result<Vec<u8>, String>)
    ensures
        match (r, b64_decode(encode_utf8(input@))) {
            (Ok(out), Some(d)) => out@ == d,
            (Err(e), None) => e@ == "Invalid base64"@,
            _ => false,
        },
{
    let b = input.as_bytes();
    let mut out: Vec<u8> = Vec::new();
    let mut prev: u8 = 0;
    let mut count: usize = 0;
    let ghost mut digits: Seq<u8> = Seq::empty();
    let mut i: usize = 0;
    proof {
        assert(b@.skip(0) =~= b@);
        match b64_digits(b@) {
            Some(dd) => {
                assert(digits + dd =~= dd);
            },
            None => {},
        }
    }
    while i < b.len()
        invariant
            b@ == encode_utf8(input@),
            0 <= i <= b@.len(),
            b64_digits(b@) == match b64_digits(b@.skip(i as int)) {
                Some(rest) => Some(digits + rest),
                None => None::<Seq<u8>>,
            },
            count == digits.len() % 4,
            digits.len() > 0 ==> prev == digits.last(),
            forall|j: int| 0 <= j < digits.len() ==> #[trigger] digits[j] < 64,
            out@ == b64_bytes(digits),
        ensures
            b64_digits(b@) == Some(digits),
            out@ == b64_bytes(digits),
        decreases b@.len() - i,
    {
        let c = b[i];
        let ghost rest = b@.skip(i as int);
        assert(rest[0] == c);
        assert(rest.skip(1) =~= b@.skip(i + 1));
        if c == 61 {
            proof {
                assert(b64_digits(rest) == Some(Seq::<u8>::empty()));
                assert(digits + Seq::<u8>::empty() =~= digits);
            }
            break;
        }
        if c == 32 || c == 9 || c == 10 || c == 12 || c == 13 {
            i += 1;
            continue;
        }
        let v = match b64_value_exec(c) {
            Some(v) => v,
            None => {
                return Err(owned("Invalid base64"));
            },
        };
        let ghost nd = digits.push(v);
        proof {
            match b64_digits(b@.skip(i + 1)) {
                Some(r2) => {
                    assert(nd + r2 =~= digits + (seq![v] + r2));
                },
                None => {},
            }
            assert(nd.drop_last() =~= digits);
        }
        if count == 1 {
            let x = (prev << 2) | (v >> 4);
            out.push(x);
        } else if count == 2 {
            let x = ((prev & 15) << 4) | (v >> 2);
            out.push(x);
        } else if count == 3 {
            let x = ((prev & 3) << 6) | v;
            out.push(x);
        }
        proof {
            digits = nd;
        }
        prev = v;
        count = (count + 1) % 4;
        i += 1;
    }
    Ok(out)
}

/// The credentials that a Basic `Authorization` header carries, decoded as
/// text, when it carries any.
pub open spec fn basic_credentials(h: Seq<char>) -> Option<Seq<char>> {
    if starts_with(h, "Basic "@) {
        match b64_decode(encode_utf8(h.subrange(6, h.len() as int))) {
            Some(d) => if valid_utf8(d) {
                Some(decode_utf8(d))
            } else {
                None
            },
            None => None,
        }
    } else {
        None
    }
}

/// Decoded credentials `user:password` name `username` and `password`: the
/// text before the first `:` is the user, the rest the password.
pub open spec fn credentials_match(
    t: Seq<char>,
    username: Seq<char>,
    password: Option<Seq<char>>,
) -> bool {
    let k = find(t, ':');
    &&& k >= 0
    &&& t.subrange(0, k) == username
    &&& password == Some(t.subrange(k + 1, t.len() as int))
}

/// Whether a request with this `Authorization` header may proceed.
pub open spec fn basic_auth_spec(header: Option<Seq<char>>, auth: AuthConfig) -> bool {
    if !auth.enabled {
        true
    } else {
        match header {
            None => false,
            Some(h) => match basic_credentials(h) {
                Some(t) => credentials_match(
                    t,
                    auth.username@,
                    match auth.password {
                        Some(p) => Some(p@),
                        None => None,
                    },
                ),
                None => false,
            },
        }
    }
}

/// Checks an `Authorization` header against the configured credentials. Every
/// request passes when authentication is disabled.
pub fn basic_auth_matches(header: Option<&str>, auth: &AuthConfig) -> (ok: bool)
    ensures
        ok == basic_auth_spec(
            match header {
                Some(h) => Some(h@),
                None => None,
            },
            *auth,
        ),
{
    if !auth.enabled {
        return true;
    }
    let header = match header {
        Some(h) => h,
        None => {
            return false;
        },
    };
    let hc = chars_of(header);
    proof {
        reveal_strlit("Basic ");
    }
    if !range_starts_with(&hc, 0, hc.len(), "Basic ") {
        assert(hc@.subrange(0, hc@.len() as int) =~= hc@);
        return false;
    }
    assert(hc@.subrange(0, hc@.len() as int) =~= hc@);
    let encoded = string_of_range(&hc, 6, hc.len());
    let decoded = match base64_decode(encoded.as_str()) {
        Ok(d) => d,
        Err(_) => {
            return false;
        },
    };
    let text = match utf8_text(decoded) {
        Some(t) => t,
        None => {
            return false;
        },
    };
    let tc = chars_of(text.as_str());
    assert(tc@.subrange(0, tc@.len() as int) =~= tc@);
    let k = match find_in(&tc, 0, tc.len(), ':') {
        Some(k) => k,
        None => {
            return false;
        },
    };
    let ghost t = tc@;
    if !range_equals(&tc, 0, k, auth.username.as_str()) {
        return false;
    }
    match &auth.password {
        Some(p) => range_equals(&tc, k + 1, tc.len(), p.as_str()),
        None => false,
    }
}

// ---------------------------------------------------------------------------
// What a client sends
// ---------------------------------------------------------------------------

/// The base64 alphabet byte for a 6-bit value.
pub open spec fn b64_char(v: u8) -> u8 {
    if v < 26 {
        (v + 65) as u8
    } else if v < 52 {
        (v - 26 + 97) as u8
    } else if v < 62 {
        (v - 52 + 48) as u8
    } else if v == 62 {
        43
    } else {
        47
    }
}

/// The 6-bit digits of one group of up to three bytes.
pub open spec fn b64_group_digits(b: Seq<u8>) -> Seq<u8> {
    if b.len() >= 3 {
        seq![
            b[0] >> 2,
            ((b[0] & 3) << 4) | (b[1] >> 4),
            ((b[1] & 15) << 2) | (b[2] >> 6),
            b[2] & 63,
        ]
    } else if b.len() == 2 {
        seq![b[0] >> 2, ((b[0] & 3) << 4) | (b[1] >> 4), (b[1] & 15) << 2]
    } else if b.len() == 1 {
        seq![b[0] >> 2, (b[0] & 3) << 4]
    } else {
        Seq::empty()
    }
}

/// The 6-bit digits of `b`, three bytes at a time.
pub open spec fn b64_encode_digits(b: Seq<u8>) -> Seq<u8>
    decreases b.len(),
{
    if b.len() <= 3 {
        b64_group_digits(b)
    } else {
        b64_group_digits(b.take(3)) + b64_encode_digits(b.skip(3))
    }
}

/// The `=` signs that pad base64 text of `n` bytes to whole groups.
pub open spec fn b64_padding(n: nat) -> Seq<u8> {
    if n % 3 == 1 {
        seq![61u8, 61u8]
    } else if n % 3 == 2 {
        seq![61u8]
    } else {
        Seq::empty()
    }
}

/// Standard base64 text for `b`, padded with `=`.
pub open spec fn b64_encode(b: Seq<u8>) -> Seq<u8> {
    b64_encode_digits(b).map_values(|v: u8| b64_char(v)) + b64_padding(b.len())
}

/// The characters of an ASCII byte sequence.
pub open spec fn ascii_text(b: Seq<u8>) -> Seq<char> {
    b.map_values(|x: u8| x as char)
}

/// The `Authorization` header a client sends for `username` and `password`.
pub open spec fn basic_header(username: Seq<char>, password: Seq<char>) -> Seq<char> {
    "Basic "@ + ascii_text(b64_encode(encode_utf8(username + ":"@ + password)))
}

proof fn lemma_b64_char(v: u8)
    requires
        v < 64,
    ensures
        b64_value(b64_char(v)) == Some(v),
        !is_ascii_space(b64_char(v)),
        b64_char(v) != 61,
        b64_char(v) < 128,
{
}

proof fn lemma_b64_three(b0: u8, b1: u8, b2: u8)
    by (bit_vector)
    ensures
        b0 >> 2 < 64,
        ((b0 & 3) << 4) | (b1 >> 4) < 64,
        ((b1 & 15) << 2) | (b2 >> 6) < 64,
        b2 & 63 < 64,
        (b1 & 15) << 2 < 64,
        (b0 & 3) << 4 < 64,
        ((b0 >> 2) << 2) | ((((b0 & 3) << 4) | (b1 >> 4)) >> 4) == b0,
        ((((b0 & 3) << 4) | (b1 >> 4)) & 15) << 4 | ((((b1 & 15) << 2) | (b2 >> 6)) >> 2) == b1,
        ((((b1 & 15) << 2) | (b2 >> 6)) & 3) << 6 | (b2 & 63) == b2,
        ((((b0 & 3) << 4) | (b1 >> 4)) & 15) << 4 | (((b1 & 15) << 2) >> 2) == b1,
        ((b0 >> 2) << 2) | (((b0 & 3) << 4) >> 4) == b0,
{
}

proof fn lemma_b64_digits_small(b: Seq<u8>)
    ensures
        forall|i: int| 0 <= i < b64_encode_digits(b).len() ==> #[trigger] b64_encode_digits(b)[i] < 64,
    decreases b.len(),
{
    if b.len() >= 3 {
        lemma_b64_three(b[0], b[1], b[2]);
    } else if b.len() == 2 {
        lemma_b64_three(b[0], b[1], 0);
    } else if b.len() == 1 {
        lemma_b64_three(b[0], 0, 0);
    }
    if b.len() > 3 {
        lemma_b64_digits_small(b.skip(3));
        let g = b64_group_digits(b.take(3));
        let r = b64_encode_digits(b.skip(3));
        assert forall|i: int| 0 <= i < (g + r).len() implies #[trigger] (g + r)[i] < 64 by {
            if i >= g.len() {
                assert((g + r)[i] == r[i - g.len()]);
            }
        }
    }
}

proof fn lemma_b64_digits_of_text(d: Seq<u8>, pad: Seq<u8>)
    requires
        forall|i: int| 0 <= i < d.len() ==> #[trigger] d[i] < 64,
        pad.len() == 0 || pad[0] == 61,
    ensures
        b64_digits(d.map_values(|v: u8| b64_char(v)) + pad) == Some(d),
    decreases d.len(),
{
    let t = d.map_values(|v: u8| b64_char(v)) + pad;
    if d.len() == 0 {
        assert(t =~= pad);
    } else {
        lemma_b64_char(d[0]);
        assert(t[0] == b64_char(d[0]));
        assert(t.skip(1) =~= d.skip(1).map_values(|v: u8| b64_char(v)) + pad);
        lemma_b64_digits_of_text(d.skip(1), pad);
        assert(seq![d[0]] + d.skip(1) =~= d);
    }
}

proof fn lemma_b64_bytes_concat(x: Seq<u8>, y: Seq<u8>)
    requires
        x.len() % 4 == 0,
    ensures
        b64_bytes(x + y) == b64_bytes(x) + b64_bytes(y),
    decreases y.len(),
{
    if y.len() == 0 {
        assert(x + y =~= x);
        assert(b64_bytes(x) + Seq::<u8>::empty() =~= b64_bytes(x));
    } else {
        assert((x + y).drop_last() =~= x + y.drop_last());
        lemma_b64_bytes_concat(x, y.drop_last());
        let n = (x + y).len();
        if y.len() >= 2 {
            assert((x + y)[n - 2] == y[y.len() - 2]);
        }
        assert((x + y)[n - 1] == y[y.len() - 1]);
        assert(b64_step(x + y) == b64_step(y));
        assert(b64_bytes(x) + b64_bytes(y.drop_last()) + b64_step(y) =~= b64_bytes(x) + (b64_bytes(
            y.drop_last(),
        ) + b64_step(y)));
    }
}

proof fn lemma_b64_group_bytes(b: Seq<u8>)
    requires
        1 <= b.len() <= 3,
    ensures
        b64_bytes(b64_group_digits(b)) == b,
{
    let g = b64_group_digits(b);
    assert(b64_bytes(Seq::<u8>::empty()) == Seq::<u8>::empty());
    if b.len() == 3 {
        lemma_b64_three(b[0], b[1], b[2]);
        let g1 = g.take(1);
        let g2 = g.take(2);
        let g3 = g.take(3);
        assert(g1.drop_last() =~= Seq::<u8>::empty());
        assert(g2.drop_last() =~= g1);
        assert(g3.drop_last() =~= g2);
        assert(g.drop_last() =~= g3);
        assert(b64_bytes(g1) =~= Seq::<u8>::empty());
        assert(b64_bytes(g2) =~= seq![b[0]]);
        assert(b64_bytes(g3) =~= seq![b[0], b[1]]);
        assert(b64_bytes(g) =~= b);
    } else if b.len() == 2 {
        lemma_b64_three(b[0], b[1], 0);
        let g1 = g.take(1);
        let g2 = g.take(2);
        assert(g1.drop_last() =~= Seq::<u8>::empty());
        assert(g2.drop_last() =~= g1);
        assert(g.drop_last() =~= g2);
        assert(b64_bytes(g1) =~= Seq::<u8>::empty());
        assert(b64_bytes(g2) =~= seq![b[0]]);
        assert(b64_bytes(g) =~= b);
    } else {
        lemma_b64_three(b[0], 0, 0);
        let g1 = g.take(1);
        assert(g1.drop_last() =~= Seq::<u8>::empty());
        assert(g.drop_last() =~= g1);
        assert(b64_bytes(g1) =~= Seq::<u8>::empty());
        assert(b64_bytes(g) =~= b);
    }
}

proof fn lemma_b64_bytes_of_digits(b: Seq<u8>)
    ensures
        b64_bytes(b64_encode_digits(b)) == b,
    decreases b.len(),
{
    if b.len() == 0 {
        assert(b64_bytes(Seq::<u8>::empty()) == Seq::<u8>::empty());
        assert(b =~= Seq::<u8>::empty());
    } else if b.len() <= 3 {
        lemma_b64_group_bytes(b);
    } else {
        lemma_b64_bytes_of_digits(b.skip(3));
        lemma_b64_group_bytes(b.take(3));
        lemma_b64_bytes_concat(b64_group_digits(b.take(3)), b64_encode_digits(b.skip(3)));
        assert(b.take(3) + b.skip(3) =~= b);
    }
}

/// Base64 text decodes back to the bytes it was made from.
pub proof fn lemma_base64_round_trip(b: Seq<u8>)
    ensures
        b64_decode(b64_encode(b)) == Some(b),
{
    lemma_b64_digits_small(b);
    lemma_b64_digits_of_text(b64_encode_digits(b), b64_padding(b.len()));
    lemma_b64_bytes_of_digits(b);
}

/// A client that sends the `Authorization` header for a user name and a
/// password gets through exactly when authentication is off or they are the
/// configured ones. (A user name with a `:` in it cannot be told apart from
/// the password, so it is left out.)
pub proof fn lemma_basic_auth_accepts_configured_credentials(
    auth: AuthConfig,
    username: Seq<char>,
    password: Seq<char>,
)
    requires
        find(username, ':') == -1,
    ensures
        basic_auth_spec(Some(basic_header(username, password)), auth) == (!auth.enabled || (
        username == auth.username@ && (auth.password matches Some(p) && p@ == password))),
{
    let text = username + ":"@ + password;
    let bytes = encode_utf8(text);
    let enc = b64_encode(bytes);
    let h = basic_header(username, password);
    reveal_strlit("Basic ");
    reveal_strlit(":");
    assert(starts_with(h, "Basic "@)) by {
        assert(h.subrange(0, 6) =~= "Basic "@);
    }
    let tail = h.subrange(6, h.len() as int);
    assert(tail =~= ascii_text(enc));
    lemma_b64_digits_small(bytes);
    assert forall|i: int| 0 <= i < enc.len() implies #[trigger] enc[i] < 128 by {
        let d = b64_encode_digits(bytes);
        let m = d.map_values(|v: u8| b64_char(v));
        if i < m.len() {
            lemma_b64_char(d[i]);
            assert(enc[i] == m[i]);
        } else {
            assert(enc[i] == b64_padding(bytes.len())[i - m.len()]);
        }
    }
    assert(is_ascii_chars(tail)) by {
        assert forall|i: int| 0 <= i < tail.len() implies '\0' <= #[trigger] tail[i] <= '\u{7f}' by {
            assert(tail[i] == enc[i] as char);
        }
    }
    is_ascii_chars_encode_utf8(tail);
    assert(encode_utf8(tail) =~= enc) by {
        assert forall|i: int| 0 <= i < enc.len() implies encode_utf8(tail)[i] == enc[i] by {
            assert(tail[i] as u8 == encode_utf8(tail)[i]);
        }
    }
    lemma_base64_round_trip(bytes);
    encode_utf8_valid_utf8(text);
    encode_utf8_decode_utf8(text);
    assert(basic_credentials(h) == Some(text));
    // the first `:` of the credentials is the one after the user name
    crate::text::lemma_find_facts(username, ':');
    assert forall|j: int| 0 <= j < username.len() implies text[j] != ':' by {
        assert(text[j] == username[j]);
    }
    assert(text[username.len() as int] == ':');
    crate::text::lemma_find_first(text, ':', username.len() as int);
    assert(text.subrange(0, username.len() as int) =~= username);
    assert(text.subrange(username.len() + 1 as int, text.len() as int) =~= password);
}

} // verus!
