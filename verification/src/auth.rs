//! Signed bearer tokens (HS256 JSON web tokens), their verification, the
//! per-user request rate limit, and the decisions of the authorization check.

use vstd::prelude::*;
use vstd::utf8::encode_utf8;

use crate::clock::{now_utc, MAX_UNIX_SECONDS, MIN_UNIX_SECONDS};
use crate::config::AuthConfig;
use crate::crypto::{
    base64url, base64url_decode, base64url_encode, hmac_sha256, hmac_sha256_tag,
    hmac_sha256_verify, is_base64url_char, json_quote, json_string, lemma_base64url_alphabet,
    lemma_base64url_injective,
};
use crate::keyed::{
    keyed_map, keys_distinct, lemma_keyed_map, lemma_keyed_map_push, lemma_keyed_map_update,
};
use crate::text::{
    format_i64, lemma_split_three, push_char, signed_decimal, split_char, split_on, str_equal,
    string_from,
};

verus! {

/// What a token asserts: who it was issued to, when it expires and when it
/// was issued (seconds since the Unix epoch).
#[derive(Clone, Debug)]
pub struct Claims {
    pub sub: String,
    pub exp: i64,
    pub iat: i64,
}

/// Why a token could not be issued.
#[derive(Clone, Copy, Debug, PartialEq, Eq, Structural)]
pub enum AuthError {
    /// The expiry time lies outside the range of dates that chrono handles.
    ExpiryOutOfRange,
}

/// The JSON header of every token issued: HMAC-SHA256, JWT.
pub const JWT_HEADER: &'static str = "{\"alg\":\"HS256\",\"typ\":\"JWT\"}";

/// The largest magnitude of an expiry period in hours that stays within a
/// chrono `TimeDelta` (at most `i64::MAX` milliseconds, so at most
/// 9223372036854775 whole seconds).
pub const MAX_EXPIRY_HOURS: i64 = 2562047788015i64;

/// The JSON text of claims, with the fields in declaration order.
pub open spec fn claims_json(sub: Seq<char>, exp: int, iat: int) -> Seq<char> {
    "{\"sub\":"@ + json_string(sub) + ",\"exp\":"@ + signed_decimal(exp) + ",\"iat\":"@
        + signed_decimal(iat) + "}"@
}

/// The part of a token that is signed: the encoded header, a dot, and the
/// encoded payload.
pub open spec fn signing_input(payload_json: Seq<char>) -> Seq<char> {
    base64url(encode_utf8(JWT_HEADER@)) + seq!['.'] + base64url(encode_utf8(payload_json))
}

/// The token for `payload_json` signed with `secret`: the signing input, a
/// dot, and the encoded HMAC-SHA256 tag of the signing input.
pub open spec fn signed_token(secret: Seq<char>, payload_json: Seq<char>) -> Seq<char> {
    let input = signing_input(payload_json);
    input + seq!['.'] + base64url(hmac_sha256(encode_utf8(secret), encode_utf8(input)))
}

/// Whether `text` is the base64url encoding of some byte string.
pub open spec fn is_encoding(text: Seq<char>) -> bool {
    exists|v: Seq<u8>| #[trigger] base64url(v) == text
}

/// The byte string that `text` encodes (meaningful when `is_encoding(text)`).
pub open spec fn decoded(text: Seq<char>) -> Seq<u8> {
    choose|v: Seq<u8>| #[trigger] base64url(v) == text
}

/// The payload bytes of `token` when it is well formed and signed with
/// `secret`: three dot-separated parts, the third the encoding of the HMAC
/// tag of the first two (joined by a dot), the second an encoding.
pub open spec fn verified_payload(secret: Seq<char>, token: Seq<char>) -> Option<Seq<u8>> {
    let parts = split_on(token, '.');
    if parts.len() != 3 {
        None
    } else if !is_encoding(parts[2]) {
        None
    } else if decoded(parts[2]) != hmac_sha256(
        encode_utf8(secret),
        encode_utf8(parts[0] + seq!['.'] + parts[1]),
    ) {
        None
    } else if !is_encoding(parts[1]) {
        None
    } else {
        Some(decoded(parts[1]))
    }
}

/// Whether a token issued at `now` with an expiry period of `hours` has an
/// expiry time that chrono can compute: the period fits a `TimeDelta` and the
/// expiry lies within the dates chrono represents.
pub open spec fn expiry_fits(now: int, hours: int) -> bool {
    &&& -MAX_EXPIRY_HOURS <= hours <= MAX_EXPIRY_HOURS
    &&& MIN_UNIX_SECONDS <= now + hours * 3600 <= MAX_UNIX_SECONDS
}

/// A base64url encoding holds no dot.
proof fn lemma_no_dot(t: Seq<char>)
    requires
        forall|i: int| 0 <= i < t.len() ==> is_base64url_char(#[trigger] t[i]),
    ensures
        forall|i: int| 0 <= i < t.len() ==> #[trigger] t[i] != '.',
{
    assert forall|i: int| 0 <= i < t.len() implies #[trigger] t[i] != '.' by {
        assert(is_base64url_char(t[i]));
    }
}

/// Signs `payload_json` with `secret` into a token. The token verifies with
/// the same secret and gives back the payload's bytes.
pub fn sign_token(secret: &str, payload_json: &str) -> (res: String)
    ensures
        res@ == signed_token(secret@, payload_json@),
        verified_payload(secret@, res@) == Some(encode_utf8(payload_json@)),
{
    let header = base64url_encode(JWT_HEADER.as_bytes());
    let payload = base64url_encode(payload_json.as_bytes());
    let mut input = string_from(header.as_str());
    push_char(&mut input, '.');
    input.append(payload.as_str());
    let tag = hmac_sha256_tag(secret.as_bytes(), input.as_str().as_bytes());
    let sig = base64url_encode(tag.as_slice());
    let mut token = input;
    push_char(&mut token, '.');
    token.append(sig.as_str());
    proof {
        lemma_base64url_alphabet(encode_utf8(JWT_HEADER@));
        lemma_base64url_alphabet(encode_utf8(payload_json@));
        lemma_base64url_alphabet(tag@);
        lemma_no_dot(header@);
        lemma_no_dot(payload@);
        lemma_no_dot(sig@);
        assert(token@ =~= header@ + seq!['.'] + payload@ + seq!['.'] + sig@);
        lemma_split_three(header@, payload@, sig@, '.');
        let parts = split_on(token@, '.');
        assert(parts[0] == header@ && parts[1] == payload@ && parts[2] == sig@);
        assert(base64url(tag@) == sig@);
        assert(is_encoding(sig@));
        lemma_base64url_injective(decoded(sig@), tag@);
        assert(parts[0] + seq!['.'] + parts[1] =~= input@);
        assert(base64url(encode_utf8(payload_json@)) == payload@);
        assert(is_encoding(payload@));
        lemma_base64url_injective(decoded(payload@), encode_utf8(payload_json@));
    }
    token
}

/// The signed payload bytes of `token`, if it is well formed and carries a
/// valid signature under `secret`.
pub fn verify_signature(secret: &str, token: &str) -> (res: Option<Vec<u8>>)
    ensures
        match res {
            Some(p) => verified_payload(secret@, token@) == Some(p@),
            None => verified_payload(secret@, token@) is None,
        },
{
    let parts = split_char(token, '.');
    let ghost pieces = split_on(token@, '.');
    if parts.len() != 3 {
        return None;
    }
    assert(parts@[0]@ == pieces[0] && parts@[1]@ == pieces[1] && parts@[2]@ == pieces[2]);
    let mut input = string_from(parts[0].as_str());
    push_char(&mut input, '.');
    input.append(parts[1].as_str());
    assert(input@ =~= pieces[0] + seq!['.'] + pieces[1]);
    let sig = match base64url_decode(parts[2].as_str()) {
        Ok(v) => v,
        Err(_) => return None,
    };
    assert(is_encoding(pieces[2]));
    assert(decoded(pieces[2]) == sig@);
    if !hmac_sha256_verify(secret.as_bytes(), input.as_str().as_bytes(), sig.as_slice()) {
        return None;
    }
    let payload = match base64url_decode(parts[1].as_str()) {
        Ok(v) => v,
        Err(_) => return None,
    };
    assert(is_encoding(pieces[1]));
    assert(decoded(pieces[1]) == payload@);
    Some(payload)
}

/// The JSON text of claims, built as the serializer writes it.
pub fn claims_text(sub: &str, exp: i64, iat: i64) -> (res: String)
    ensures
        res@ == claims_json(sub@, exp as int, iat as int),
{
    let mut s = string_from("{\"sub\":");
    let quoted = json_quote(sub);
    s.append(quoted.as_str());
    s.append(",\"exp\":");
    let e = format_i64(exp);
    s.append(e.as_str());
    s.append(",\"iat\":");
    let i = format_i64(iat);
    s.append(i.as_str());
    s.append("}");
    s
}

/// Whether claims are still valid at `now`: they are, unless `now` is past
/// their expiry.
pub fn accept_claims(claims: Claims, now: i64) -> (res: Option<Claims>)
    ensures
        now > claims.exp ==> res is None,
        now <= claims.exp ==> res == Some(claims),
{
    if now > claims.exp {
        None
    } else {
        Some(claims)
    }
}


/// Whether claims are still valid now (see `accept_claims`), by the
/// current time: the claims come back unless the clock (never before the
/// epoch, never past the last second chrono can hold) is past their expiry.
pub fn accept_claims_now(claims: Claims) -> (res: Option<Claims>)
    ensures
        res is None || res == Some(claims),
        res is Some ==> 0 <= claims.exp,
        res is None ==> claims.exp < MAX_UNIX_SECONDS,
{
    let now = now_utc().seconds;
    accept_claims(claims, now)
}

/// The length of the rate-limit window: one minute, in nanoseconds.
pub const RATE_WINDOW_NANOS: u64 = 60_000_000_000u64;

/// The time from `start` to `now`, or zero when `start` is later (as
/// `Instant::duration_since` reports it).
pub open spec fn elapsed(now: u64, start: u64) -> nat {
    if now >= start {
        (now - start) as nat
    } else {
        0
    }
}

/// A user's (request count, window start) once a request at `now` is seen,
/// before it is counted: a new window starting at `now` when the user has
/// none or the old window is more than a minute old, else the current one.
pub open spec fn window_before(entry: Option<(u32, u64)>, now: u64) -> (u32, u64) {
    match entry {
        None => (0, now),
        Some((count, start)) => if elapsed(now, start) > RATE_WINDOW_NANOS {
            (0, now)
        } else {
            (count, start)
        },
    }
}

/// Counting a request at `now` from a user whose record is `entry`: the new
/// record, and whether the request is within the limit.
pub open spec fn rate_decision(entry: Option<(u32, u64)>, now: u64, limit: u32) -> (
    (u32, u64),
    bool,
) {
    let (count, start) = window_before(entry, now);
    (((count + 1) as u32, start), count + 1 <= limit)
}

/// Whether counting a request at `now` keeps the count within `u32`.
pub open spec fn rate_count_fits(entry: Option<(u32, u64)>, now: u64) -> bool {
    window_before(entry, now).0 < u32::MAX
}

/// Per-user request counts over one-minute windows.
pub struct RateLimiter {
    records: Vec<(String, (u32, u64))>,
}

impl RateLimiter {
    /// The records, by user name.
    pub closed spec fn pairs(&self) -> Seq<(Seq<char>, (u32, u64))> {
        self.records@.map_values(|r: (String, (u32, u64))| (r.0@, r.1))
    }

    /// Each user's (request count, window start).
    pub open spec fn state(&self) -> Map<Seq<char>, (u32, u64)> {
        keyed_map(self.pairs())
    }

    /// Well-formedness: one record per user.
    pub open spec fn wf(&self) -> bool {
        keys_distinct(self.pairs())
    }

    /// The record of `user`, if any.
    pub open spec fn record(&self, user: Seq<char>) -> Option<(u32, u64)> {
        if self.state().contains_key(user) {
            Some(self.state()[user])
        } else {
            None
        }
    }

    /// A limiter with no records.
    pub fn new() -> (res: Self)
        ensures
            res.wf(),
            res.state() == Map::<Seq<char>, (u32, u64)>::empty(),
    {
        let res = RateLimiter { records: Vec::new() };
        assert(res.pairs() =~= Seq::<(Seq<char>, (u32, u64))>::empty());
        res
    }

    /// Where `user` is recorded, if they are.
    fn find(&self, user: &str) -> (res: Option<usize>)
        requires
            self.wf(),
        ensures
            match res {
                Some(i) => i < self.pairs().len() && self.pairs()[i as int].0 == user@
                    && self.record(user@) == Some(self.pairs()[i as int].1),
                None => self.record(user@) is None && forall|i: int|
                    0 <= i < self.pairs().len() ==> self.pairs()[i].0 != user@,
            },
    {
        proof {
            lemma_keyed_map(self.pairs());
        }
        let mut i: usize = 0;
        while i < self.records.len()
            invariant
                self.wf(),
                i <= self.records@.len(),
                forall|k: int| 0 <= k < i ==> self.pairs()[k].0 != user@,
            decreases self.records@.len() - i,
        {
            if str_equal(self.records[i].0.as_str(), user) {
                proof {
                    lemma_keyed_map(self.pairs());
                }
                return Some(i);
            }
            i = i + 1;
        }
        None
    }

    /// The count that a request by `user` at `now` would start from.
    pub fn count_before(&self, user: &str, now: u64) -> (res: u32)
        requires
            self.wf(),
        ensures
            res == window_before(self.record(user@), now).0,
    {
        match self.find(user) {
            Some(i) => {
                let (count, start) = self.records[i].1;
                let since = if now >= start {
                    now - start
                } else {
                    0
                };
                if since > RATE_WINDOW_NANOS {
                    0
                } else {
                    count
                }
            },
            None => 0,
        }
    }

    /// Counts a request by `user` at `now` (nanoseconds on a monotonic
    /// clock) and says whether it is within `limit` requests per window.
    pub fn check(&mut self, user: &str, now: u64, limit: u32) -> (res: bool)
        requires
            old(self).wf(),
            rate_count_fits(old(self).record(user@), now),
        ensures
            final(self).wf(),
            final(self).state() == old(self).state().insert(
                user@,
                rate_decision(old(self).record(user@), now, limit).0,
            ),
            res == rate_decision(old(self).record(user@), now, limit).1,
    {
        let ghost old_pairs = self.pairs();
        proof {
            lemma_keyed_map(old_pairs);
        }
        match self.find(user) {
            Some(i) => {
                let (count, start) = self.records[i].1;
                let since = if now >= start {
                    now - start
                } else {
                    0
                };
                let (base, from) = if since > RATE_WINDOW_NANOS {
                    (0u32, now)
                } else {
                    (count, start)
                };
                let next = base + 1;
                let name = string_from(user);
                self.records.set(i, (name, (next, from)));
                assert(self.pairs() =~= old_pairs.update(i as int, (old_pairs[i as int].0, (next, from))));
                proof {
                    lemma_keyed_map_update(old_pairs, i as int, (next, from));
                }
                next <= limit
            },
            None => {
                let name = string_from(user);
                self.records.push((name, (1u32, now)));
                assert(self.pairs() =~= old_pairs.push((user@, (1u32, now))));
                proof {
                    lemma_keyed_map_push(old_pairs, user@, (1u32, now));
                }
                1 <= limit
            },
        }
    }
}

/// The outcome of a run of requests by one user at the given times, starting
/// from the record `entry`: the final record and how many were allowed.
pub open spec fn run_requests(entry: Option<(u32, u64)>, times: Seq<u64>, limit: u32) -> (
    Option<(u32, u64)>,
    nat,
)
    decreases times.len(),
{
    if times.len() == 0 {
        (entry, 0)
    } else {
        let (next, allowed) = rate_decision(entry, times[0], limit);
        let (last, n) = run_requests(Some(next), times.drop_first(), limit);
        (last, if allowed {
            n + 1
        } else {
            n
        })
    }
}

/// Within one window, each request adds one to the count and is allowed
/// while the count is at most the limit: of `n` requests from a user whose
/// window started at `start` with `count` requests, `min(n, limit - count)`
/// are allowed (none once the limit is reached), so never more than `limit`.
pub proof fn law_rate_limit_within_window(
    count: u32,
    start: u64,
    times: Seq<u64>,
    limit: u32,
)
    requires
        forall|i: int| 0 <= i < times.len() ==> elapsed(#[trigger] times[i], start) <= RATE_WINDOW_NANOS,
        count + times.len() < u32::MAX,
    ensures
        run_requests(Some((count, start)), times, limit).1 == if count >= limit {
            0
        } else if times.len() <= limit - count {
            times.len() as int
        } else {
            limit - count
        },
        run_requests(Some((count, start)), times, limit).1 <= limit,
        times.len() > 0 ==> run_requests(Some((count, start)), times, limit).0 == Some(
            ((count + times.len()) as u32, start),
        ),
    decreases times.len(),
{
    if times.len() > 0 {
        let rest = times.drop_first();
        assert forall|i: int| 0 <= i < rest.len() implies elapsed(#[trigger] rest[i], start)
            <= RATE_WINDOW_NANOS by {
            assert(rest[i] == times[i + 1]);
        }
        assert(elapsed(times[0], start) <= RATE_WINDOW_NANOS);
        law_rate_limit_within_window((count + 1) as u32, start, rest, limit);
    }
}

/// A user with no record gets the first `limit` of a run of requests made
/// within a minute of the first one allowed, and no more.
pub proof fn law_rate_limit_fresh_user(times: Seq<u64>, limit: u32)
    requires
        times.len() > 0,
        forall|i: int| 0 <= i < times.len() ==> elapsed(#[trigger] times[i], times[0]) <= RATE_WINDOW_NANOS,
        times.len() < u32::MAX,
    ensures
        run_requests(None, times, limit).1 == if times.len() <= limit {
            times.len() as int
        } else {
            limit as int
        },
{
    let rest = times.drop_first();
    assert forall|i: int| 0 <= i < rest.len() implies elapsed(#[trigger] rest[i], times[0])
        <= RATE_WINDOW_NANOS by {
        assert(rest[i] == times[i + 1]);
    }
    law_rate_limit_within_window(1, times[0], rest, limit);
}

/// Within one window, the answer to each request is whether the count it
/// brings the window to is within the limit: the `j`-th request (from 0) of
/// a run in a window that held `count` requests is allowed exactly when
/// `count + j + 1 <= limit`.
pub proof fn law_rate_limit_each_request(count: u32, start: u64, times: Seq<u64>, limit: u32, j: int)
    requires
        forall|i: int| 0 <= i < times.len() ==> elapsed(#[trigger] times[i], start) <= RATE_WINDOW_NANOS,
        count + times.len() < u32::MAX,
        0 <= j < times.len(),
    ensures
        rate_decision(run_requests(Some((count, start)), times.take(j), limit).0, times[j], limit)
            == (((count + j + 1) as u32, start), count + j + 1 <= limit),
{
    let before = times.take(j);
    assert forall|i: int| 0 <= i < before.len() implies elapsed(#[trigger] before[i], start)
        <= RATE_WINDOW_NANOS by {
        assert(before[i] == times[i]);
    }
    law_rate_limit_within_window(count, start, before, limit);
    assert(elapsed(times[j], start) <= RATE_WINDOW_NANOS);
}

/// A request more than a minute after the user's window started opens a
/// new window at that request: the count starts again at one, and the
/// request is allowed exactly when the limit is at least one.
pub proof fn law_rate_limit_new_window(count: u32, start: u64, now: u64, limit: u32)
    requires
        elapsed(now, start) > RATE_WINDOW_NANOS,
    ensures
        rate_decision(Some((count, start)), now, limit) == ((1u32, now), 1 <= limit),
{
}

/// Counting a request by `user` leaves every other user's record as it was.
pub proof fn law_rate_limit_other_users(
    before: RateLimiter,
    after: RateLimiter,
    user: Seq<char>,
    other: Seq<char>,
    now: u64,
    limit: u32,
)
    requires
        after.state() == before.state().insert(user, rate_decision(before.record(user), now, limit).0),
        other != user,
    ensures
        after.record(other) == before.record(other),
{
}

/// Token issuing and checking, with the rate limiter.
pub struct AuthService {
    config: AuthConfig,
    limiter: RateLimiter,
}

impl AuthService {
    /// The signing secret.
    pub closed spec fn secret(&self) -> Seq<char> {
        self.config.jwt_secret@
    }

    /// The validity period of issued tokens, in hours.
    pub closed spec fn expiry_hours(&self) -> int {
        self.config.jwt_expiry_hours as int
    }

    /// The number of requests per user per minute.
    pub closed spec fn rate_limit(&self) -> u32 {
        self.config.rate_limit_per_minute
    }

    /// Whether authentication is switched on.
    pub closed spec fn is_enabled(&self) -> bool {
        self.config.enabled
    }

    /// The rate limiter's records.
    pub closed spec fn limiter(&self) -> RateLimiter {
        self.limiter
    }

    /// Well-formedness: the limiter keeps one record per user.
    pub open spec fn wf(&self) -> bool {
        self.limiter().wf()
    }

    /// A service using `config`, with no requests counted yet.
    pub fn new(config: AuthConfig) -> (res: Self)
        ensures
            res.wf(),
            res.secret() == config.jwt_secret@,
            res.expiry_hours() == config.jwt_expiry_hours,
            res.rate_limit() == config.rate_limit_per_minute,
            res.is_enabled() == config.enabled,
            res.limiter().state() == Map::<Seq<char>, (u32, u64)>::empty(),
    {
        AuthService { config, limiter: RateLimiter::new() }
    }

    /// Whether authentication is switched on.
    pub fn enabled(&self) -> (res: bool)
        ensures
            res == self.is_enabled(),
    {
        self.config.enabled
    }

    /// The token issued to `username` at `now` (seconds since the Unix
    /// epoch): its claims name the user, were issued at `now` and expire
    /// `expiry_hours()` later. Verifying it with the service's secret gives
    /// back exactly those claims' JSON.
    pub fn issue_token_at(&self, username: &str, now: i64) -> (res: String)
        requires
            expiry_fits(now as int, self.expiry_hours()),
        ensures
            res@ == signed_token(
                self.secret(),
                claims_json(username@, now + self.expiry_hours() * 3600, now as int),
            ),
            verified_payload(self.secret(), res@) == Some(
                encode_utf8(
                    claims_json(username@, now + self.expiry_hours() * 3600, now as int),
                ),
            ),
    {
        let exp = now + self.config.jwt_expiry_hours * 3600;
        let payload = claims_text(username, exp, now);
        sign_token(self.config.jwt_secret.as_str(), payload.as_str())
    }

    /// Whether a token issued at `now` gets an expiry time chrono can compute.
    pub fn expiry_fits_at(&self, now: i64) -> (res: bool)
        ensures
            res == expiry_fits(now as int, self.expiry_hours()),
    {
        let hours = self.config.jwt_expiry_hours;
        if hours < -MAX_EXPIRY_HOURS || hours > MAX_EXPIRY_HOURS {
            return false;
        }
        let exp: i128 = now as i128 + (hours as i128) * 3600;
        MIN_UNIX_SECONDS as i128 <= exp && exp <= MAX_UNIX_SECONDS as i128
    }

    /// Issues a token to `username` at the current time. It fails only when
    /// the expiry time would be out of chrono's range; otherwise the token
    /// is the one `issue_token_at` makes for some current time. The clock
    /// reads a second between the epoch and the last one chrono can hold, so
    /// when every such second gives an expiry in range the token is owed.
    pub fn issue_token(&self, username: &str) -> (res: Result<String, AuthError>)
        ensures
            (forall|now: int|
                0 <= now <= MAX_UNIX_SECONDS ==> #[trigger] expiry_fits(now, self.expiry_hours()))
                ==> res is Ok,
            match res {
                Ok(t) => exists|now: i64|
                    0 <= now <= MAX_UNIX_SECONDS && expiry_fits(now as int, self.expiry_hours())
                        && t@ == signed_token(
                        self.secret(),
                        claims_json(username@, now + self.expiry_hours() * 3600, now as int),
                    ) && #[trigger] verified_payload(self.secret(), t@) == Some(
                        encode_utf8(
                            claims_json(username@, now + self.expiry_hours() * 3600, now as int),
                        ),
                    ),
                Err(e) => e == AuthError::ExpiryOutOfRange && exists|now: i64|
                    0 <= now <= MAX_UNIX_SECONDS && !#[trigger] expiry_fits(
                        now as int,
                        self.expiry_hours(),
                    ),
            },
    {
        let now = now_utc().seconds;
        if !self.expiry_fits_at(now) {
            return Err(AuthError::ExpiryOutOfRange);
        }
        let token = self.issue_token_at(username, now);
        Ok(token)
    }

    /// The signed payload bytes of `token` under the service's secret.
    pub fn verify_payload(&self, token: &str) -> (res: Option<Vec<u8>>)
        ensures
            match res {
                Some(p) => verified_payload(self.secret(), token@) == Some(p@),
                None => verified_payload(self.secret(), token@) is None,
            },
    {
        verify_signature(self.config.jwt_secret.as_str(), token)
    }

    /// The count that a request by `username` at `now` would start from.
    pub fn request_count(&self, username: &str, now: u64) -> (res: u32)
        requires
            self.wf(),
        ensures
            res == window_before(self.limiter().record(username@), now).0,
    {
        self.limiter.count_before(username, now)
    }

    /// Counts a request by `username` at `now` (nanoseconds on a monotonic
    /// clock) and says whether it is within the per-minute limit.
    pub fn check_rate_limit(&mut self, username: &str, now: u64) -> (res: bool)
        requires
            old(self).wf(),
            rate_count_fits(old(self).limiter().record(username@), now),
        ensures
            final(self).wf(),
            final(self).secret() == old(self).secret(),
            final(self).expiry_hours() == old(self).expiry_hours(),
            final(self).rate_limit() == old(self).rate_limit(),
            final(self).is_enabled() == old(self).is_enabled(),
            final(self).limiter().state() == old(self).limiter().state().insert(
                username@,
                rate_decision(old(self).limiter().record(username@), now, old(self).rate_limit()).0,
            ),
            res == rate_decision(
                old(self).limiter().record(username@),
                now,
                old(self).rate_limit(),
            ).1,
    {
        let limit = self.config.rate_limit_per_minute;
        self.limiter.check(username, now, limit)
    }

    /// The decision after a request's token was checked: without valid
    /// claims the request is refused as carrying an invalid token and nothing
    /// is counted; with claims, the request is counted for their user at
    /// `now` and passes as that user when within the limit, else it is
    /// refused as rate limited.
    pub fn authorize(&mut self, claims: Option<Claims>, now: u64) -> (res: Result<String, AuthFailure>)
        requires
            old(self).wf(),
            claims matches Some(c) ==> rate_count_fits(old(self).limiter().record(c.sub@), now),
        ensures
            final(self).wf(),
            final(self).secret() == old(self).secret(),
            final(self).expiry_hours() == old(self).expiry_hours(),
            final(self).rate_limit() == old(self).rate_limit(),
            final(self).is_enabled() == old(self).is_enabled(),
            claims is None ==> res == Err::<String, AuthFailure>(AuthFailure::InvalidToken)
                && final(self).limiter().state() == old(self).limiter().state(),
            claims matches Some(c) ==> {
                let (record, allowed) = rate_decision(
                    old(self).limiter().record(c.sub@),
                    now,
                    old(self).rate_limit(),
                );
                &&& final(self).limiter().state() == old(self).limiter().state().insert(
                    c.sub@,
                    record,
                )
                &&& allowed ==> (res matches Ok(user) && user@ == c.sub@)
                &&& !allowed ==> res == Err::<String, AuthFailure>(AuthFailure::RateLimited)
            },
    {
        match claims {
            None => Err(AuthFailure::InvalidToken),
            Some(c) => {
                if self.check_rate_limit(c.sub.as_str(), now) {
                    Ok(c.sub)
                } else {
                    Err(AuthFailure::RateLimited)
                }
            },
        }
    }
}

/// Why a request was refused.
#[derive(Clone, Copy, Debug, PartialEq, Eq, Structural)]
pub enum AuthFailure {
    MissingHeader,
    InvalidScheme,
    InvalidToken,
    RateLimited,
}

/// The scheme prefix of an authorization header carrying a token.
pub const BEARER_PREFIX: &'static str = "Bearer ";

/// The HTTP status for a refusal: 429 when rate limited, else 401.
pub open spec fn failure_status(f: AuthFailure) -> u16 {
    match f {
        AuthFailure::RateLimited => 429,
        _ => 401,
    }
}

/// The message sent with a refusal.
pub open spec fn failure_message(f: AuthFailure) -> Seq<char> {
    match f {
        AuthFailure::MissingHeader => "Missing Authorization header"@,
        AuthFailure::InvalidScheme => "Invalid auth scheme"@,
        AuthFailure::InvalidToken => "Invalid or expired token"@,
        AuthFailure::RateLimited => "Rate limit exceeded"@,
    }
}

impl AuthFailure {
    /// The HTTP status for this refusal.
    pub fn status(&self) -> (res: u16)
        ensures
            res == failure_status(*self),
    {
        match self {
            AuthFailure::RateLimited => 429,
            _ => 401,
        }
    }

    /// The message sent with this refusal.
    pub fn message(&self) -> (res: String)
        ensures
            res@ == failure_message(*self),
    {
        match self {
            AuthFailure::MissingHeader => string_from("Missing Authorization header"),
            AuthFailure::InvalidScheme => string_from("Invalid auth scheme"),
            AuthFailure::InvalidToken => string_from("Invalid or expired token"),
            AuthFailure::RateLimited => string_from("Rate limit exceeded"),
        }
    }
}

/// The token that an authorization header carries: refused when there is
/// no (readable) header, or when it does not start with `Bearer `; else what
/// follows that prefix.
pub open spec fn bearer_of(header: Option<Seq<char>>) -> Result<Seq<char>, AuthFailure> {
    match header {
        None => Err(AuthFailure::MissingHeader),
        Some(h) => if h.len() >= BEARER_PREFIX@.len() && h.take(BEARER_PREFIX@.len() as int)
            == BEARER_PREFIX@ {
            Ok(h.skip(BEARER_PREFIX@.len() as int))
        } else {
            Err(AuthFailure::InvalidScheme)
        },
    }
}

/// The view of an optional string.
pub open spec fn opt_view(header: Option<&str>) -> Option<Seq<char>> {
    match header {
        Some(h) => Some(h@),
        None => None,
    }
}

/// The token in an authorization header (see `bearer_of`).
pub fn bearer_token(header: Option<&str>) -> (res: Result<String, AuthFailure>)
    ensures
        match bearer_of(opt_view(header)) {
            Ok(t) => res matches Ok(r) && r@ == t,
            Err(f) => res == Err::<String, AuthFailure>(f),
        },
{
    match header {
        None => Err(AuthFailure::MissingHeader),
        Some(h) => {
            let chars = crate::text::chars_of(h);
            let prefix = crate::text::chars_of(BEARER_PREFIX);
            if chars.len() < prefix.len() {
                return Err(AuthFailure::InvalidScheme);
            }
            let mut i: usize = 0;
            while i < prefix.len()
                invariant
                    header == Some(h),
                    chars@ == h@,
                    prefix@ == BEARER_PREFIX@,
                    prefix@.len() <= chars@.len(),
                    i <= prefix@.len(),
                    forall|k: int| 0 <= k < i ==> chars@[k] == prefix@[k],
                decreases prefix@.len() - i,
            {
                if chars[i] != prefix[i] {
                    assert(h@.take(BEARER_PREFIX@.len() as int)[i as int] != BEARER_PREFIX@[i as int]);
                    return Err(AuthFailure::InvalidScheme);
                }
                i = i + 1;
            }
            assert(h@.take(BEARER_PREFIX@.len() as int) =~= BEARER_PREFIX@);
            let mut token = String::new();
            let mut j = prefix.len();
            while j < chars.len()
                invariant
                    chars@ == h@,
                    prefix@.len() <= j <= chars@.len(),
                    token@ == h@.subrange(prefix@.len() as int, j as int),
                    prefix@ == BEARER_PREFIX@,
                decreases chars@.len() - j,
            {
                push_char(&mut token, chars[j]);
                j = j + 1;
                assert(token@ =~= h@.subrange(prefix@.len() as int, j as int));
            }
            assert(token@ =~= h@.skip(BEARER_PREFIX@.len() as int));
            Ok(token)
        },
    }
}


/// What the authorization check does with a request.
#[derive(Debug)]
pub enum Admission {
    /// Let it through: authentication is off.
    Pass,
    /// Refuse it.
    Refuse(AuthFailure),
    /// Check this token, then the sender's rate.
    Verify(String),
}

/// The first step of the authorization check: everything passes when
/// authentication is off; otherwise the request's bearer token is checked,
/// and a missing or malformed header is refused.
pub fn admission(enabled: bool, header: Option<&str>) -> (res: Admission)
    ensures
        !enabled ==> res is Pass,
        enabled ==> match bearer_of(opt_view(header)) {
            Ok(t) => res matches Admission::Verify(r) && r@ == t,
            Err(f) => res == Admission::Refuse(f),
        },
{
    if !enabled {
        return Admission::Pass;
    }
    match bearer_token(header) {
        Ok(token) => Admission::Verify(token),
        Err(f) => Admission::Refuse(f),
    }
}

} // verus!
