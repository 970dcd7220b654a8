//! Replay control: caller identity, rate limiting, idempotency and the
//! decisions of a dead-letter drain.

use vstd::prelude::*;

use crate::digest::{hex_lower, lemma_hex_lower_shape, sha256_hex, sha256_of};
use crate::json::{json_get, JsonValue};
use crate::table::KeyedTable;
use crate::text::{
    decimal_i64, decimal_u64, int_decimal, nat_decimal, lemma_trimmed_idempotent, lemma_trimmed_no_white_space,
    is_white_space, push_char, push_str, str_eq, trim_ws, trimmed, utf8_len,
};

verus! {

/// The value of a decimal integer text: an optional `+` or `-`, then one or
/// more ASCII digits, the value in range of `i64`.
pub open spec fn parsed_i64(s: Seq<char>) -> Option<i64> {
    let neg = s.len() > 0 && s[0] == '-';
    let digits = if s.len() > 0 && (s[0] == '-' || s[0] == '+') {
        s.drop_first()
    } else {
        s
    };
    let magnitude = digits_value(digits);
    let v = if neg {
        -magnitude
    } else {
        magnitude
    };
    if digits.len() > 0 && all_digits(digits) && i64::MIN <= v <= i64::MAX {
        Some(v as i64)
    } else {
        None
    }
}

/// Whether every character is an ASCII digit.
pub open spec fn all_digits(d: Seq<char>) -> bool {
    forall|i: int| 0 <= i < d.len() ==> '0' <= #[trigger] d[i] <= '9'
}

/// The value of a sequence of decimal digits.
pub open spec fn digits_value(d: Seq<char>) -> int
    decreases d.len(),
{
    if d.len() == 0 {
        0
    } else {
        digits_value(d.drop_last()) * 10 + (d.last() as int - 48)
    }
}

/// Relies on `i64::from_str` (through `str::parse`): an optional sign and
/// decimal digits whose value fits; anything else is an error.
#[verifier::external_body]
pub(crate) fn parse_i64(s: &str) -> (r: Option<i64>)
    ensures
        r == parsed_i64(s@),
{
    s.parse::<i64>().ok()
}

/// An idempotency key as stored: trimmed, and replaced by its SHA-256 digest
/// when longer than 128 bytes.
pub open spec fn replay_key(value: Seq<char>) -> Seq<char> {
    let t = trimmed(value);
    if utf8_len(t) <= 128 {
        t
    } else {
        hex_lower(sha256_of(vstd::utf8::encode_utf8(t))@)
    }
}

/// Normalizes an idempotency key (see `replay_key`).
pub fn normalize_replay_key(value: &str) -> (r: String)
    ensures
        r@ == replay_key(value@),
{
    let trimmed = trim_ws(value);
    let bytes = trimmed.as_bytes();
    if bytes.len() <= 128 {
        return String::from_str(trimmed);
    }
    sha256_hex(bytes)
}

/// Normalizing an idempotency key twice gives the same key as once.
pub proof fn replay_key_is_idempotent(value: Seq<char>)
    ensures
        replay_key(replay_key(value)) == replay_key(value),
{
    let t = trimmed(value);
    if utf8_len(t) <= 128 {
        lemma_trimmed_idempotent(value);
    } else {
        let d = sha256_of(vstd::utf8::encode_utf8(t))@;
        let h = hex_lower(d);
        lemma_hex_lower_shape(d);
        assert forall|i: int| 0 <= i < h.len() implies !is_white_space(#[trigger] h[i]) by {
            assert('0' <= h[i] <= '9' || 'a' <= h[i] <= 'f');
        }
        lemma_trimmed_no_white_space(h);
        assert(vstd::utf8::is_ascii_chars(h));
        vstd::utf8::is_ascii_chars_encode_utf8(h);
    }
}

/// The `limit` of a replay request body: an integer, or a text holding one.
pub open spec fn limit_of(payload: JsonValue) -> Option<i64> {
    match json_get(payload, "limit"@) {
        Some(JsonValue::Int(n)) => Some(n),
        Some(JsonValue::Str(s)) => parsed_i64(s@),
        _ => None,
    }
}

/// Reads the `limit` of a replay request body.
pub fn payload_limit(payload: &JsonValue) -> (r: Option<i64>)
    ensures
        r == limit_of(*payload),
{
    match payload.get("limit") {
        Some(JsonValue::Int(n)) => Some(*n),
        Some(JsonValue::Str(s)) => parse_i64(s.as_str()),
        _ => None,
    }
}

/// The identity a replay caller is rate limited under: the api key, the ip,
/// or `api_key:ip`; without an api key the ip stands in. Any other mode
/// takes the api key when there is one, else the ip.
pub open spec fn identity_of(mode: Seq<char>, api_key: Seq<char>, caller_ip: Seq<char>) -> Seq<char> {
    if mode == "api_key"@ {
        api_key
    } else if mode == "ip"@ {
        caller_ip
    } else if mode == "api_key_and_ip"@ {
        if api_key.len() == 0 {
            caller_ip
        } else {
            api_key + seq![':'] + caller_ip
        }
    } else if api_key.len() == 0 {
        caller_ip
    } else {
        api_key
    }
}

/// The identity a replay caller is rate limited under (see `identity_of`).
pub fn rate_limit_identity(key_mode: &str, api_key: &str, caller_ip: &str) -> (r: String)
    ensures
        r@ == identity_of(key_mode@, api_key@, caller_ip@),
{
    if str_eq(key_mode, "api_key") {
        String::from_str(api_key)
    } else if str_eq(key_mode, "ip") {
        String::from_str(caller_ip)
    } else if str_eq(key_mode, "api_key_and_ip") {
        if api_key.is_empty() {
            String::from_str(caller_ip)
        } else {
            let mut r = String::from_str(api_key);
            push_char(&mut r, ':');
            push_str(&mut r, caller_ip);
            r
        }
    } else if api_key.is_empty() {
        String::from_str(caller_ip)
    } else {
        String::from_str(api_key)
    }
}

/// The window length actually used: at least one second.
pub open spec fn window_len(window_seconds: i64) -> int {
    if window_seconds > 1 {
        window_seconds as int
    } else {
        1
    }
}

/// The shared-store counter of a caller for the window holding `now`
/// (seconds since the epoch): `{prefix}{identity}:{floor(now / window)}`.
pub open spec fn window_key(prefix: Seq<char>, identity: Seq<char>, now: u64, window_seconds: i64) -> Seq<char> {
    prefix + identity + seq![':'] + nat_decimal((now as int / window_len(window_seconds)) as nat)
}

/// The shared-store counter of a caller for the current window.
pub fn rate_limit_key(prefix: &str, identity: &str, now: u64, window_seconds: i64) -> (r: String)
    ensures
        r@ == window_key(prefix@, identity@, now, window_seconds),
{
    let w: u64 = if window_seconds > 1 {
        window_seconds as u64
    } else {
        1
    };
    let mut r = String::from_str(prefix);
    push_str(&mut r, identity);
    push_char(&mut r, ':');
    let digits = decimal_u64(now / w);
    push_str(&mut r, digits.as_str());
    r
}

/// The timestamps of `ts` at or after `cutoff`, in order.
pub open spec fn recent(ts: Seq<i64>, cutoff: int) -> Seq<i64>
    decreases ts.len(),
{
    if ts.len() == 0 {
        ts
    } else if ts.last() >= cutoff {
        recent(ts.drop_last(), cutoff).push(ts.last())
    } else {
        recent(ts.drop_last(), cutoff)
    }
}

/// The events of a bucket, empty when there is none.
pub open spec fn bucket_events(b: Option<Vec<i64>>) -> Seq<i64> {
    match b {
        Some(v) => v@,
        None => Seq::empty(),
    }
}

/// Per-identity event times (milliseconds) within a sliding window.
pub struct InMemoryRateLimiter {
    buckets: KeyedTable<Vec<i64>>,
}

impl InMemoryRateLimiter {
    /// The recorded events of `key`.
    pub closed spec fn events(&self, key: Seq<char>) -> Seq<i64> {
        bucket_events(self.buckets.lookup(key))
    }

    pub closed spec fn wf(&self) -> bool {
        self.buckets.wf()
    }

    pub fn new() -> (r: InMemoryRateLimiter)
        ensures
            r.wf(),
            forall|k: Seq<char>| #[trigger] r.events(k) == Seq::<i64>::empty(),
    {
        InMemoryRateLimiter { buckets: KeyedTable::new() }
    }

    /// Admits an event of `key` at `now_ms` when fewer than `limit` of its
    /// events fall within the last `window_seconds` (at least one second);
    /// older events are forgotten. A `limit` of zero or less admits everything.
    pub fn allow(&mut self, key: &str, limit: i64, window_seconds: i64, now_ms: i64) -> (r: bool)
        requires
            old(self).wf(),
        ensures
            final(self).wf(),
            limit <= 0 ==> r && *final(self) == *old(self),
            limit > 0 ==> {
                let kept = recent(
                    old(self).events(key@),
                    now_ms as int - window_len(window_seconds) * 1000,
                );
                &&& r == (kept.len() < limit)
                &&& final(self).events(key@) == if r {
                    kept.push(now_ms)
                } else {
                    kept
                }
                &&& forall|k: Seq<char>| k != key@ ==> #[trigger] final(self).events(k) == old(
                    self,
                ).events(k)
            },
    {
        if limit <= 0 {
            return true;
        }
        let w: i128 = if window_seconds > 1 {
            window_seconds as i128
        } else {
            1
        };
        let cutoff: i128 = now_ms as i128 - w * 1000;
        let ghost c = now_ms as int - window_len(window_seconds) * 1000;
        assert(cutoff == c);
        let mut kept: Vec<i64> = Vec::new();
        match self.buckets.get(key) {
            Some(bucket) => {
                let mut i: usize = 0;
                while i < bucket.len()
                    invariant
                        i <= bucket@.len(),
                        cutoff == c,
                        kept@ == recent(bucket@.subrange(0, i as int), c),
                    decreases bucket.len() - i,
                {
                    let ts = bucket[i];
                    if ts as i128 >= cutoff {
                        kept.push(ts);
                    }
                    assert(bucket@.subrange(0, i + 1).drop_last() =~= bucket@.subrange(0, i as int));
                    i = i + 1;
                }
                assert(bucket@.subrange(0, bucket@.len() as int) =~= bucket@);
            },
            None => {
                assert(kept@ =~= recent(Seq::<i64>::empty(), c));
            },
        }
        let allowed = (kept.len() as i128) < (limit as i128);
        if allowed {
            kept.push(now_ms);
        }
        self.buckets.insert(key, kept);
        allowed
    }
}

/// A stored replay result with its expiry time (milliseconds), if any.
pub open spec fn expiry_of(now_ms: i64, ttl_seconds: i64) -> Option<i64> {
    if ttl_seconds > 0 {
        let e = now_ms as int + ttl_seconds as int * 1000;
        Some(
            if e > i64::MAX {
                i64::MAX
            } else {
                e as i64
            },
        )
    } else {
        None
    }
}

/// The result an entry yields at `now_ms`: absent once expired.
pub open spec fn live_result(entry: Option<(i64, Option<i64>)>, now_ms: i64) -> Option<i64> {
    match entry {
        Some((v, Some(e))) => if now_ms > e {
            None
        } else {
            Some(v)
        },
        Some((v, None)) => Some(v),
        None => None,
    }
}

/// Replay results by idempotency key, each with an optional expiry.
pub struct InMemoryIdempotencyStore {
    items: KeyedTable<(i64, Option<i64>)>,
}

impl InMemoryIdempotencyStore {
    /// The stored entry of `key`.
    pub closed spec fn entry(&self, key: Seq<char>) -> Option<(i64, Option<i64>)> {
        self.items.lookup(key)
    }

    pub closed spec fn wf(&self) -> bool {
        self.items.wf()
    }

    pub fn new() -> (r: InMemoryIdempotencyStore)
        ensures
            r.wf(),
            forall|k: Seq<char>| #[trigger] r.entry(k) is None,
    {
        InMemoryIdempotencyStore { items: KeyedTable::new() }
    }

    /// The result stored under `key`, unless it has expired; an expired
    /// entry is dropped.
    pub fn get(&mut self, key: &str, now_ms: i64) -> (r: Option<i64>)
        requires
            old(self).wf(),
        ensures
            final(self).wf(),
            r == live_result(old(self).entry(key@), now_ms),
            final(self).entry(key@) == if r is Some {
                old(self).entry(key@)
            } else {
                None
            },
            forall|k: Seq<char>| k != key@ ==> #[trigger] final(self).entry(k) == old(self).entry(k),
    {
        let found = match self.items.get(key) {
            Some(e) => Some(*e),
            None => None,
        };
        match found {
            Some((value, Some(expires_at))) => {
                if now_ms > expires_at {
                    let _ = self.items.remove(key);
                    None
                } else {
                    Some(value)
                }
            },
            Some((value, None)) => Some(value),
            None => None,
        }
    }

    /// Stores `value` under `key`; it expires `ttl_seconds` after `now_ms`,
    /// never when `ttl_seconds` is zero or less.
    pub fn set(&mut self, key: &str, value: i64, ttl_seconds: i64, now_ms: i64)
        requires
            old(self).wf(),
        ensures
            final(self).wf(),
            final(self).entry(key@) == Some((value, expiry_of(now_ms, ttl_seconds))),
            forall|k: Seq<char>| k != key@ ==> #[trigger] final(self).entry(k) == old(self).entry(k),
    {
        let expires_at = if ttl_seconds > 0 {
            let e: i128 = now_ms as i128 + ttl_seconds as i128 * 1000;
            Some(
                if e > i64::MAX as i128 {
                    i64::MAX
                } else {
                    e as i64
                },
            )
        } else {
            None
        };
        self.items.insert(key, (value, expires_at));
    }
}

/// A result stored with a time to live is returned until that many seconds
/// have passed and is absent afterwards; stored without one, it stays.
pub proof fn stored_result_lasts_its_ttl(value: i64, ttl_seconds: i64, set_at_ms: i64, now_ms: i64)
    ensures
        live_result(Some((value, expiry_of(set_at_ms, ttl_seconds))), now_ms) == if ttl_seconds
            <= 0 || now_ms as int <= set_at_ms as int + ttl_seconds as int * 1000 {
            Some(value)
        } else {
            None
        },
{
}

/// What a replay request leads to once it is admitted or not.
#[derive(PartialEq, Eq, Structural, Clone, Copy, Debug)]
pub enum ReplayDecision {
    /// Denied by the rate limit.
    RateLimited,
    /// A prior result under the same idempotency key is returned as it is.
    Reuse(i64),
    /// The dead-letter queue is drained.
    Drain,
}

/// Rate limit first, then idempotency: a denied request is rate limited, an
/// admitted one with a prior result reuses it, any other one drains.
pub fn replay_admission(allowed: bool, prior: Option<i64>) -> (r: ReplayDecision)
    ensures
        !allowed ==> r == ReplayDecision::RateLimited,
        allowed ==> r == match prior {
            Some(v) => ReplayDecision::Reuse(v),
            None => ReplayDecision::Drain,
        },
{
    if !allowed {
        return ReplayDecision::RateLimited;
    }
    match prior {
        Some(v) => ReplayDecision::Reuse(v),
        None => ReplayDecision::Drain,
    }
}

/// What the shared-store counter of a window says.
#[derive(Clone, Copy, Debug)]
pub struct WindowCount {
    /// The request is admitted.
    pub admitted: bool,
    /// The counter was just created and must get its expiry.
    pub set_expiry: bool,
}

/// Reads the value of a shared-store window counter after its increment.
pub fn shared_window_count(count: i64, per_minute: i64) -> (r: WindowCount)
    ensures
        r.admitted == (count <= per_minute),
        r.set_expiry == (count == 1),
{
    WindowCount { admitted: count <= per_minute, set_expiry: count == 1 }
}

/// The shared-store key of an idempotency key: `{prefix}{key}`.
pub fn idempotency_key(prefix: &str, key: &str) -> (r: String)
    ensures
        r@ == prefix@ + key@,
{
    let mut r = String::from_str(prefix);
    push_str(&mut r, key);
    r
}

/// The command storing a replay result: `SETEX key ttl value` with a
/// positive time to live, else `SET key value`.
pub open spec fn store_command(key: Seq<char>, value: i64, ttl_seconds: i64) -> Seq<Seq<char>> {
    if ttl_seconds > 0 {
        seq!["SETEX"@, key, int_decimal(ttl_seconds as int), int_decimal(value as int)]
    } else {
        seq!["SET"@, key, int_decimal(value as int)]
    }
}

/// The command storing a replay result in the shared store.
pub fn idempotency_store_command(key: &str, value: i64, ttl_seconds: i64) -> (r: Vec<String>)
    ensures
        r.deep_view() == store_command(key@, value, ttl_seconds),
{
    let mut r: Vec<String> = Vec::new();
    if ttl_seconds > 0 {
        r.push(String::from_str("SETEX"));
        r.push(String::from_str(key));
        r.push(decimal_i64(ttl_seconds));
        r.push(decimal_i64(value));
    } else {
        r.push(String::from_str("SET"));
        r.push(String::from_str(key));
        r.push(decimal_i64(value));
    }
    assert(r.deep_view() =~= store_command(key@, value, ttl_seconds));
    r
}

proof fn lemma_decimal_digits(n: nat)
    ensures
        nat_decimal(n).len() > 0,
        all_digits(nat_decimal(n)),
        digits_value(nat_decimal(n)) == n,
    decreases n,
{
    if n >= 10 {
        lemma_decimal_digits(n / 10);
        let d = nat_decimal(n / 10);
        let s = d.push(crate::text::digit_char((n % 10) as int));
        assert(s.drop_last() =~= d);
        assert(nat_decimal(n) == s);
        let r = (n % 10) as int;
        assert(crate::text::digit_char(r) as int == 48 + r);
        assert(s.last() as int - 48 == r);
        assert((n / 10) as int * 10 + r == n) by (nonlinear_arith)
            requires
                r == n % 10,
        ;
        assert(digits_value(s) == digits_value(d) * 10 + (s.last() as int - 48));
        assert(digits_value(d) == n / 10);
    } else {
        assert(crate::text::digit_char(n as int) as int == 48 + n);
        assert(nat_decimal(n) =~= seq![crate::text::digit_char(n as int)]);
        assert(nat_decimal(n).drop_last() =~= Seq::<char>::empty());
        assert(digits_value(nat_decimal(n).drop_last()) == 0);
        assert(digits_value(nat_decimal(n)) == digits_value(nat_decimal(n).drop_last()) * 10 + (
        nat_decimal(n).last() as int - 48));
    }
}

/// A replay result written with `store_command` reads back, through
/// `stored_result`, as the same integer.
pub proof fn stored_result_round_trip(key: Seq<char>, value: i64, ttl_seconds: i64)
    ensures
        parsed_i64(store_command(key, value, ttl_seconds).last()) == Some(value),
{
    let text = int_decimal(value as int);
    assert(store_command(key, value, ttl_seconds).last() == text);
    if value < 0 {
        let m = (-(value as int)) as nat;
        lemma_decimal_digits(m);
        assert(text == seq!['-'] + nat_decimal(m));
        assert(text.drop_first() =~= nat_decimal(m));
    } else {
        lemma_decimal_digits(value as nat);
        let d = nat_decimal(value as nat);
        assert('0' <= d[0] <= '9');
    }
}

/// Reads a stored replay result: the integer its text holds, if any.
pub fn stored_result(text: Option<String>) -> (r: Option<i64>)
    ensures
        r == match text {
            Some(t) => parsed_i64(t@),
            None => None,
        },
{
    match text {
        Some(t) => parse_i64(t.as_str()),
        None => None,
    }
}

/// Whether a backend choice selects the shared store: strategy `redis`
/// with a non-empty address.
pub fn uses_shared_store(strategy: &str, dsn: &str) -> (r: bool)
    ensures
        r == (strategy@ == "redis"@ && dsn@.len() > 0),
{
    str_eq(strategy, "redis") && !dsn.is_empty()
}

/// The in-memory stores of the replay operation, and which backend each
/// of its two checks uses.
pub struct ReplayState {
    pub rate_limiter: InMemoryRateLimiter,
    pub idempotency: InMemoryIdempotencyStore,
    pub shared_rate_limit: bool,
    pub shared_idempotency: bool,
}

impl ReplayState {
    pub fn new(
        rate_limit_strategy: &str,
        rate_limit_dsn: &str,
        idempotency_strategy: &str,
        idempotency_dsn: &str,
    ) -> (r: ReplayState)
        ensures
            r.rate_limiter.wf(),
            r.idempotency.wf(),
            r.shared_rate_limit == (rate_limit_strategy@ == "redis"@ && rate_limit_dsn@.len() > 0),
            r.shared_idempotency == (idempotency_strategy@ == "redis"@ && idempotency_dsn@.len()
                > 0),
    {
        ReplayState {
            rate_limiter: InMemoryRateLimiter::new(),
            idempotency: InMemoryIdempotencyStore::new(),
            shared_rate_limit: uses_shared_store(rate_limit_strategy, rate_limit_dsn),
            shared_idempotency: uses_shared_store(idempotency_strategy, idempotency_dsn),
        }
    }
}

/// What happened at the broker since the last step of a drain.
pub enum DrainEvent {
    /// The drain begins.
    Start,
    /// A fetch from the dead-letter queue returned a delivery (`true`) or found it empty.
    Fetched(bool),
    /// Publishing the delivery to the target succeeded or failed.
    Published(bool),
    /// The delivery was acknowledged.
    Acked,
    /// The delivery was handed back to the queue.
    Nacked,
}

/// What the broker client does next.
#[derive(PartialEq, Eq, Structural, Clone, Copy, Debug)]
pub enum DrainAction {
    /// Fetch one delivery from the dead-letter queue.
    Fetch,
    /// Publish the delivery, with header `replayed = true`, to the target.
    Publish,
    /// Acknowledge the delivery.
    Ack,
    /// Hand the delivery back to the queue.
    Nack,
    /// Stop; `replayed` is the result.
    Finish,
}

/// Progress of a drain: deliveries replayed so far, and the limit.
#[derive(Clone, Copy, Debug)]
pub struct DrainState {
    pub replayed: i64,
    pub limit: i64,
}

/// The action after the count has reached `replayed`.
pub open spec fn fetch_or_finish(replayed: i64, limit: i64) -> DrainAction {
    if replayed < limit {
        DrainAction::Fetch
    } else {
        DrainAction::Finish
    }
}

impl DrainState {
    pub fn new(limit: i64) -> (r: DrainState)
        ensures
            r.replayed == 0,
            r.limit == limit,
    {
        DrainState { replayed: 0, limit }
    }

    /// The next action of the drain. Fetching goes on while fewer than
    /// `limit` deliveries were replayed; an empty queue ends it; a published
    /// delivery is acknowledged and counted; a failed publish hands the
    /// delivery back and ends the drain.
    pub fn step(&mut self, event: DrainEvent) -> (r: DrainAction)
        ensures
            final(self).limit == old(self).limit,
            match event {
                DrainEvent::Start => final(self).replayed == old(self).replayed && r
                    == fetch_or_finish(old(self).replayed, old(self).limit),
                DrainEvent::Fetched(got) => final(self).replayed == old(self).replayed && r == if got {
                    DrainAction::Publish
                } else {
                    DrainAction::Finish
                },
                DrainEvent::Published(ok) => final(self).replayed == old(self).replayed && r == if ok {
                    DrainAction::Ack
                } else {
                    DrainAction::Nack
                },
                DrainEvent::Acked => if old(self).replayed < old(self).limit {
                    final(self).replayed == old(self).replayed + 1 && r == fetch_or_finish(
                        final(self).replayed,
                        old(self).limit,
                    )
                } else {
                    final(self).replayed == old(self).replayed && r == DrainAction::Finish
                },
                DrainEvent::Nacked => final(self).replayed == old(self).replayed && r
                    == DrainAction::Finish,
            },
    {
        match event {
            DrainEvent::Start => self.next_fetch(),
            DrainEvent::Fetched(got) => if got {
                DrainAction::Publish
            } else {
                DrainAction::Finish
            },
            DrainEvent::Published(ok) => if ok {
                DrainAction::Ack
            } else {
                DrainAction::Nack
            },
            DrainEvent::Acked => {
                if self.replayed < self.limit {
                    self.replayed = self.replayed + 1;
                    self.next_fetch()
                } else {
                    DrainAction::Finish
                }
            },
            DrainEvent::Nacked => DrainAction::Finish,
        }
    }

    fn next_fetch(&self) -> (r: DrainAction)
        ensures
            r == fetch_or_finish(self.replayed, self.limit),
    {
        if self.replayed < self.limit {
            DrainAction::Fetch
        } else {
            DrainAction::Finish
        }
    }
}

/// A structured record of a replay request.
#[derive(Debug)]
pub struct AuditRecord {
    pub event: String,
    pub request_id: String,
    pub caller_ip: String,
    /// Empty when the caller gave none.
    pub api_key: String,
    pub extra: Option<String>,
}

/// The audit record of a replay request, when auditing is enabled.
pub fn audit_log(
    enabled: bool,
    event: &str,
    request_id: &str,
    caller_ip: &str,
    api_key: Option<&str>,
    extra: Option<&str>,
) -> (r: Option<AuditRecord>)
    ensures
        match r {
            Some(rec) => {
                &&& enabled
                &&& rec.event@ == event@
                &&& rec.request_id@ == request_id@
                &&& rec.caller_ip@ == caller_ip@
                &&& rec.api_key@ == match api_key {
                    Some(k) => k@,
                    None => Seq::<char>::empty(),
                }
                &&& match extra {
                    Some(x) => rec.extra is Some && rec.extra.unwrap()@ == x@,
                    None => rec.extra is None,
                }
            },
            None => !enabled,
        },
{
    if !enabled {
        return None;
    }
    let api_key = match api_key {
        Some(k) => String::from_str(k),
        None => String::new(),
    };
    let extra = match extra {
        Some(x) => Some(String::from_str(x)),
        None => None,
    };
    Some(
        AuditRecord {
            event: String::from_str(event),
            request_id: String::from_str(request_id),
            caller_ip: String::from_str(caller_ip),
            api_key,
            extra,
        },
    )
}

} // verus!
