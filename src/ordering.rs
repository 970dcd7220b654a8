//! Ordering keys and partitioned stream / routing keys.

use vstd::prelude::*;
use vstd::string::StringSliceAdditionalSpecFns;
use vstd::utf8::is_ascii_chars;

use crate::connections::ConnectionInfo;
use crate::digest::{hex_lower, lemma_hex_lower_shape, sha1_hex, sha1_of};
use crate::json::{json_get, first_element, scalar_text, value_to_string, JsonValue};
use crate::text::{
    is_white_space, lemma_trimmed_no_white_space, lemma_utf8_len_at_least_chars, no_white_space,
    push_char, push_str, str_eq, trim_ws, trimmed, utf8_len,
};

verus! {

/// Where the ordering key comes from.
#[derive(PartialEq, Eq, Structural, Clone, Copy, Debug)]
pub enum OrderingStrategy {
    /// A topic field of the payload.
    Topic,
    /// The payload's subject, else the connection's first subject or user.
    Subject,
    /// No ordering key.
    Unset,
}

/// The fallback of the `Subject` strategy.
#[derive(PartialEq, Eq, Structural, Clone, Copy, Debug)]
pub enum SubjectSource {
    /// The connection's first subject, else its user.
    Subject,
    /// The connection's user.
    User,
}

/// Whether ordering keys are appended to stream and routing key.
#[derive(PartialEq, Eq, Structural, Clone, Copy, Debug)]
pub enum PartitionMode {
    Suffix,
    Unset,
}

/// Settings of the ordering engine.
#[derive(Debug)]
pub struct OrderingConfig {
    pub strategy: OrderingStrategy,
    pub topic_field: String,
    pub subject_source: SubjectSource,
    pub partition_mode: PartitionMode,
    /// Keys longer than this many bytes are replaced by their digest; 0 keeps every length.
    pub partition_max_len: usize,
}

impl OrderingConfig {
    /// Reads the textual settings: `topic` and `subject` select a strategy,
    /// anything else none; `subject` selects the subject source, anything
    /// else the user; `suffix` selects partitioning, anything else none.
    pub fn from_settings(
        strategy: &str,
        topic_field: &str,
        subject_source: &str,
        partition_mode: &str,
        partition_max_len: usize,
    ) -> (r: OrderingConfig)
        ensures
            r.strategy == (if strategy@ == "topic"@ {
                OrderingStrategy::Topic
            } else if strategy@ == "subject"@ {
                OrderingStrategy::Subject
            } else {
                OrderingStrategy::Unset
            }),
            r.topic_field@ == topic_field@,
            r.subject_source == (if subject_source@ == "subject"@ {
                SubjectSource::Subject
            } else {
                SubjectSource::User
            }),
            r.partition_mode == (if partition_mode@ == "suffix"@ {
                PartitionMode::Suffix
            } else {
                PartitionMode::Unset
            }),
            r.partition_max_len == partition_max_len,
    {
        let strategy = if str_eq(strategy, "topic") {
            OrderingStrategy::Topic
        } else if str_eq(strategy, "subject") {
            OrderingStrategy::Subject
        } else {
            OrderingStrategy::Unset
        };
        let subject_source = if str_eq(subject_source, "subject") {
            SubjectSource::Subject
        } else {
            SubjectSource::User
        };
        let partition_mode = if str_eq(partition_mode, "suffix") {
            PartitionMode::Suffix
        } else {
            PartitionMode::Unset
        };
        OrderingConfig {
            strategy,
            topic_field: String::from_str(topic_field),
            subject_source,
            partition_mode,
            partition_max_len,
        }
    }
}

/// Characters that may stand in a partition suffix: `[A-Za-z0-9._:-]`.
pub open spec fn is_safe_key_char(c: char) -> bool {
    ('A' <= c <= 'Z') || ('a' <= c <= 'z') || ('0' <= c <= '9') || c == '.' || c == '_' || c
        == ':' || c == '-'
}

/// Every character outside `[A-Za-z0-9._:-]` replaced by `_`.
pub open spec fn sanitized(s: Seq<char>) -> Seq<char> {
    s.map_values(|c: char| if is_safe_key_char(c) { c } else { '_' })
}

/// The safe key of an ordering key: trimmed, replaced by its SHA-1 digest
/// when longer than `max_len` bytes (`max_len > 0`), then sanitized; the
/// digest of the raw key if that leaves nothing (a blank key).
pub open spec fn safe_key(raw: Seq<char>, max_len: nat) -> Seq<char> {
    let t = trimmed(raw);
    let k = if max_len > 0 && utf8_len(t) > max_len {
        hex_lower(sha1_of(encode_bytes(t))@)
    } else {
        t
    };
    let s = sanitized(k);
    if s.len() == 0 {
        hex_lower(sha1_of(encode_bytes(raw))@)
    } else {
        s
    }
}

/// The UTF-8 bytes of a character sequence.
pub open spec fn encode_bytes(s: Seq<char>) -> Seq<u8> {
    vstd::utf8::encode_utf8(s)
}

/// The scalar text of an optional value; empty when absent.
pub open spec fn text_or_empty(v: Option<JsonValue>) -> Seq<char> {
    match v {
        Some(x) => scalar_text(x),
        None => Seq::empty(),
    }
}

/// The ordering key of the `Topic` strategy.
pub open spec fn topic_key(field: Seq<char>, data: JsonValue) -> Seq<char> {
    match json_get(data, field) {
        Some(v) => scalar_text(v),
        None => {
            let in_meta = match json_get(data, "meta"@) {
                Some(meta) => json_get(meta, field),
                None => None,
            };
            match in_meta {
                Some(v) => scalar_text(v),
                None => text_or_empty(json_get(data, "type"@)),
            }
        },
    }
}

/// The ordering key of the `Subject` strategy.
pub open spec fn subject_key(source: SubjectSource, conn: ConnectionInfo, data: JsonValue) -> Seq<
    char,
> {
    let direct = text_or_empty(json_get(data, "subject"@));
    let listed = match json_get(data, "subjects"@) {
        Some(list) => text_or_empty(first_element(list)),
        None => Seq::empty(),
    };
    if direct.len() > 0 {
        direct
    } else if listed.len() > 0 {
        listed
    } else if source == SubjectSource::Subject && conn.subjects@.len() > 0 {
        conn.subjects@[0]@
    } else {
        conn.user_id@
    }
}

/// The ordering key of a payload sent on a connection.
pub open spec fn ordering_key(config: OrderingConfig, conn: ConnectionInfo, data: JsonValue) -> Seq<
    char,
> {
    match config.strategy {
        OrderingStrategy::Topic => topic_key(config.topic_field@, data),
        OrderingStrategy::Subject => subject_key(config.subject_source, conn, data),
        OrderingStrategy::Unset => Seq::empty(),
    }
}

/// Stream and routing key with the safe key of `key` appended after a dot;
/// an empty stream stays empty. Unchanged when partitioning is off or the
/// key or its safe form is empty.
pub open spec fn partitioned(
    config: OrderingConfig,
    stream: Seq<char>,
    routing_key: Seq<char>,
    key: Seq<char>,
) -> (Seq<char>, Seq<char>) {
    if config.partition_mode != PartitionMode::Suffix || key.len() == 0 {
        (stream, routing_key)
    } else {
        let safe = safe_key(key, config.partition_max_len as nat);
        if safe.len() == 0 {
            (stream, routing_key)
        } else {
            (
                if stream.len() == 0 {
                    Seq::empty()
                } else {
                    stream + seq!['.'] + safe
                },
                routing_key + seq!['.'] + safe,
            )
        }
    }
}

/// Replaces every character outside `[A-Za-z0-9._:-]` by `_`.
pub fn sanitize_key(s: &str) -> (r: String)
    ensures
        r@ == sanitized(s@),
{
    let n = s.unicode_len();
    let mut r = String::new();
    let mut i: usize = 0;
    while i < n
        invariant
            n == s@.len(),
            i <= n,
            r@ == sanitized(s@.subrange(0, i as int)),
        decreases n - i,
    {
        let c = s.get_char(i);
        let safe = (c >= 'A' && c <= 'Z') || (c >= 'a' && c <= 'z') || (c >= '0' && c <= '9') || c
            == '.' || c == '_' || c == ':' || c == '-';
        if safe {
            push_char(&mut r, c);
        } else {
            push_char(&mut r, '_');
        }
        assert(sanitized(s@.subrange(0, i + 1)) =~= sanitized(s@.subrange(0, i as int)).push(
            if is_safe_key_char(c) {
                c
            } else {
                '_'
            },
        ));
        i = i + 1;
    }
    assert(s@.subrange(0, n as int) =~= s@);
    r
}

/// Derives ordering keys and partition suffixes.
pub struct OrderingService {}

impl OrderingService {
    pub fn new() -> OrderingService {
        OrderingService {  }
    }

    /// The safe key of `raw` (see `safe_key`).
    pub fn normalize_key(&self, raw: &str, max_len: usize) -> (r: String)
        ensures
            r@ == safe_key(raw@, max_len as nat),
    {
        let t = trim_ws(raw);
        let bytes = t.as_bytes();
        let key = if max_len > 0 && bytes.len() > max_len {
            sha1_hex(bytes)
        } else {
            String::from_str(t)
        };
        let s = sanitize_key(key.as_str());
        if s.unicode_len() == 0 {
            sha1_hex(raw.as_bytes())
        } else {
            s
        }
    }

    /// The ordering key of `data` sent on `conn`.
    pub fn derive_ordering_key(
        &self,
        config: &OrderingConfig,
        conn: &ConnectionInfo,
        data: &JsonValue,
    ) -> (r: String)
        ensures
            r@ == ordering_key(*config, *conn, *data),
    {
        match config.strategy {
            OrderingStrategy::Topic => {
                if let Some(value) = data.get(config.topic_field.as_str()) {
                    return value_to_string(value);
                }
                if let Some(meta) = data.get("meta") {
                    if let Some(value) = meta.get(config.topic_field.as_str()) {
                        return value_to_string(value);
                    }
                }
                if let Some(value) = data.get("type") {
                    return value_to_string(value);
                }
                String::new()
            },
            OrderingStrategy::Subject => {
                if let Some(value) = data.get("subject") {
                    let val = value_to_string(value);
                    if val.unicode_len() > 0 {
                        return val;
                    }
                }
                if let Some(value) = data.get("subjects") {
                    if let Some(first) = value.first() {
                        let val = value_to_string(first);
                        if val.unicode_len() > 0 {
                            return val;
                        }
                    }
                }
                if config.subject_source == SubjectSource::Subject && conn.subjects.len() > 0 {
                    return conn.subjects[0].clone();
                }
                conn.user_id.clone()
            },
            OrderingStrategy::Unset => String::new(),
        }
    }

    /// Stream and routing key, partitioned by the safe key of `ordering_key`.
    pub fn apply_partition(
        &self,
        config: &OrderingConfig,
        stream: &str,
        routing_key: &str,
        ordering_key: &str,
    ) -> (r: (String, String))
        ensures
            (r.0@, r.1@) == partitioned(*config, stream@, routing_key@, ordering_key@),
    {
        if config.partition_mode != PartitionMode::Suffix || ordering_key.is_empty() {
            return (String::from_str(stream), String::from_str(routing_key));
        }
        let safe = self.normalize_key(ordering_key, config.partition_max_len);
        if safe.unicode_len() == 0 {
            return (String::from_str(stream), String::from_str(routing_key));
        }
        let new_stream = if stream.is_empty() {
            String::new()
        } else {
            let mut s = String::from_str(stream);
            push_char(&mut s, '.');
            push_str(&mut s, safe.as_str());
            s
        };
        let mut new_routing = String::from_str(routing_key);
        push_char(&mut new_routing, '.');
        push_str(&mut new_routing, safe.as_str());
        (new_stream, new_routing)
    }
}

proof fn lemma_sanitized_safe(k: Seq<char>)
    ensures
        sanitized(k).len() == k.len(),
        forall|i: int| 0 <= i < k.len() ==> is_safe_key_char(#[trigger] sanitized(k)[i]),
{
}

proof fn lemma_safe_text_facts(s: Seq<char>)
    requires
        forall|i: int| 0 <= i < s.len() ==> is_safe_key_char(#[trigger] s[i]),
    ensures
        no_white_space(s),
        trimmed(s) == s,
        sanitized(s) == s,
        utf8_len(s) == s.len(),
{
    assert forall|i: int| 0 <= i < s.len() implies !is_white_space(#[trigger] s[i]) by {
        assert(is_safe_key_char(s[i]));
    }
    lemma_trimmed_no_white_space(s);
    assert(sanitized(s) =~= s);
    assert(is_ascii_chars(s));
    vstd::utf8::is_ascii_chars_encode_utf8(s);
}

/// A safe key is its own safe key. This holds for every key except those
/// whose safe key is a 40-digit hash while a positive limit below 40 bytes
/// applies (it would be hashed again): blank keys, and keys whose trimmed
/// form is longer than the limit.
pub proof fn safe_key_is_idempotent(raw: Seq<char>, max_len: nat)
    requires
        max_len == 0 || max_len >= 40 || (trimmed(raw).len() > 0 && utf8_len(trimmed(raw))
            <= max_len),
    ensures
        safe_key(safe_key(raw, max_len), max_len) == safe_key(raw, max_len),
{
    let t = trimmed(raw);
    let y = safe_key(raw, max_len);
    let hashed = max_len > 0 && utf8_len(t) > max_len;
    let k = if hashed {
        hex_lower(sha1_of(encode_bytes(t))@)
    } else {
        t
    };
    if hashed {
        lemma_hex_lower_shape(sha1_of(encode_bytes(t))@);
    }
    lemma_sanitized_safe(k);
    if t.len() == 0 {
        assert(utf8_len(t) == 0);
        let h = sha1_of(encode_bytes(raw))@;
        lemma_hex_lower_shape(h);
        assert(y == hex_lower(h));
        assert forall|i: int| 0 <= i < y.len() implies is_safe_key_char(#[trigger] y[i]) by {
            assert('0' <= y[i] <= '9' || 'a' <= y[i] <= 'f');
        }
        lemma_safe_text_facts(y);
    } else {
        assert(y == sanitized(k));
        lemma_safe_text_facts(y);
        if !hashed {
            lemma_utf8_len_at_least_chars(t);
        }
    }
    assert(!(max_len > 0 && utf8_len(y) > max_len));
}

/// Partitioning by the safe key of a non-empty ordering key gives the same
/// stream and routing key as partitioning by the ordering key itself (under
/// the same condition as `safe_key_is_idempotent`).
pub proof fn partition_by_safe_key_is_stable(
    config: OrderingConfig,
    stream: Seq<char>,
    routing_key: Seq<char>,
    key: Seq<char>,
)
    requires
        key.len() > 0,
        config.partition_max_len == 0 || config.partition_max_len >= 40 || (trimmed(key).len() > 0
            && utf8_len(trimmed(key)) <= config.partition_max_len),
    ensures
        partitioned(config, stream, routing_key, safe_key(key, config.partition_max_len as nat))
            == partitioned(config, stream, routing_key, key),
{
    let l = config.partition_max_len as nat;
    safe_key_is_idempotent(key, l);
    let t = trimmed(key);
    let k = if l > 0 && utf8_len(t) > l {
        hex_lower(sha1_of(encode_bytes(t))@)
    } else {
        t
    };
    lemma_sanitized_safe(k);
    lemma_hex_lower_shape(sha1_of(encode_bytes(key))@);
    assert(safe_key(key, l).len() > 0);
}

} // verus!
