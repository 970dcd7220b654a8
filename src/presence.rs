//! Presence records in a shared store: the command pipelines that write
//! them, and the coalescing of refreshes per connection.

use vstd::prelude::*;

use crate::connections::{copy_strings, ConnectionInfo};
use crate::table::KeyedTable;
use crate::text::{decimal_i64, int_decimal, push_str, str_eq};

verus! {

/// The text serde_json gives for a list of strings: a JSON array of JSON strings.
pub uninterp spec fn json_string_array(items: Seq<Seq<char>>) -> Seq<char>;

/// Relies on `serde_json::to_string` on a `Vec<String>`: the JSON array of
/// the strings. Serializing strings into memory cannot fail.
#[verifier::external_body]
fn strings_to_json(items: &Vec<String>) -> (r: String)
    ensures
        r@ == json_string_array(items.deep_view()),
{
    serde_json::to_string(items).unwrap_or_default()
}

/// How presence records expire.
#[derive(PartialEq, Eq, Structural, Clone, Copy, Debug)]
pub enum PresenceStrategy {
    /// After a fixed time to live.
    Ttl,
    /// Never; records go only when removed.
    Session,
    /// After a heartbeat period plus a grace period.
    Heartbeat,
}

/// Settings of the presence store.
#[derive(Debug)]
pub struct PresenceConfig {
    pub prefix: String,
    pub strategy: PresenceStrategy,
    pub ttl_seconds: i64,
    pub heartbeat_seconds: i64,
    pub grace_seconds: i64,
    pub refresh_min_interval_seconds: i64,
}

/// `session` and `heartbeat` select those strategies; anything else `Ttl`.
pub fn parse_presence_strategy(name: &str) -> (r: PresenceStrategy)
    ensures
        r == if name@ == "session"@ {
            PresenceStrategy::Session
        } else if name@ == "heartbeat"@ {
            PresenceStrategy::Heartbeat
        } else {
            PresenceStrategy::Ttl
        },
{
    if str_eq(name, "session") {
        PresenceStrategy::Session
    } else if str_eq(name, "heartbeat") {
        PresenceStrategy::Heartbeat
    } else {
        PresenceStrategy::Ttl
    }
}

/// The capacity of the refresh queue: the configured size within `1..=100000`.
pub fn refresh_queue_capacity(size: usize) -> (r: usize)
    ensures
        r == if size < 1 {
            1
        } else if size > 100_000 {
            100_000
        } else {
            size
        },
{
    if size < 1 {
        1
    } else if size > 100_000 {
        100_000
    } else {
        size
    }
}

/// The time to live of presence records: none for sessions, heartbeat plus
/// grace for heartbeats, else the configured one; never negative.
pub open spec fn ttl_of(c: PresenceConfig) -> int {
    match c.strategy {
        PresenceStrategy::Session => 0,
        PresenceStrategy::Heartbeat => {
            let t = c.heartbeat_seconds as int + c.grace_seconds as int;
            if t < 0 {
                0
            } else if t > i64::MAX {
                i64::MAX as int
            } else {
                t
            }
        },
        PresenceStrategy::Ttl => if c.ttl_seconds < 0 {
            0
        } else {
            c.ttl_seconds as int
        },
    }
}

/// A refresh of one connection's presence.
#[derive(Clone, Debug)]
pub struct PresenceRefreshRequest {
    pub connection_id: String,
    pub user_id: String,
    pub subjects: Vec<String>,
}

impl PresenceRefreshRequest {
    /// The refresh request of a connection.
    pub fn from_info(conn: &ConnectionInfo) -> (r: PresenceRefreshRequest)
        ensures
            r.connection_id@ == conn.connection_id@,
            r.user_id@ == conn.user_id@,
            r.subjects.deep_view() == conn.subjects.deep_view(),
    {
        PresenceRefreshRequest {
            connection_id: conn.connection_id.clone(),
            user_id: conn.user_id.clone(),
            subjects: copy_strings(&conn.subjects),
        }
    }
}

/// A key of the shared store: `{prefix}{kind}{name}`.
pub open spec fn store_key(prefix: Seq<char>, kind: Seq<char>, name: Seq<char>) -> Seq<char> {
    prefix + kind + name
}

/// `EXPIRE key ttl` when the time to live is positive, else nothing.
pub open spec fn expire_if(key: Seq<char>, ttl: i64) -> Seq<Seq<Seq<char>>> {
    if ttl > 0 {
        seq![seq!["EXPIRE"@, key, int_decimal(ttl as int)]]
    } else {
        Seq::empty()
    }
}

/// For each subject: `SADD` of the connection to the subject set, with its expiry.
pub open spec fn subject_adds(prefix: Seq<char>, subjects: Seq<Seq<char>>, id: Seq<char>, ttl: i64) -> Seq<
    Seq<Seq<char>>,
>
    decreases subjects.len(),
{
    if subjects.len() == 0 {
        Seq::empty()
    } else {
        let key = store_key(prefix, "subject:"@, subjects.last());
        subject_adds(prefix, subjects.drop_last(), id, ttl) + seq![seq!["SADD"@, key, id]]
            + expire_if(key, ttl)
    }
}

/// For each subject: `EXPIRE` of the subject set.
pub open spec fn subject_expires(prefix: Seq<char>, subjects: Seq<Seq<char>>, ttl: i64) -> Seq<
    Seq<Seq<char>>,
>
    decreases subjects.len(),
{
    if subjects.len() == 0 {
        Seq::empty()
    } else {
        subject_expires(prefix, subjects.drop_last(), ttl) + seq![
            seq!["EXPIRE"@, store_key(prefix, "subject:"@, subjects.last()), int_decimal(ttl as int)],
        ]
    }
}

/// For each subject: `SREM` of the connection from the subject set.
pub open spec fn subject_removes(prefix: Seq<char>, subjects: Seq<Seq<char>>, id: Seq<char>) -> Seq<
    Seq<Seq<char>>,
>
    decreases subjects.len(),
{
    if subjects.len() == 0 {
        Seq::empty()
    } else {
        subject_removes(prefix, subjects.drop_last(), id) + seq![
            seq!["SREM"@, store_key(prefix, "subject:"@, subjects.last()), id],
        ]
    }
}

/// The pipeline that writes a connection's presence record at `now`.
pub open spec fn set_pipeline(
    prefix: Seq<char>,
    id: Seq<char>,
    user: Seq<char>,
    subjects: Seq<Seq<char>>,
    connected_at: i64,
    subjects_json: Seq<char>,
    now: i64,
    ttl: i64,
) -> Seq<Seq<Seq<char>>> {
    let conn_key = store_key(prefix, "conn:"@, id);
    let user_key = store_key(prefix, "user:"@, user);
    seq![
        seq![
            "HSET"@,
            conn_key,
            "connection_id"@,
            id,
            "user_id"@,
            user,
            "subjects"@,
            subjects_json,
            "connected_at"@,
            int_decimal(connected_at as int),
            "last_seen_at"@,
            int_decimal(now as int),
        ],
    ] + expire_if(conn_key, ttl) + seq![seq!["SADD"@, user_key, id]] + expire_if(user_key, ttl)
        + subject_adds(prefix, subjects, id, ttl)
}

/// The pipeline that refreshes a connection's presence at `now`.
pub open spec fn refresh_pipeline(
    prefix: Seq<char>,
    id: Seq<char>,
    user: Seq<char>,
    subjects: Seq<Seq<char>>,
    now: i64,
    ttl: i64,
) -> Seq<Seq<Seq<char>>> {
    let conn_key = store_key(prefix, "conn:"@, id);
    let user_key = store_key(prefix, "user:"@, user);
    seq![
        seq!["HSET"@, conn_key, "last_seen_at"@, int_decimal(now as int)],
        seq!["EXPIRE"@, conn_key, int_decimal(ttl as int)],
        seq!["EXPIRE"@, user_key, int_decimal(ttl as int)],
    ] + subject_expires(prefix, subjects, ttl)
}

/// The pipeline that deletes a connection's presence.
pub open spec fn remove_pipeline(prefix: Seq<char>, id: Seq<char>, user: Seq<char>, subjects: Seq<Seq<char>>) -> Seq<
    Seq<Seq<char>>,
> {
    seq![
        seq!["DEL"@, store_key(prefix, "conn:"@, id)],
        seq!["SREM"@, store_key(prefix, "user:"@, user), id],
    ] + subject_removes(prefix, subjects, id)
}

/// Whether a refresh at `now` is due, the last one having been at `last`.
pub open spec fn refresh_due(last: Option<i64>, interval: i64, now: i64) -> bool {
    interval <= 0 || match last {
        Some(t) => now as int - t as int >= interval,
        None => true,
    }
}

fn store_key_of(prefix: &str, kind: &str, name: &str) -> (r: String)
    ensures
        r@ == store_key(prefix@, kind@, name@),
{
    let mut r = String::from_str(prefix);
    push_str(&mut r, kind);
    push_str(&mut r, name);
    r
}

fn command(parts: Vec<&str>) -> (r: Vec<String>)
    ensures
        r.deep_view() == parts@.map_values(|p: &str| p@),
{
    let mut r: Vec<String> = Vec::new();
    let mut i: usize = 0;
    while i < parts.len()
        invariant
            i <= parts@.len(),
            r@.len() == i,
            forall|k: int| 0 <= k < i ==> (#[trigger] r@[k])@ == parts@[k]@,
        decreases parts.len() - i,
    {
        r.push(String::from_str(parts[i]));
        i = i + 1;
    }
    assert(r.deep_view() =~= parts@.map_values(|p: &str| p@));
    r
}

fn push_expire_if(cmds: &mut Vec<Vec<String>>, key: &str, ttl: i64, ttl_text: &str)
    requires
        ttl_text@ == int_decimal(ttl as int),
    ensures
        final(cmds).deep_view() == old(cmds).deep_view() + expire_if(key@, ttl),
{
    if ttl > 0 {
        let c = command(vec!["EXPIRE", key, ttl_text]);
        cmds.push(c);
        assert(cmds.deep_view() =~~= old(cmds).deep_view() + expire_if(key@, ttl));
    } else {
        assert(cmds.deep_view() =~~= old(cmds).deep_view() + expire_if(key@, ttl));
    }
}

fn push_command(cmds: &mut Vec<Vec<String>>, parts: Vec<&str>)
    ensures
        final(cmds).deep_view() == old(cmds).deep_view().push(parts@.map_values(|p: &str| p@)),
{
    let c = command(parts);
    cmds.push(c);
    assert(cmds.deep_view() =~~= old(cmds).deep_view().push(parts@.map_values(|p: &str| p@)));
}

/// Presence bookkeeping: the settings and, per connection, when its
/// presence was last written.
pub struct PresenceService {
    config: PresenceConfig,
    last_refresh: KeyedTable<i64>,
}

impl PresenceService {
    /// When the presence of `id` was last written, as far as coalescing knows.
    pub closed spec fn last_refresh_of(&self, id: Seq<char>) -> Option<i64> {
        self.last_refresh.lookup(id)
    }

    pub closed spec fn wf(&self) -> bool {
        self.last_refresh.wf()
    }

    /// The settings of the store.
    pub closed spec fn settings(&self) -> PresenceConfig {
        self.config
    }

    pub fn new(config: PresenceConfig) -> (r: PresenceService)
        ensures
            r.wf(),
            r.settings() == config,
            forall|id: Seq<char>| #[trigger] r.last_refresh_of(id) is None,
    {
        PresenceService { config, last_refresh: KeyedTable::new() }
    }

    /// The time to live of presence records (see `ttl_of`).
    pub fn effective_ttl(&self) -> (r: i64)
        ensures
            r == ttl_of(self.settings()),
    {
        match self.config.strategy {
            PresenceStrategy::Session => 0,
            PresenceStrategy::Heartbeat => {
                let t: i128 = self.config.heartbeat_seconds as i128
                    + self.config.grace_seconds as i128;
                if t < 0 {
                    0
                } else if t > i64::MAX as i128 {
                    i64::MAX
                } else {
                    t as i64
                }
            },
            PresenceStrategy::Ttl => if self.config.ttl_seconds < 0 {
                0
            } else {
                self.config.ttl_seconds
            },
        }
    }

    /// Records a write of `id`'s presence at `now`, when coalescing is on.
    pub fn mark_refreshed(&mut self, connection_id: &str, now: i64)
        requires
            old(self).wf(),
        ensures
            final(self).wf(),
            final(self).settings() == old(self).settings(),
            final(self).last_refresh_of(connection_id@) == if old(self).settings().refresh_min_interval_seconds > 0 {
                Some(now)
            } else {
                old(self).last_refresh_of(connection_id@)
            },
            forall|k: Seq<char>|
                k != connection_id@ ==> #[trigger] final(self).last_refresh_of(k) == old(
                    self,
                ).last_refresh_of(k),
    {
        if self.config.refresh_min_interval_seconds <= 0 {
            return ;
        }
        self.last_refresh.insert(connection_id, now);
    }

    /// Whether a refresh of `id` at `now` goes to the store. With coalescing
    /// on, the attempt is recorded whether or not it goes out.
    pub fn should_refresh(&mut self, connection_id: &str, now: i64) -> (r: bool)
        requires
            old(self).wf(),
        ensures
            final(self).wf(),
            final(self).settings() == old(self).settings(),
            r == refresh_due(
                old(self).last_refresh_of(connection_id@),
                old(self).settings().refresh_min_interval_seconds,
                now,
            ),
            final(self).last_refresh_of(connection_id@) == if old(self).settings().refresh_min_interval_seconds > 0 {
                Some(now)
            } else {
                old(self).last_refresh_of(connection_id@)
            },
            forall|k: Seq<char>|
                k != connection_id@ ==> #[trigger] final(self).last_refresh_of(k) == old(
                    self,
                ).last_refresh_of(k),
    {
        let min_interval = self.config.refresh_min_interval_seconds;
        if min_interval <= 0 {
            return true;
        }
        let due = match self.last_refresh.get(connection_id) {
            Some(last) => (now as i128) - (*last as i128) >= min_interval as i128,
            None => true,
        };
        self.last_refresh.insert(connection_id, now);
        due
    }

    /// The pipeline writing `conn`'s presence at `now`, its subjects given as
    /// JSON text; records the write for coalescing.
    pub fn set_commands_with(&mut self, conn: &ConnectionInfo, now: i64, subjects_json: &str) -> (r: Vec<Vec<String>>)
        requires
            old(self).wf(),
        ensures
            final(self).wf(),
            final(self).settings() == old(self).settings(),
            r.deep_view() == set_pipeline(
                old(self).settings().prefix@,
                conn.connection_id@,
                conn.user_id@,
                conn.subjects.deep_view(),
                conn.connected_at,
                subjects_json@,
                now,
                ttl_of(old(self).settings()) as i64,
            ),
            final(self).last_refresh_of(conn.connection_id@) == if old(self).settings().refresh_min_interval_seconds > 0 {
                Some(now)
            } else {
                old(self).last_refresh_of(conn.connection_id@)
            },
            forall|k: Seq<char>|
                k != conn.connection_id@ ==> #[trigger] final(self).last_refresh_of(k) == old(
                    self,
                ).last_refresh_of(k),
    {
        let ttl = self.effective_ttl();
        let ttl_text = decimal_i64(ttl);
        let prefix = self.config.prefix.as_str();
        let id = conn.connection_id.as_str();
        let user = conn.user_id.as_str();
        let conn_key = store_key_of(prefix, "conn:", id);
        let user_key = store_key_of(prefix, "user:", user);
        let connected = decimal_i64(conn.connected_at);
        let seen = decimal_i64(now);
        let mut cmds: Vec<Vec<String>> = Vec::new();
        push_command(
            &mut cmds,
            vec![
                "HSET",
                conn_key.as_str(),
                "connection_id",
                id,
                "user_id",
                user,
                "subjects",
                subjects_json,
                "connected_at",
                connected.as_str(),
                "last_seen_at",
                seen.as_str(),
            ],
        );
        push_expire_if(&mut cmds, conn_key.as_str(), ttl, ttl_text.as_str());
        push_command(&mut cmds, vec!["SADD", user_key.as_str(), id]);
        push_expire_if(&mut cmds, user_key.as_str(), ttl, ttl_text.as_str());
        let ghost head = cmds.deep_view();
        let ghost subjects = conn.subjects.deep_view();
        let mut j: usize = 0;
        while j < conn.subjects.len()
            invariant
                j <= subjects.len(),
                subjects == conn.subjects.deep_view(),
                prefix@ == self.config.prefix@,
                ttl_text@ == int_decimal(ttl as int),
                cmds.deep_view() == head + subject_adds(prefix@, subjects.subrange(0, j as int), id@, ttl),
            decreases conn.subjects.len() - j,
        {
            let key = store_key_of(prefix, "subject:", conn.subjects[j].as_str());
            push_command(&mut cmds, vec!["SADD", key.as_str(), id]);
            push_expire_if(&mut cmds, key.as_str(), ttl, ttl_text.as_str());
            proof {
                let sub = subjects.subrange(0, j + 1);
                assert(sub.drop_last() =~= subjects.subrange(0, j as int));
                assert(sub.last() == conn.subjects@[j as int]@);
                assert(cmds.deep_view() =~~= head + subject_adds(prefix@, sub, id@, ttl));
            }
            j = j + 1;
        }
        proof {
            assert(subjects.subrange(0, subjects.len() as int) =~= subjects);
            assert(cmds.deep_view() =~~= set_pipeline(
                self.config.prefix@,
                id@,
                user@,
                subjects,
                conn.connected_at,
                subjects_json@,
                now,
                ttl,
            ));
        }
        self.mark_refreshed(id, now);
        cmds
    }

    /// The pipeline writing `conn`'s presence at `now`; records the write
    /// for coalescing.
    pub fn set_commands(&mut self, conn: &ConnectionInfo, now: i64) -> (r: Vec<Vec<String>>)
        requires
            old(self).wf(),
        ensures
            final(self).wf(),
            final(self).settings() == old(self).settings(),
            r.deep_view() == set_pipeline(
                old(self).settings().prefix@,
                conn.connection_id@,
                conn.user_id@,
                conn.subjects.deep_view(),
                conn.connected_at,
                json_string_array(conn.subjects.deep_view()),
                now,
                ttl_of(old(self).settings()) as i64,
            ),
            final(self).last_refresh_of(conn.connection_id@) == if old(self).settings().refresh_min_interval_seconds > 0 {
                Some(now)
            } else {
                old(self).last_refresh_of(conn.connection_id@)
            },
            forall|k: Seq<char>|
                k != conn.connection_id@ ==> #[trigger] final(self).last_refresh_of(k) == old(
                    self,
                ).last_refresh_of(k),
    {
        let json = strings_to_json(&conn.subjects);
        self.set_commands_with(conn, now, json.as_str())
    }

    /// The pipeline refreshing a connection's presence at `now`, unless
    /// records do not expire or the last recorded attempt was less than the
    /// minimum interval ago; with coalescing on, every attempt is recorded.
    pub fn refresh_commands(&mut self, req: &PresenceRefreshRequest, now: i64) -> (r: Option<Vec<Vec<String>>>)
        requires
            old(self).wf(),
        ensures
            final(self).wf(),
            final(self).settings() == old(self).settings(),
            ttl_of(old(self).settings()) <= 0 ==> r is None && final(self).last_refresh_of(req.connection_id@)
                == old(self).last_refresh_of(req.connection_id@),
            ttl_of(old(self).settings()) > 0 ==> {
                let due = refresh_due(
                    old(self).last_refresh_of(req.connection_id@),
                    old(self).settings().refresh_min_interval_seconds,
                    now,
                );
                &&& (r is Some <==> due)
                &&& final(self).last_refresh_of(req.connection_id@) == if old(
                    self,
                ).settings().refresh_min_interval_seconds > 0 {
                    Some(now)
                } else {
                    old(self).last_refresh_of(req.connection_id@)
                }
            },
            r matches Some(cmds) ==> cmds.deep_view() == refresh_pipeline(
                old(self).settings().prefix@,
                req.connection_id@,
                req.user_id@,
                req.subjects.deep_view(),
                now,
                ttl_of(old(self).settings()) as i64,
            ),
            forall|k: Seq<char>|
                k != req.connection_id@ ==> #[trigger] final(self).last_refresh_of(k) == old(
                    self,
                ).last_refresh_of(k),
    {
        let ttl = self.effective_ttl();
        if ttl <= 0 {
            return None;
        }
        if !self.should_refresh(req.connection_id.as_str(), now) {
            return None;
        }
        let ttl_text = decimal_i64(ttl);
        let prefix = self.config.prefix.as_str();
        let id = req.connection_id.as_str();
        let conn_key = store_key_of(prefix, "conn:", id);
        let user_key = store_key_of(prefix, "user:", req.user_id.as_str());
        let seen = decimal_i64(now);
        let mut cmds: Vec<Vec<String>> = Vec::new();
        push_command(&mut cmds, vec!["HSET", conn_key.as_str(), "last_seen_at", seen.as_str()]);
        push_command(&mut cmds, vec!["EXPIRE", conn_key.as_str(), ttl_text.as_str()]);
        push_command(&mut cmds, vec!["EXPIRE", user_key.as_str(), ttl_text.as_str()]);
        let ghost head = cmds.deep_view();
        let ghost subjects = req.subjects.deep_view();
        let mut j: usize = 0;
        while j < req.subjects.len()
            invariant
                j <= subjects.len(),
                subjects == req.subjects.deep_view(),
                ttl_text@ == int_decimal(ttl as int),
                cmds.deep_view() == head + subject_expires(prefix@, subjects.subrange(0, j as int), ttl),
            decreases req.subjects.len() - j,
        {
            let key = store_key_of(prefix, "subject:", req.subjects[j].as_str());
            push_command(&mut cmds, vec!["EXPIRE", key.as_str(), ttl_text.as_str()]);
            proof {
                let sub = subjects.subrange(0, j + 1);
                assert(sub.drop_last() =~= subjects.subrange(0, j as int));
                assert(sub.last() == req.subjects@[j as int]@);
                assert(cmds.deep_view() =~~= head + subject_expires(prefix@, sub, ttl));
            }
            j = j + 1;
        }
        proof {
            assert(subjects.subrange(0, subjects.len() as int) =~= subjects);
            assert(cmds.deep_view() =~~= refresh_pipeline(prefix@, id@, req.user_id@, subjects, now, ttl));
        }
        Some(cmds)
    }

    /// The pipeline deleting `conn`'s presence; forgets its last write.
    pub fn remove_commands(&mut self, conn: &ConnectionInfo) -> (r: Vec<Vec<String>>)
        requires
            old(self).wf(),
        ensures
            final(self).wf(),
            final(self).settings() == old(self).settings(),
            r.deep_view() == remove_pipeline(
                old(self).settings().prefix@,
                conn.connection_id@,
                conn.user_id@,
                conn.subjects.deep_view(),
            ),
            final(self).last_refresh_of(conn.connection_id@) is None,
            forall|k: Seq<char>|
                k != conn.connection_id@ ==> #[trigger] final(self).last_refresh_of(k) == old(
                    self,
                ).last_refresh_of(k),
    {
        let prefix = self.config.prefix.as_str();
        let id = conn.connection_id.as_str();
        let conn_key = store_key_of(prefix, "conn:", id);
        let user_key = store_key_of(prefix, "user:", conn.user_id.as_str());
        let mut cmds: Vec<Vec<String>> = Vec::new();
        push_command(&mut cmds, vec!["DEL", conn_key.as_str()]);
        push_command(&mut cmds, vec!["SREM", user_key.as_str(), id]);
        let ghost head = cmds.deep_view();
        let ghost subjects = conn.subjects.deep_view();
        let mut j: usize = 0;
        while j < conn.subjects.len()
            invariant
                j <= subjects.len(),
                subjects == conn.subjects.deep_view(),
                cmds.deep_view() == head + subject_removes(prefix@, subjects.subrange(0, j as int), id@),
            decreases conn.subjects.len() - j,
        {
            let key = store_key_of(prefix, "subject:", conn.subjects[j].as_str());
            push_command(&mut cmds, vec!["SREM", key.as_str(), id]);
            proof {
                let sub = subjects.subrange(0, j + 1);
                assert(sub.drop_last() =~= subjects.subrange(0, j as int));
                assert(sub.last() == conn.subjects@[j as int]@);
                assert(cmds.deep_view() =~~= head + subject_removes(prefix@, sub, id@));
            }
            j = j + 1;
        }
        proof {
            assert(subjects.subrange(0, subjects.len() as int) =~= subjects);
            assert(cmds.deep_view() =~~= remove_pipeline(prefix@, id@, conn.user_id@, subjects));
        }
        let _ = self.last_refresh.remove(id);
        cmds
    }
}

/// The last recorded attempt after a series of refresh attempts at `times`.
pub open spec fn last_after(last: Option<i64>, interval: i64, times: Seq<i64>) -> Option<i64>
    decreases times.len(),
{
    if times.len() == 0 {
        last
    } else {
        let before = last_after(last, interval, times.drop_last());
        if interval > 0 {
            Some(times.last())
        } else {
            before
        }
    }
}

/// How many of a series of refresh attempts at `times` reach the store.
pub open spec fn refreshes_sent(last: Option<i64>, interval: i64, times: Seq<i64>) -> nat
    decreases times.len(),
{
    if times.len() == 0 {
        0
    } else {
        let before = last_after(last, interval, times.drop_last());
        refreshes_sent(last, interval, times.drop_last()) + if refresh_due(
            before,
            interval,
            times.last(),
        ) {
            1nat
        } else {
            0nat
        }
    }
}

proof fn lemma_refreshes_in_window(last: Option<i64>, interval: i64, times: Seq<i64>, lo: int)
    requires
        interval > 0,
        forall|i: int| 0 <= i < times.len() ==> lo <= #[trigger] times[i] < lo + interval,
    ensures
        refreshes_sent(last, interval, times) <= 1,
        times.len() > 0 ==> (last_after(last, interval, times) is Some && lo <= last_after(
            last,
            interval,
            times,
        ).unwrap() < lo + interval),
    decreases times.len(),
{
    if times.len() > 0 {
        let prev = times.drop_last();
        assert forall|i: int| 0 <= i < prev.len() implies lo <= #[trigger] prev[i] < lo + interval by {
            assert(prev[i] == times[i]);
        }
        lemma_refreshes_in_window(last, interval, prev, lo);
        assert(lo <= times[times.len() - 1] < lo + interval);
    }
}

/// Refresh attempts for one connection that all fall within one minimum
/// interval reach the store at most once, whatever was recorded before.
pub proof fn refreshes_within_interval_coalesce(
    last: Option<i64>,
    interval: i64,
    times: Seq<i64>,
    lo: int,
)
    requires
        interval > 0,
        forall|i: int| 0 <= i < times.len() ==> lo <= #[trigger] times[i] < lo + interval,
    ensures
        refreshes_sent(last, interval, times) <= 1,
{
    lemma_refreshes_in_window(last, interval, times, lo);
}

} // verus!
