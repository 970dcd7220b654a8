//! Registry of live sessions with a subject index, and fan-out.

use tokio::sync::mpsc::UnboundedSender;
use vstd::prelude::*;

use crate::text::{push_str, str_eq};

verus! {

/// tokio's `UnboundedSender`: the sending half of a session's outbound
/// queue, held opaque.
#[verifier::external_type_specification]
#[verifier::external_body]
#[verifier::reject_recursive_types(T)]
pub struct ExUnboundedSender<T>(UnboundedSender<T>);

/// A frame queued for a session's writer.
#[derive(Debug, PartialEq, Eq)]
pub enum OutboundFrame {
    Text(String),
    Binary(Vec<u8>),
    Ping(Vec<u8>),
    Pong(Vec<u8>),
    /// A close frame, with an optional code and reason.
    Close(Option<(u16, String)>),
}

/// Relies on tokio's `UnboundedSender::send`: the frame is queued unless the
/// receiving half has been closed, which decides the result.
#[verifier::external_body]
fn send_frame(sender: &UnboundedSender<OutboundFrame>, frame: OutboundFrame) -> bool {
    sender.send(frame).is_ok()
}

/// Identity of one live session.
#[derive(Clone, Debug)]
pub struct ConnectionInfo {
    pub connection_id: String,
    pub user_id: String,
    pub subjects: Vec<String>,
    pub connected_at: i64,
    pub traceparent: Option<String>,
}

/// The contents of a `ConnectionInfo`.
pub struct ConnectionInfoView {
    pub connection_id: Seq<char>,
    pub user_id: Seq<char>,
    pub subjects: Seq<Seq<char>>,
    pub connected_at: i64,
    pub traceparent: Option<Seq<char>>,
}

/// The characters of an optional string.
pub open spec fn opt_view(o: Option<String>) -> Option<Seq<char>> {
    match o {
        Some(s) => Some(s@),
        None => None,
    }
}

impl View for ConnectionInfo {
    type V = ConnectionInfoView;

    open spec fn view(&self) -> ConnectionInfoView {
        ConnectionInfoView {
            connection_id: self.connection_id@,
            user_id: self.user_id@,
            subjects: self.subjects.deep_view(),
            connected_at: self.connected_at,
            traceparent: opt_view(self.traceparent),
        }
    }
}

/// A copy of a list of strings.
pub fn copy_strings(v: &Vec<String>) -> (r: Vec<String>)
    ensures
        r.deep_view() == v.deep_view(),
{
    let mut r: Vec<String> = Vec::new();
    let mut i: usize = 0;
    while i < v.len()
        invariant
            i <= v@.len(),
            r@.len() == i,
            forall|k: int| 0 <= k < i ==> (#[trigger] r@[k])@ == v@[k]@,
        decreases v.len() - i,
    {
        let c = v[i].clone();
        r.push(c);
        i = i + 1;
    }
    assert(r.deep_view() =~= v.deep_view());
    r
}

impl ConnectionInfo {
    /// A copy of this information.
    pub fn copy(&self) -> (r: ConnectionInfo)
        ensures
            r@ == self@,
    {
        let traceparent = match &self.traceparent {
            Some(t) => Some(t.clone()),
            None => None,
        };
        ConnectionInfo {
            connection_id: self.connection_id.clone(),
            user_id: self.user_id.clone(),
            subjects: copy_strings(&self.subjects),
            connected_at: self.connected_at,
            traceparent,
        }
    }
}

/// Views of a list of connection infos.
pub open spec fn info_views(v: Seq<ConnectionInfo>) -> Seq<ConnectionInfoView> {
    v.map_values(|i: ConnectionInfo| i@)
}

/// The entries of `es` whose id differs from `id`, in order.
pub open spec fn without(es: Seq<ConnectionInfoView>, id: Seq<char>) -> Seq<ConnectionInfoView>
    decreases es.len(),
{
    if es.len() == 0 {
        es
    } else if es.last().connection_id == id {
        without(es.drop_last(), id)
    } else {
        without(es.drop_last(), id).push(es.last())
    }
}

/// The entry with id `id`, if any.
pub open spec fn lookup(es: Seq<ConnectionInfoView>, id: Seq<char>) -> Option<ConnectionInfoView>
    decreases es.len(),
{
    if es.len() == 0 {
        None
    } else if es.last().connection_id == id {
        Some(es.last())
    } else {
        lookup(es.drop_last(), id)
    }
}

/// Whether an entry passes the optional subject and user filters.
pub open spec fn passes(v: ConnectionInfoView, subject: Option<Seq<char>>, user_id: Option<Seq<char>>) -> bool {
    (match subject {
        Some(s) => v.subjects.contains(s),
        None => true,
    }) && (match user_id {
        Some(u) => v.user_id == u,
        None => true,
    })
}

/// The entries that pass the filters, in order.
pub open spec fn matching(
    es: Seq<ConnectionInfoView>,
    subject: Option<Seq<char>>,
    user_id: Option<Seq<char>>,
) -> Seq<ConnectionInfoView>
    decreases es.len(),
{
    if es.len() == 0 {
        es
    } else if passes(es.last(), subject, user_id) {
        matching(es.drop_last(), subject, user_id).push(es.last())
    } else {
        matching(es.drop_last(), subject, user_id)
    }
}

/// The text sent to subscribers: `{"type":"event","payload":<payload>}`.
pub open spec fn envelope(payload_json: Seq<char>) -> Seq<char> {
    "{\"type\":\"event\",\"payload\":"@ + payload_json + seq!['}']
}

/// Wraps a JSON payload in the event envelope.
pub fn event_envelope(payload_json: &str) -> (r: String)
    ensures
        r@ == envelope(payload_json@),
{
    let mut r = String::from_str("{\"type\":\"event\",\"payload\":");
    push_str(&mut r, payload_json);
    push_str(&mut r, "}");
    proof {
        reveal_strlit("}");
    }
    r
}

/// Whether an entry of `es` with id `id` is subscribed to `subject`.
pub open spec fn subscribed_in(es: Seq<ConnectionInfoView>, subject: Seq<char>, id: Seq<char>) -> bool {
    exists|i: int|
        0 <= i < es.len() && (#[trigger] es[i]).connection_id == id && es[i].subjects.contains(subject)
}

/// Whether one of the first `k` pairs is (`subject`, `id`).
pub open spec fn pairs_have(ps: Seq<(String, String)>, k: int, subject: Seq<char>, id: Seq<char>) -> bool {
    exists|m: int| 0 <= m < k && (#[trigger] ps[m]).0@ == subject && ps[m].1@ == id
}

proof fn lemma_without_excludes(es: Seq<ConnectionInfoView>, id: Seq<char>)
    ensures
        forall|k: int| 0 <= k < without(es, id).len() ==> (#[trigger] without(es, id)[k]).connection_id != id,
    decreases es.len(),
{
    if es.len() > 0 {
        lemma_without_excludes(es.drop_last(), id);
    }
}

proof fn lemma_without_absent(es: Seq<ConnectionInfoView>, id: Seq<char>)
    requires
        forall|k: int| 0 <= k < es.len() ==> (#[trigger] es[k]).connection_id != id,
    ensures
        without(es, id) == es,
        lookup(es, id) is None,
    decreases es.len(),
{
    if es.len() > 0 {
        lemma_without_absent(es.drop_last(), id);
        assert(es.drop_last().push(es.last()) =~= es);
    }
}

proof fn lemma_without_at(es: Seq<ConnectionInfoView>, id: Seq<char>, i: int)
    requires
        0 <= i < es.len(),
        es[i].connection_id == id,
        forall|k: int| 0 <= k < es.len() && k != i ==> (#[trigger] es[k]).connection_id != id,
    ensures
        without(es, id) == es.remove(i),
        lookup(es, id) == Some(es[i]),
    decreases es.len(),
{
    if i == es.len() - 1 {
        lemma_without_absent(es.drop_last(), id);
        assert(es.remove(i) =~= es.drop_last());
    } else {
        lemma_without_at(es.drop_last(), id, i);
        assert(es.drop_last().remove(i).push(es.last()) =~= es.remove(i));
    }
}

proof fn lemma_kept_step(
    before: Seq<(String, String)>,
    kept: Seq<(String, String)>,
    index: Seq<(String, String)>,
    k: int,
    id: Seq<char>,
)
    requires
        0 <= k < index.len(),
        index[k].1@ != id ==> kept.len() == before.len() + 1 && kept.drop_last() == before
            && kept.last().0@ == index[k].0@ && kept.last().1@ == index[k].1@,
        index[k].1@ == id ==> kept == before,
        forall|s: Seq<char>, x: Seq<char>|
            #[trigger] pairs_have(before, before.len() as int, s, x) <==> (x != id && pairs_have(
                index,
                k,
                s,
                x,
            )),
    ensures
        forall|s: Seq<char>, x: Seq<char>|
            #[trigger] pairs_have(kept, kept.len() as int, s, x) <==> (x != id && pairs_have(
                index,
                k + 1,
                s,
                x,
            )),
{
    assert forall|s: Seq<char>, x: Seq<char>|
        #[trigger] pairs_have(kept, kept.len() as int, s, x) <==> (x != id && pairs_have(
            index,
            k + 1,
            s,
            x,
        )) by {
        if x != id && pairs_have(index, k + 1, s, x) {
            let m = choose|m: int| 0 <= m < k + 1 && (#[trigger] index[m]).0@ == s && index[m].1@ == x;
            if m < k {
                assert(pairs_have(index, k, s, x));
                assert(pairs_have(before, before.len() as int, s, x));
                let m2 = choose|m2: int|
                    0 <= m2 < before.len() && (#[trigger] before[m2]).0@ == s && before[m2].1@ == x;
                assert(kept[m2] == before[m2]);
            } else {
                assert(kept[kept.len() - 1].0@ == s);
            }
        }
        if pairs_have(kept, kept.len() as int, s, x) {
            let m = choose|m: int| 0 <= m < kept.len() && (#[trigger] kept[m]).0@ == s && kept[m].1@ == x;
            if m < before.len() {
                assert(before[m] == kept[m]);
                assert(pairs_have(before, before.len() as int, s, x));
            } else {
                assert(index[k].0@ == s && index[k].1@ == x);
            }
        }
    }
}

proof fn lemma_pairs_push(ps: Seq<(String, String)>, p: (String, String))
    ensures
        forall|s: Seq<char>, x: Seq<char>|
            #[trigger] pairs_have(ps.push(p), (ps.len() + 1) as int, s, x) <==> (pairs_have(
                ps,
                ps.len() as int,
                s,
                x,
            ) || (p.0@ == s && p.1@ == x)),
{
    assert forall|s: Seq<char>, x: Seq<char>|
        #[trigger] pairs_have(ps.push(p), (ps.len() + 1) as int, s, x) <==> (pairs_have(
            ps,
            ps.len() as int,
            s,
            x,
        ) || (p.0@ == s && p.1@ == x)) by {
        let q = ps.push(p);
        if pairs_have(ps, ps.len() as int, s, x) {
            let m = choose|m: int| 0 <= m < ps.len() && (#[trigger] ps[m]).0@ == s && ps[m].1@ == x;
            assert(q[m] == ps[m]);
        }
        if p.0@ == s && p.1@ == x {
            assert(q[ps.len() as int] == p);
        }
        if pairs_have(q, (ps.len() + 1) as int, s, x) {
            let m = choose|m: int| 0 <= m < ps.len() + 1 && (#[trigger] q[m]).0@ == s && q[m].1@ == x;
            if m < ps.len() {
                assert(q[m] == ps[m]);
            }
        }
    }
}

/// Whether `v` holds the text `s`.
pub fn contains_str(v: &Vec<String>, s: &str) -> (r: bool)
    ensures
        r == v.deep_view().contains(s@),
{
    let mut i: usize = 0;
    while i < v.len()
        invariant
            i <= v@.len(),
            forall|k: int| 0 <= k < i ==> (#[trigger] v@[k])@ != s@,
        decreases v.len() - i,
    {
        if str_eq(v[i].as_str(), s) {
            assert(v.deep_view()[i as int] == s@);
            return true;
        }
        i = i + 1;
    }
    assert forall|k: int| 0 <= k < v.deep_view().len() implies v.deep_view()[k] != s@ by {
        assert(v.deep_view()[k] == v@[k]@);
    }
    false
}

/// A frame handed to an outbound queue, and whether the queue took it.
pub struct Offer {
    pub queue: UnboundedSender<OutboundFrame>,
    pub frame: OutboundFrame,
    pub accepted: bool,
}

/// How many of the offers were taken.
pub open spec fn accepted_count(log: Seq<Offer>) -> nat
    decreases log.len(),
{
    if log.len() == 0 {
        0
    } else {
        accepted_count(log.drop_last()) + if log.last().accepted {
            1nat
        } else {
            0nat
        }
    }
}

/// Whether a frame is the event envelope of `payload_json`.
pub open spec fn is_envelope(frame: OutboundFrame, payload_json: Seq<char>) -> bool {
    match frame {
        OutboundFrame::Text(t) => t@ == envelope(payload_json),
        _ => false,
    }
}

/// Hands `frame` to `queue`; the record says which queue got which frame
/// and whether it took it.
pub fn offer(queue: &UnboundedSender<OutboundFrame>, frame: OutboundFrame) -> (r: (bool, Ghost<Offer>))
    ensures
        r.1@ == (Offer { queue: *queue, frame, accepted: r.0 }),
{
    let ghost handed = frame;
    let ok = send_frame(queue, frame);
    (ok, Ghost(Offer { queue: *queue, frame: handed, accepted: ok }))
}

struct ConnectionEntry {
    info: ConnectionInfo,
    sender: UnboundedSender<OutboundFrame>,
}

/// The outbound queue of the entry with id `id` (the last such entry).
spec fn entry_queue(es: Seq<ConnectionEntry>, id: Seq<char>) -> Option<UnboundedSender<OutboundFrame>>
    decreases es.len(),
{
    if es.len() == 0 {
        None
    } else if es.last().info.connection_id@ == id {
        Some(es.last().sender)
    } else {
        entry_queue(es.drop_last(), id)
    }
}

spec fn entry_ids_unique(es: Seq<ConnectionEntry>) -> bool {
    forall|a: int, b: int|
        0 <= a < b < es.len() ==> (#[trigger] es[a]).info.connection_id@ != (
        #[trigger] es[b]).info.connection_id@
}

proof fn lemma_queue_char(es: Seq<ConnectionEntry>, id: Seq<char>)
    requires
        entry_ids_unique(es),
    ensures
        (forall|k: int| 0 <= k < es.len() ==> (#[trigger] es[k]).info.connection_id@ != id)
            ==> entry_queue(es, id) is None,
        forall|k: int|
            0 <= k < es.len() && (#[trigger] es[k]).info.connection_id@ == id ==> entry_queue(es, id)
                == Some(es[k].sender),
    decreases es.len(),
{
    if es.len() > 0 {
        let d = es.drop_last();
        let n = es.len() - 1;
        assert forall|a: int, b: int| 0 <= a < b < d.len() implies (#[trigger] d[a]).info.connection_id@
            != (#[trigger] d[b]).info.connection_id@ by {
            assert(d[a] == es[a] && d[b] == es[b]);
        }
        lemma_queue_char(d, id);
        assert forall|k: int| 0 <= k < es.len() && (#[trigger] es[k]).info.connection_id@ == id implies entry_queue(
            es,
            id,
        ) == Some(es[k].sender) by {
            if k < n {
                assert(d[k] == es[k]);
                assert(es[n].info.connection_id@ != es[k].info.connection_id@);
            }
        }
        if forall|k: int| 0 <= k < es.len() ==> (#[trigger] es[k]).info.connection_id@ != id {
            assert forall|k: int| 0 <= k < d.len() implies (#[trigger] d[k]).info.connection_id@ != id by {
                assert(d[k] == es[k]);
            }
            assert(es[n].info.connection_id@ != id);
        }
    }
}

proof fn lemma_unique_after_remove(before: Seq<ConnectionEntry>, i: int)
    requires
        entry_ids_unique(before),
        0 <= i < before.len(),
    ensures
        entry_ids_unique(before.remove(i)),
{
    let after = before.remove(i);
    assert forall|a: int, b: int| 0 <= a < b < after.len() implies (#[trigger] after[a]).info.connection_id@
        != (#[trigger] after[b]).info.connection_id@ by {
        let a0 = if a < i { a } else { a + 1 };
        let b0 = if b < i { b } else { b + 1 };
        assert(after[a] == before[a0] && after[b] == before[b0]);
    }
}

proof fn lemma_queue_after_remove(before: Seq<ConnectionEntry>, i: int, id: Seq<char>)
    requires
        entry_ids_unique(before),
        0 <= i < before.len(),
        before[i].info.connection_id@ != id,
    ensures
        entry_ids_unique(before.remove(i)),
        entry_queue(before.remove(i), id) == entry_queue(before, id),
{
    let after = before.remove(i);
    assert forall|a: int, b: int| 0 <= a < b < after.len() implies (#[trigger] after[a]).info.connection_id@
        != (#[trigger] after[b]).info.connection_id@ by {
        let a0 = if a < i { a } else { a + 1 };
        let b0 = if b < i { b } else { b + 1 };
        assert(after[a] == before[a0] && after[b] == before[b0]);
    }
    lemma_queue_char(before, id);
    lemma_queue_char(after, id);
    if exists|m: int| 0 <= m < before.len() && (#[trigger] before[m]).info.connection_id@ == id {
        let m = choose|m: int| 0 <= m < before.len() && (#[trigger] before[m]).info.connection_id@ == id;
        let m2 = if m < i { m } else { m - 1 };
        assert(after[m2] == before[m]);
    } else {
        assert forall|k: int| 0 <= k < after.len() implies (#[trigger] after[k]).info.connection_id@ != id by {
            let k0 = if k < i { k } else { k + 1 };
            assert(after[k] == before[k0]);
        }
    }
}

/// The live sessions, each with its outbound queue, and the subject index:
/// the pairs (subject, connection id) of every subscription.
pub struct ConnectionManager {
    connections: Vec<ConnectionEntry>,
    index: Vec<(String, String)>,
}

impl ConnectionManager {
    /// The live sessions, in the order they were added.
    pub closed spec fn entries(&self) -> Seq<ConnectionInfoView> {
        self.connections@.map_values(|e: ConnectionEntry| e.info@)
    }

    /// The outbound queue of the live session `id`.
    pub closed spec fn queue_of(&self, id: Seq<char>) -> Option<UnboundedSender<OutboundFrame>> {
        entry_queue(self.connections@, id)
    }

    /// Whether the subject index lists `id` under `subject`.
    pub closed spec fn indexed(&self, subject: Seq<char>, id: Seq<char>) -> bool {
        pairs_have(self.index@, self.index@.len() as int, subject, id)
    }

    /// Whether a live session `id` is subscribed to `subject`.
    pub open spec fn subscribed(&self, subject: Seq<char>, id: Seq<char>) -> bool {
        subscribed_in(self.entries(), subject, id)
    }

    /// Connection ids are unique.
    pub open spec fn ids_unique(&self) -> bool {
        forall|i: int, j: int|
            0 <= i < j < self.entries().len() ==> (#[trigger] self.entries()[i]).connection_id
                != (#[trigger] self.entries()[j]).connection_id
    }

    /// Ids are unique and the index lists exactly the subscriptions of the live sessions.
    pub open spec fn wf(&self) -> bool {
        &&& self.ids_unique()
        &&& forall|s: Seq<char>, id: Seq<char>| #[trigger]
            self.indexed(s, id) <==> self.subscribed(s, id)
    }

    /// Whether the subject index has an entry for `subject`.
    pub closed spec fn has_subject(&self, subject: Seq<char>) -> bool {
        exists|k: int| 0 <= k < self.index@.len() && (#[trigger] self.index@[k]).0@ == subject
    }

    pub fn new() -> (r: ConnectionManager)
        ensures
            r.wf(),
            r.entries() == Seq::<ConnectionInfoView>::empty(),
    {
        let r = ConnectionManager { connections: Vec::new(), index: Vec::new() };
        assert(r.entries() =~= Seq::<ConnectionInfoView>::empty());
        r
    }

    fn has_pair(&self, subject: &str, id: &str) -> (r: bool)
        ensures
            r == self.indexed(subject@, id@),
    {
        let mut k: usize = 0;
        while k < self.index.len()
            invariant
                k <= self.index@.len(),
                !pairs_have(self.index@, k as int, subject@, id@),
            decreases self.index.len() - k,
        {
            if str_eq(self.index[k].0.as_str(), subject) && str_eq(self.index[k].1.as_str(), id) {
                assert(pairs_have(self.index@, self.index@.len() as int, subject@, id@)) by {
                    assert(self.index@[k as int].0@ == subject@);
                }
                return true;
            }
            k = k + 1;
        }
        false
    }

    /// Removes a session and its subscriptions; returns its information.
    pub fn remove(&mut self, connection_id: &str) -> (r: Option<ConnectionInfo>)
        requires
            old(self).wf(),
        ensures
            final(self).wf(),
            final(self).entries() == without(old(self).entries(), connection_id@),
            match r {
                Some(info) => lookup(old(self).entries(), connection_id@) == Some(info@),
                None => lookup(old(self).entries(), connection_id@) is None,
            },
            final(self).queue_of(connection_id@) is None,
            forall|id: Seq<char>|
                id != connection_id@ ==> #[trigger] final(self).queue_of(id) == old(self).queue_of(id),
    {
        let ghost id = connection_id@;
        match self.position(connection_id) {
            None => {
                proof {
                    lemma_without_absent(self.entries(), id);
                    self.lemma_unique_entries();
                    lemma_queue_char(self.connections@, id);
                    assert forall|k: int| 0 <= k < self.connections@.len() implies (
                    #[trigger] self.connections@[k]).info.connection_id@ != id by {
                        assert(self.entries()[k] == self.connections@[k].info@);
                    }
                }
                None
            },
            Some(i) => {
                let ghost old_entries = self.entries();
                let ghost old_conns = self.connections@;
                proof {
                    lemma_without_at(old_entries, id, i as int);
                    self.lemma_unique_entries();
                    assert(old_entries[i as int] == old_conns[i as int].info@);
                    assert forall|x: Seq<char>| x != id implies entry_queue(old_conns.remove(i as int), x)
                        == #[trigger] entry_queue(old_conns, x) by {
                        lemma_queue_after_remove(old_conns, i as int, x);
                    }
                    let after = old_conns.remove(i as int);
                    lemma_unique_after_remove(old_conns, i as int);
                    lemma_queue_char(after, id);
                    assert forall|k: int| 0 <= k < after.len() implies (#[trigger] after[k]).info.connection_id@
                        != id by {
                        let k0 = if k < i { k } else { k + 1 };
                        assert(after[k] == old_conns[k0]);
                        assert(old_entries[k0] == old_conns[k0].info@);
                    }
                }
                let entry = self.connections.remove(i);
                assert(self.entries() =~= old_entries.remove(i as int));
                let mut kept: Vec<(String, String)> = Vec::new();
                let mut k: usize = 0;
                while k < self.index.len()
                    invariant
                        k <= self.index@.len(),
                        id == connection_id@,
                        forall|s: Seq<char>, x: Seq<char>|
                            #[trigger] pairs_have(kept@, kept@.len() as int, s, x) <==> (x != id
                                && pairs_have(self.index@, k as int, s, x)),
                    decreases self.index.len() - k,
                {
                    let ghost before = kept@;
                    if !str_eq(self.index[k].1.as_str(), connection_id) {
                        let a = self.index[k].0.clone();
                        let b = self.index[k].1.clone();
                        kept.push((a, b));
                        assert(kept@.drop_last() =~= before);
                    }
                    proof {
                        lemma_kept_step(before, kept@, self.index@, k as int, id);
                    }
                    k = k + 1;
                }
                let ghost old_index = self.index@;
                self.index = kept;
                proof {
                    let es = self.entries();
                    assert forall|a: int, b: int| 0 <= a < b < es.len() implies (
                    #[trigger] es[a]).connection_id != (#[trigger] es[b]).connection_id by {
                        let a0 = if a < i { a } else { a + 1 };
                        let b0 = if b < i { b } else { b + 1 };
                        assert(es[a] == old_entries[a0]);
                        assert(es[b] == old_entries[b0]);
                    }
                    assert forall|s: Seq<char>, x: Seq<char>| #[trigger]
                        self.indexed(s, x) <==> self.subscribed(s, x) by {
                        assert(self.indexed(s, x) == (x != id && pairs_have(old_index, old_index.len() as int, s, x)));
                        assert(old(self).indexed(s, x) == pairs_have(old_index, old_index.len() as int, s, x));
                        assert(old(self).indexed(s, x) == old(self).subscribed(s, x));
                        assert(old(self).entries() == old_entries);
                        if self.subscribed(s, x) {
                            let j = choose|j: int|
                                0 <= j < es.len() && (#[trigger] es[j]).connection_id == x
                                    && es[j].subjects.contains(s);
                            let j0 = if j < i { j } else { j + 1 };
                            assert(es[j] == old_entries[j0]);
                            assert(old_entries[j0].connection_id != id);
                        }
                        if x != id && pairs_have(old_index, old_index.len() as int, s, x) {
                            let j0 = choose|j: int|
                                0 <= j < old_entries.len() && (#[trigger] old_entries[j]).connection_id == x
                                    && old_entries[j].subjects.contains(s);
                            assert(j0 != i);
                            let j = if j0 < i { j0 } else { j0 - 1 };
                            assert(es[j] == old_entries[j0]);
                        }
                    }
                }
                Some(entry.info)
            },
        }
    }

    /// Registers a session with its outbound queue. A session already
    /// registered under the same id is replaced, with its subscriptions.
    pub fn add(&mut self, info: ConnectionInfo, sender: UnboundedSender<OutboundFrame>)
        requires
            old(self).wf(),
        ensures
            final(self).wf(),
            final(self).entries() == without(old(self).entries(), info@.connection_id).push(info@),
            final(self).queue_of(info@.connection_id) == Some(sender),
            forall|id: Seq<char>|
                id != info@.connection_id ==> #[trigger] final(self).queue_of(id) == old(self).queue_of(id),
    {
        let _ = self.remove(info.connection_id.as_str());
        let ghost mid = *self;
        let ghost conns_mid = self.connections@;
        let ghost base = self.entries();
        let ghost id = info@.connection_id;
        proof {
            lemma_without_excludes(old(self).entries(), id);
            assert forall|s: Seq<char>, x: Seq<char>|
                #[trigger] pairs_have(self.index@, self.index@.len() as int, s, x) <==> (
                subscribed_in(base, s, x) || (x == id && exists|j2: int|
                    0 <= j2 < 0 && (#[trigger] info.subjects@[j2])@ == s)) by {
                assert(self.indexed(s, x) == pairs_have(self.index@, self.index@.len() as int, s, x));
            }
        }
        let mut j: usize = 0;
        while j < info.subjects.len()
            invariant
                j <= info.subjects@.len(),
                id == info@.connection_id,
                self.connections@ == conns_mid,
                self.entries() == base,
                self.ids_unique(),
                forall|k: int| 0 <= k < base.len() ==> (#[trigger] base[k]).connection_id != id,
                forall|s: Seq<char>, x: Seq<char>|
                    #[trigger] pairs_have(self.index@, self.index@.len() as int, s, x) <==> (
                    subscribed_in(base, s, x) || (x == id && exists|j2: int|
                        0 <= j2 < j && (#[trigger] info.subjects@[j2])@ == s)),
            decreases info.subjects.len() - j,
        {
            let ghost before = self.index@;
            if !self.has_pair(info.subjects[j].as_str(), info.connection_id.as_str()) {
                let a = info.subjects[j].clone();
                let b = info.connection_id.clone();
                let pair = (a, b);
                proof {
                    lemma_pairs_push(before, pair);
                }
                self.index.push(pair);
            }
            proof {
                let subj = info.subjects@[j as int]@;
                assert forall|s: Seq<char>, x: Seq<char>|
                    #[trigger] pairs_have(self.index@, self.index@.len() as int, s, x) <==> (
                    subscribed_in(base, s, x) || (x == id && exists|j2: int|
                        0 <= j2 < j + 1 && (#[trigger] info.subjects@[j2])@ == s)) by {
                    assert(pairs_have(before, before.len() as int, s, x) <==> (subscribed_in(base, s, x) || (
                    x == id && exists|j2: int| 0 <= j2 < j && (#[trigger] info.subjects@[j2])@ == s)));
                    if x == id && s == subj {
                        assert(info.subjects@[j as int]@ == s);
                    }
                    if x == id && exists|j2: int| 0 <= j2 < j + 1 && (#[trigger] info.subjects@[j2])@ == s {
                        let j2 = choose|j2: int| 0 <= j2 < j + 1 && (#[trigger] info.subjects@[j2])@ == s;
                        if j2 < j {
                            assert(exists|j3: int| 0 <= j3 < j && (#[trigger] info.subjects@[j3])@ == s);
                        }
                    }
                }
            }
            j = j + 1;
        }
        let ghost index_now = self.index@;
        let ghost entry_sender = sender;
        self.connections.push(ConnectionEntry { info, sender });
        proof {
            assert(self.connections@.drop_last() =~= conns_mid);
            assert(self.queue_of(id) == Some(entry_sender));
            assert forall|x: Seq<char>| x != id implies #[trigger] self.queue_of(x) == old(self).queue_of(
                x,
            ) by {
                assert(mid.queue_of(x) == old(self).queue_of(x));
                assert(self.queue_of(x) == entry_queue(conns_mid, x));
            }
            let es = self.entries();
            assert(es =~= base.push(info@));
            assert forall|a: int, b: int| 0 <= a < b < es.len() implies (
            #[trigger] es[a]).connection_id != (#[trigger] es[b]).connection_id by {
                if b == es.len() - 1 {
                    assert(es[a] == base[a]);
                } else {
                    assert(es[a] == base[a]);
                    assert(es[b] == base[b]);
                }
            }
            assert forall|s: Seq<char>, x: Seq<char>| #[trigger]
                self.indexed(s, x) <==> self.subscribed(s, x) by {
                assert(self.indexed(s, x) == pairs_have(index_now, index_now.len() as int, s, x));
                let old_sub = subscribed_in(base, s, x);
                let new_sub = x == id && exists|j2: int|
                    0 <= j2 < info.subjects@.len() && (#[trigger] info.subjects@[j2])@ == s;
                if self.subscribed(s, x) {
                    let i = choose|i: int|
                        0 <= i < es.len() && (#[trigger] es[i]).connection_id == x
                            && es[i].subjects.contains(s);
                    if i < base.len() {
                        assert(es[i] == base[i]);
                        assert(old_sub);
                    } else {
                        let j2 = choose|j2: int| 0 <= j2 < es[i].subjects.len() && es[i].subjects[j2] == s;
                        assert(info.subjects@[j2]@ == s);
                    }
                }
                if old_sub {
                    let i = choose|i: int|
                        0 <= i < base.len() && (#[trigger] base[i]).connection_id == x
                            && base[i].subjects.contains(s);
                    assert(es[i] == base[i]);
                }
                if new_sub {
                    let j2 = choose|j2: int|
                        0 <= j2 < info.subjects@.len() && (#[trigger] info.subjects@[j2])@ == s;
                    assert(es[es.len() - 1] == info@);
                    assert(info@.subjects[j2] == s);
                    assert(es[es.len() - 1].subjects.contains(s));
                }
            }
        }
    }

    /// The live sessions that pass the optional subject and user filters, in
    /// the order they were added.
    pub fn list_connections(&self, subject: Option<String>, user_id: Option<String>) -> (r: Vec<
        ConnectionInfo,
    >)
        ensures
            info_views(r@) == matching(self.entries(), opt_view(subject), opt_view(user_id)),
    {
        let mut results: Vec<ConnectionInfo> = Vec::new();
        let mut i: usize = 0;
        while i < self.connections.len()
            invariant
                i <= self.connections@.len(),
                self.entries().len() == self.connections@.len(),
                info_views(results@) == matching(
                    self.entries().subrange(0, i as int),
                    opt_view(subject),
                    opt_view(user_id),
                ),
            decreases self.connections.len() - i,
        {
            let info = &self.connections[i].info;
            let subject_ok = match &subject {
                Some(s) => contains_str(&info.subjects, s.as_str()),
                None => true,
            };
            let user_ok = match &user_id {
                Some(u) => str_eq(info.user_id.as_str(), u.as_str()),
                None => true,
            };
            let ghost prefix = self.entries().subrange(0, i + 1);
            assert(prefix.drop_last() =~= self.entries().subrange(0, i as int));
            assert(prefix.last() == info@);
            if subject_ok && user_ok {
                let c = info.copy();
                let ghost before = results@;
                results.push(c);
                assert(info_views(results@) =~= info_views(before).push(c@));
            }
            i = i + 1;
        }
        assert(self.entries().subrange(0, i as int) =~= self.entries());
        results
    }

    /// Whether live session `i` subscribes to one of `subjects`.
    pub open spec fn is_target(&self, i: int, subjects: Seq<Seq<char>>) -> bool {
        exists|j: int| 0 <= j < subjects.len() && self.entries()[i].subjects.contains(#[trigger] subjects[j])
    }

    /// The positions below `n` of the live sessions that subscribe to one
    /// of `subjects`, ascending.
    pub open spec fn targets_below(&self, subjects: Seq<Seq<char>>, n: int) -> Seq<int>
        decreases n,
    {
        if n <= 0 {
            Seq::empty()
        } else if self.is_target(n - 1, subjects) {
            self.targets_below(subjects, n - 1).push(n - 1)
        } else {
            self.targets_below(subjects, n - 1)
        }
    }

    /// The positions of the live sessions that subscribe to one of
    /// `subjects`, each once, ascending.
    pub open spec fn targets(&self, subjects: Seq<Seq<char>>) -> Seq<int> {
        self.targets_below(subjects, self.entries().len() as int)
    }

    /// The outbound queue of a live session.
    pub fn queue(&self, connection_id: &str) -> (r: Option<&UnboundedSender<OutboundFrame>>)
        requires
            self.wf(),
        ensures
            match r {
                Some(q) => self.queue_of(connection_id@) == Some(*q),
                None => self.queue_of(connection_id@) is None,
            },
    {
        proof {
            self.lemma_unique_entries();
            lemma_queue_char(self.connections@, connection_id@);
        }
        match self.position(connection_id) {
            Some(i) => {
                assert(self.entries()[i as int] == self.connections@[i as int].info@);
                Some(&self.connections[i].sender)
            },
            None => {
                assert forall|k: int| 0 <= k < self.connections@.len() implies (
                #[trigger] self.connections@[k]).info.connection_id@ != connection_id@ by {
                    assert(self.entries()[k] == self.connections@[k].info@);
                }
                None
            },
        }
    }

    /// Hands `frame`, unchanged, to the outbound queue of session
    /// `connection_id` (`queue_of`); the record says so. False, and no
    /// record, when there is no such session; false too when its queue is
    /// closed.
    pub fn send_message(&self, connection_id: &str, frame: OutboundFrame) -> (r: (bool, Ghost<Option<Offer>>))
        requires
            self.wf(),
        ensures
            match self.queue_of(connection_id@) {
                None => !r.0 && r.1@ is None,
                Some(q) => r.1@ == Some(Offer { queue: q, frame, accepted: r.0 }),
            },
    {
        match self.queue(connection_id) {
            Some(q) => {
                let (ok, rec) = offer(q, frame);
                (ok, Ghost(Some(rec@)))
            },
            None => (false, Ghost(None)),
        }
    }

    /// The positions of the live sessions subscribed to one of `subjects`,
    /// found through the subject index (see `targets`).
    pub fn subject_targets(&self, subjects: &Vec<String>) -> (r: Vec<usize>)
        requires
            self.wf(),
        ensures
            r@.map_values(|p: usize| p as int) == self.targets(subjects.deep_view()),
            forall|k: int| 0 <= k < r@.len() ==> #[trigger] r@[k] < self.entries().len(),
    {
        let ghost q = subjects.deep_view();
        let mut r: Vec<usize> = Vec::new();
        let mut i: usize = 0;
        while i < self.connections.len()
            invariant
                self.wf(),
                q == subjects.deep_view(),
                i <= self.connections@.len(),
                self.entries().len() == self.connections@.len(),
                r@.map_values(|p: usize| p as int) == self.targets_below(q, i as int),
                forall|k: int| 0 <= k < r@.len() ==> #[trigger] r@[k] < i,
            decreases self.connections.len() - i,
        {
            let id = self.connections[i].info.connection_id.as_str();
            let ghost e = self.entries()[i as int];
            assert(e == self.connections@[i as int].info@);
            let mut hit = false;
            let mut j: usize = 0;
            while j < subjects.len()
                invariant
                    self.wf(),
                    q == subjects.deep_view(),
                    i < self.entries().len(),
                    e == self.entries()[i as int],
                    id@ == e.connection_id,
                    j <= subjects@.len(),
                    hit <==> exists|j2: int| 0 <= j2 < j && e.subjects.contains(#[trigger] q[j2]),
                decreases subjects.len() - j,
            {
                let found = self.has_pair(subjects[j].as_str(), id);
                proof {
                    let s = q[j as int];
                    assert(s == subjects@[j as int]@);
                    assert(self.indexed(s, id@) == self.subscribed(s, id@));
                    if self.subscribed(s, id@) {
                        let m = choose|m: int|
                            0 <= m < self.entries().len() && (#[trigger] self.entries()[m]).connection_id
                                == id@ && self.entries()[m].subjects.contains(s);
                        if m != i {
                            let (a, b) = if m < i { (m, i as int) } else { (i as int, m) };
                            assert(self.entries()[a].connection_id != self.entries()[b].connection_id);
                        }
                    }
                    assert(found == e.subjects.contains(s));
                }
                if found {
                    hit = true;
                }
                j = j + 1;
            }
            let ghost before = r@;
            if hit {
                r.push(i);
                assert(r@.map_values(|p: usize| p as int) =~= before.map_values(|p: usize| p as int).push(
                    i as int,
                ));
            }
            assert(hit == self.is_target(i as int, q));
            i = i + 1;
        }
        r
    }

    /// Offers the event envelope of `payload_json` once to the queue of each
    /// session in `subject_targets(subjects)`, in that order, and to no other
    /// queue; returns how many queues took it, with the record of the offers.
    pub fn send_to_subjects(&self, subjects: &Vec<String>, payload_json: &str) -> (r: (usize, Ghost<Seq<Offer>>))
        requires
            self.wf(),
        ensures
            r.1@.len() == self.targets(subjects.deep_view()).len(),
            forall|k: int|
                0 <= k < r.1@.len() ==> Some((#[trigger] r.1@[k]).queue) == self.queue_of(
                    self.entries()[self.targets(subjects.deep_view())[k]].connection_id,
                ) && is_envelope(r.1@[k].frame, payload_json@),
            r.0 == accepted_count(r.1@),
    {
        let targets = self.subject_targets(subjects);
        let ghost ts = self.targets(subjects.deep_view());
        let text = event_envelope(payload_json);
        let ghost mut log: Seq<Offer> = Seq::empty();
        let mut sent: usize = 0;
        let mut t: usize = 0;
        proof {
            self.lemma_unique_entries();
        }
        while t < targets.len()
            invariant
                self.wf(),
                entry_ids_unique(self.connections@),
                sent <= t,
                t <= targets@.len(),
                self.entries().len() == self.connections@.len(),
                ts == targets@.map_values(|p: usize| p as int),
                text@ == envelope(payload_json@),
                forall|k: int| 0 <= k < targets@.len() ==> #[trigger] targets@[k] < self.entries().len(),
                log.len() == t,
                sent == accepted_count(log),
                forall|k: int|
                    0 <= k < t ==> Some((#[trigger] log[k]).queue) == self.queue_of(
                        self.entries()[ts[k]].connection_id,
                    ) && is_envelope(log[k].frame, payload_json@),
            decreases targets.len() - t,
        {
            let p = targets[t];
            let ghost id = self.connections@[p as int].info.connection_id@;
            proof {
                lemma_queue_char(self.connections@, id);
                assert(self.entries()[p as int] == self.connections@[p as int].info@);
                assert(ts[t as int] == p as int);
            }
            let (ok, rec) = offer(&self.connections[p].sender, OutboundFrame::Text(text.clone()));
            let ghost before = log;
            proof {
                log = log.push(rec@);
                assert(log.drop_last() =~= before);
            }
            if ok {
                sent = sent + 1;
            }
            proof {
                assert forall|k: int| 0 <= k < t + 1 implies Some((#[trigger] log[k]).queue)
                    == self.queue_of(self.entries()[ts[k]].connection_id) && is_envelope(
                    log[k].frame,
                    payload_json@,
                ) by {
                    if k < t {
                        assert(log[k] == before[k]);
                    }
                }
            }
            t = t + 1;
        }
        (sent, Ghost(log))
    }

    proof fn lemma_unique_entries(&self)
        requires
            self.ids_unique(),
        ensures
            entry_ids_unique(self.connections@),
    {
        assert forall|a: int, b: int| 0 <= a < b < self.connections@.len() implies (
        #[trigger] self.connections@[a]).info.connection_id@ != (
        #[trigger] self.connections@[b]).info.connection_id@ by {
            assert(self.entries()[a] == self.connections@[a].info@);
            assert(self.entries()[b] == self.connections@[b].info@);
        }
    }

    fn position(&self, id: &str) -> (r: Option<usize>)
        requires
            self.wf(),
        ensures
            match r {
                Some(i) => i < self.entries().len() && self.entries()[i as int].connection_id
                    == id@,
                None => forall|i: int|
                    0 <= i < self.entries().len() ==> (#[trigger] self.entries()[i]).connection_id
                        != id@,
            },
    {
        let mut i: usize = 0;
        while i < self.connections.len()
            invariant
                i <= self.entries().len(),
                self.entries().len() == self.connections@.len(),
                forall|k: int|
                    0 <= k < i ==> (#[trigger] self.entries()[k]).connection_id != id@,
            decreases self.connections.len() - i,
        {
            if str_eq(self.connections[i].info.connection_id.as_str(), id) {
                return Some(i);
            }
            i = i + 1;
        }
        None
    }
}

/// The subject index matches the live sessions. In every registry that
/// `new`, `add` and `remove` produce, a session id is listed under a subject
/// exactly when that session is live and subscribed to the subject, and a
/// subject is kept in the index only while some live session subscribes to it.
pub proof fn subject_index_matches_sessions(m: &ConnectionManager, subject: Seq<char>, id: Seq<char>)
    requires
        m.wf(),
    ensures
        m.indexed(subject, id) <==> m.subscribed(subject, id),
        m.has_subject(subject) <==> exists|x: Seq<char>| m.subscribed(subject, x),
{
    if m.has_subject(subject) {
        let k = choose|k: int| 0 <= k < m.index@.len() && (#[trigger] m.index@[k]).0@ == subject;
        let x = m.index@[k].1@;
        assert(m.indexed(subject, x));
        assert(m.subscribed(subject, x));
    }
    if exists|x: Seq<char>| m.subscribed(subject, x) {
        let x = choose|x: Seq<char>| m.subscribed(subject, x);
        assert(m.indexed(subject, x));
        let k = choose|k: int|
            0 <= k < m.index@.len() && (#[trigger] m.index@[k]).0@ == subject && m.index@[k].1@ == x;
        assert(m.has_subject(subject));
    }
}

} // verus!
