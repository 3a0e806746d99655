//! The connection registry: the store of per-tunnel state, keyed by token and
//! port.  Entries are created lazily on first proxy access, touched on every
//! proxied request, and retired by the cleanup sweep.

use vstd::prelude::*;

use crate::naming::{generate_connection_name, spec_connection_name};
use crate::strutil::str_eq;

verus! {

/// The lifecycle state of one tunnel.  Within one episode the transitions are
/// monotone, `Starting` to `Online` to `Stopped`, or `Starting` to `Error`;
/// a fresh start attempt is the only back-edge, re-promoting to `Starting`.
#[derive(Clone, Copy, Debug, PartialEq, Eq, Structural)]
pub enum TunnelStatus {
    Starting,
    Online,
    Stopped,
    Error,
}

/// One registry entry: the tunnel for a token and local port, the externally
/// visible name of its agent process, its lifecycle status, and the time it
/// last carried a request.
pub struct TunnelState {
    pub token: String,
    pub port: u16,
    pub process_name: String,
    pub status: TunnelStatus,
    pub last_used: u64,
}

/// The mathematical image of one registry entry.
pub ghost struct TunnelStateModel {
    pub token: Seq<char>,
    pub port: u16,
    pub process_name: Seq<char>,
    pub status: TunnelStatus,
    pub last_used: u64,
}

impl View for TunnelState {
    type V = TunnelStateModel;

    open spec fn view(&self) -> TunnelStateModel {
        TunnelStateModel {
            token: self.token@,
            port: self.port,
            process_name: self.process_name@,
            status: self.status,
            last_used: self.last_used,
        }
    }
}

impl Clone for TunnelState {
    fn clone(&self) -> (r: Self)
        ensures
            r@ == self@,
    {
        TunnelState {
            token: self.token.clone(),
            port: self.port,
            process_name: self.process_name.clone(),
            status: self.status,
            last_used: self.last_used,
        }
    }
}

/// The routing key of an entry.
pub open spec fn spec_key(e: TunnelStateModel) -> (Seq<char>, u16) {
    (e.token, e.port)
}

/// Whether some entry carries the given key.
pub open spec fn has_key(rs: Seq<TunnelStateModel>, token: Seq<char>, port: u16) -> bool {
    exists|i: int| 0 <= i < rs.len() && spec_key(rs[i]) == (token, port)
}

/// The index of the entry with the given key; meaningful under `has_key` and
/// well-formedness.
pub open spec fn index_of_key(rs: Seq<TunnelStateModel>, token: Seq<char>, port: u16) -> int {
    choose|i: int| 0 <= i < rs.len() && spec_key(rs[i]) == (token, port)
}

/// At most one entry per key.
pub open spec fn spec_wf(rs: Seq<TunnelStateModel>) -> bool {
    forall|i: int, j: int|
        0 <= i < rs.len() && 0 <= j < rs.len() && spec_key(rs[i]) == spec_key(rs[j]) ==> i == j
}

/// The entry that `get_or_create` makes for a key it has never seen: status
/// `Starting`, the deterministic process name, and the current time.
pub open spec fn spec_new_entry(token: Seq<char>, port: u16, now: u64) -> TunnelStateModel {
    TunnelStateModel {
        token: token,
        port: port,
        process_name: spec_connection_name(token, port),
        status: TunnelStatus::Starting,
        last_used: now,
    }
}

/// What `get_or_create` does: an existing entry is returned unchanged, and an
/// absent key gains a fresh `Starting` entry.
pub open spec fn spec_get_or_create(
    rs: Seq<TunnelStateModel>,
    token: Seq<char>,
    port: u16,
    now: u64,
) -> (Seq<TunnelStateModel>, TunnelStateModel) {
    if has_key(rs, token, port) {
        (rs, rs[index_of_key(rs, token, port)])
    } else {
        (rs.push(spec_new_entry(token, port, now)), spec_new_entry(token, port, now))
    }
}

/// What `touch` does: refresh `last_used` of the entry with the key, if any.
pub open spec fn spec_touch(
    rs: Seq<TunnelStateModel>,
    token: Seq<char>,
    port: u16,
    now: u64,
) -> Seq<TunnelStateModel> {
    if has_key(rs, token, port) {
        let i = index_of_key(rs, token, port);
        rs.update(i, TunnelStateModel { last_used: now, ..rs[i] })
    } else {
        rs
    }
}

/// What `set_status` does: move the entry with the key, if any, to `status`.
pub open spec fn spec_set_status(
    rs: Seq<TunnelStateModel>,
    token: Seq<char>,
    port: u16,
    status: TunnelStatus,
) -> Seq<TunnelStateModel> {
    if has_key(rs, token, port) {
        let i = index_of_key(rs, token, port);
        rs.update(i, TunnelStateModel { status: status, ..rs[i] })
    } else {
        rs
    }
}

/// Whether an entry is idle beyond the time-to-live at `now`: it is `Online`
/// and was last used more than `ttl` ago.
pub open spec fn spec_stale(e: TunnelStateModel, now: u64, ttl: u64) -> bool {
    e.status == TunnelStatus::Online && e.last_used <= now && now - e.last_used > ttl
}

/// What `sweep` reports: the entries idle beyond the time-to-live, in order.
pub open spec fn spec_sweep(rs: Seq<TunnelStateModel>, now: u64, ttl: u64) -> Seq<
    TunnelStateModel,
> {
    rs.filter(|e: TunnelStateModel| spec_stale(e, now, ttl))
}

/// `touch` keeps well-formedness, length and keys, refreshes `last_used` at
/// the touched key, and leaves every other entry as it was.
pub proof fn lemma_touch_props(rs: Seq<TunnelStateModel>, token: Seq<char>, port: u16, now: u64)
    requires
        spec_wf(rs),
    ensures
        spec_wf(spec_touch(rs, token, port, now)),
        spec_touch(rs, token, port, now).len() == rs.len(),
        forall|k: int|
            0 <= k < rs.len() ==> spec_key(#[trigger] spec_touch(rs, token, port, now)[k])
                == spec_key(rs[k]),
        forall|k: int|
            0 <= k < rs.len() && spec_key(rs[k]) != (token, port)
                ==> #[trigger] spec_touch(rs, token, port, now)[k] == rs[k],
        forall|k: int|
            0 <= k < rs.len() && spec_key(rs[k]) == (token, port)
                ==> #[trigger] spec_touch(rs, token, port, now)[k] == (TunnelStateModel {
                last_used: now,
                ..rs[k]
            }),
{
    if has_key(rs, token, port) {
        let i = index_of_key(rs, token, port);
        assert(0 <= i < rs.len() && spec_key(rs[i]) == (token, port));
    }
}

/// `set_status` keeps well-formedness, length and keys, moves the status at
/// the addressed key, and leaves every other entry as it was.
pub proof fn lemma_set_status_props(
    rs: Seq<TunnelStateModel>,
    token: Seq<char>,
    port: u16,
    status: TunnelStatus,
)
    requires
        spec_wf(rs),
    ensures
        spec_wf(spec_set_status(rs, token, port, status)),
        spec_set_status(rs, token, port, status).len() == rs.len(),
        forall|k: int|
            0 <= k < rs.len() ==> spec_key(#[trigger] spec_set_status(rs, token, port, status)[k])
                == spec_key(rs[k]),
        forall|k: int|
            0 <= k < rs.len() && spec_key(rs[k]) != (token, port)
                ==> #[trigger] spec_set_status(rs, token, port, status)[k] == rs[k],
        forall|k: int|
            0 <= k < rs.len() && spec_key(rs[k]) == (token, port)
                ==> #[trigger] spec_set_status(rs, token, port, status)[k] == (TunnelStateModel {
                status: status,
                ..rs[k]
            }),
{
    if has_key(rs, token, port) {
        let i = index_of_key(rs, token, port);
        assert(0 <= i < rs.len() && spec_key(rs[i]) == (token, port));
    }
}

/// `get_or_create` keeps well-formedness, establishes the key, and the entry
/// it returns is the canonical one at the key.
pub proof fn lemma_get_or_create_props(
    rs: Seq<TunnelStateModel>,
    token: Seq<char>,
    port: u16,
    now: u64,
)
    requires
        spec_wf(rs),
    ensures
        ({
            let (rs1, e) = spec_get_or_create(rs, token, port, now);
            &&& spec_wf(rs1)
            &&& has_key(rs1, token, port)
            &&& spec_key(e) == (token, port)
            &&& rs1[index_of_key(rs1, token, port)] == e
            &&& forall|k: int|
                0 <= k < rs.len() && spec_key(rs[k]) != (token, port) ==> rs1[k] == rs[k]
            &&& rs.len() <= rs1.len() <= rs.len() + 1
        }),
{
    let (rs1, e) = spec_get_or_create(rs, token, port, now);
    if has_key(rs, token, port) {
        let i = index_of_key(rs, token, port);
        assert(0 <= i < rs.len() && spec_key(rs[i]) == (token, port));
    } else {
        let n = rs.len() as int;
        assert(rs1[n] == spec_new_entry(token, port, now));
        assert(spec_key(rs1[n]) == (token, port));
        assert forall|i: int, j: int|
            0 <= i < rs1.len() && 0 <= j < rs1.len() && spec_key(rs1[i]) == spec_key(
                rs1[j],
            ) implies i == j by {
            if i < n && j < n {
                assert(spec_wf(rs));
            } else if i < n && j == n {
                assert(spec_key(rs[i]) != (token, port));
            } else if i == n && j < n {
                assert(spec_key(rs[j]) != (token, port));
            }
        }
        let i = index_of_key(rs1, token, port);
        assert(0 <= i < rs1.len() && spec_key(rs1[i]) == (token, port));
        assert(i == n);
    }
}

/// The canonical-entry law of `get_or_create`: once a key exists, a second
/// call with the same key changes nothing and hands back the same entry, so
/// two interleaved calls can never leave two distinct entries behind; the
/// first to commit wins and the other observes it.
pub proof fn lemma_get_or_create_idempotent(
    rs: Seq<TunnelStateModel>,
    token: Seq<char>,
    port: u16,
    now1: u64,
    now2: u64,
)
    requires
        spec_wf(rs),
    ensures
        ({
            let (rs1, e1) = spec_get_or_create(rs, token, port, now1);
            let (rs2, e2) = spec_get_or_create(rs1, token, port, now2);
            rs2 == rs1 && e2 == e1
        }),
{
    lemma_get_or_create_props(rs, token, port, now1);
    let (rs1, e1) = spec_get_or_create(rs, token, port, now1);
    assert(has_key(rs1, token, port));
}

/// The concurrency-safe store of tunnel state.  The structure itself is a
/// sequential map with verified operations; the shell around the library
/// serializes access to it, keeping each critical section to one operation.
pub struct Registry {
    entries: Vec<TunnelState>,
}

impl View for Registry {
    type V = Seq<TunnelStateModel>;

    closed spec fn view(&self) -> Seq<TunnelStateModel> {
        Seq::new(self.entries@.len(), |i: int| self.entries@[i]@)
    }
}

impl Registry {
    /// At most one entry per key.
    pub open spec fn wf(&self) -> bool {
        spec_wf(self@)
    }

    /// An empty registry.
    pub fn new() -> (r: Registry)
        ensures
            r@ =~= Seq::<TunnelStateModel>::empty(),
            r.wf(),
    {
        Registry { entries: Vec::new() }
    }

    /// The position of the entry with the given key.
    fn find(&self, token: &str, port: u16) -> (r: Option<usize>)
        ensures
            match r {
                Some(i) => i < self@.len() && spec_key(self@[i as int]) == (token@, port),
                None => !has_key(self@, token@, port),
            },
    {
        let mut i: usize = 0;
        while i < self.entries.len()
            invariant
                i <= self@.len(),
                self@.len() == self.entries@.len(),
                forall|j: int| 0 <= j < i ==> spec_key(self@[j]) != (token@, port),
            decreases self@.len() - i,
        {
            let e = &self.entries[i];
            if e.port == port && str_eq(e.token.as_str(), token) {
                return Some(i);
            }
            i = i + 1;
        }
        None
    }

    /// Under well-formedness, any index whose entry carries the key is the
    /// key's index.
    proof fn lemma_found_index(&self, token: Seq<char>, port: u16, i: int)
        requires
            self.wf(),
            0 <= i < self@.len(),
            spec_key(self@[i]) == (token, port),
        ensures
            has_key(self@, token, port),
            index_of_key(self@, token, port) == i,
    {
        assert(has_key(self@, token, port));
        let j = index_of_key(self@, token, port);
        assert(spec_key(self@[j]) == (token, port));
    }

    /// Returns the entry for the key, creating it with status `Starting` if
    /// absent; an existing entry is returned without any mutation.
    pub fn get_or_create(&mut self, token: &str, port: u16, now: u64) -> (e: TunnelState)
        requires
            old(self).wf(),
        ensures
            final(self).wf(),
            final(self)@ == spec_get_or_create(old(self)@, token@, port, now).0,
            e@ == spec_get_or_create(old(self)@, token@, port, now).1,
    {
        match self.find(token, port) {
            Some(i) => {
                proof {
                    self.lemma_found_index(token@, port, i as int);
                }
                self.entries[i].clone()
            },
            None => {
                let name = generate_connection_name(token, port);
                let entry = TunnelState {
                    token: token.to_owned(),
                    port: port,
                    process_name: name,
                    status: TunnelStatus::Starting,
                    last_used: now,
                };
                let ghost old_view = self@;
                let result = entry.clone();
                self.entries.push(entry);
                proof {
                    assert(self@ =~= old_view.push(spec_new_entry(token@, port, now)));
                    assert forall|i: int, j: int|
                        0 <= i < self@.len() && 0 <= j < self@.len() && spec_key(self@[i])
                            == spec_key(self@[j]) implies i == j by {
                        if i < old_view.len() && j < old_view.len() {
                            assert(spec_wf(old_view));
                        }
                    }
                }
                result
            },
        }
    }

    /// Refreshes `last_used` of the entry with the key, if it exists.
    pub fn touch(&mut self, token: &str, port: u16, now: u64)
        requires
            old(self).wf(),
        ensures
            final(self).wf(),
            final(self)@ == spec_touch(old(self)@, token@, port, now),
    {
        let ghost old_view = self@;
        match self.find(token, port) {
            Some(i) => {
                proof {
                    self.lemma_found_index(token@, port, i as int);
                }
                let e = vstd::std_specs::vec::vec_index_mut(&mut self.entries, i);
                e.last_used = now;
                proof {
                    assert(self@ =~= spec_touch(old_view, token@, port, now));
                }
            },
            None => {},
        }
    }

    /// Moves the entry with the key, if it exists, to the given status.
    pub fn set_status(&mut self, token: &str, port: u16, status: TunnelStatus)
        requires
            old(self).wf(),
        ensures
            final(self).wf(),
            final(self)@ == spec_set_status(old(self)@, token@, port, status),
    {
        let ghost old_view = self@;
        match self.find(token, port) {
            Some(i) => {
                proof {
                    self.lemma_found_index(token@, port, i as int);
                }
                let e = vstd::std_specs::vec::vec_index_mut(&mut self.entries, i);
                e.status = status;
                proof {
                    assert(self@ =~= spec_set_status(old_view, token@, port, status));
                }
            },
            None => {},
        }
    }

    /// A copy of every entry, for diagnostics.
    pub fn snapshot(&self) -> (r: Vec<TunnelState>)
        ensures
            Seq::new(r@.len(), |i: int| r@[i]@) =~= self@,
    {
        let mut out: Vec<TunnelState> = Vec::new();
        let mut i: usize = 0;
        while i < self.entries.len()
            invariant
                i <= self.entries@.len(),
                self@.len() == self.entries@.len(),
                out@.len() == i,
                forall|j: int| 0 <= j < i ==> out@[j]@ == self@[j],
            decreases self.entries@.len() - i,
        {
            out.push(self.entries[i].clone());
            i = i + 1;
        }
        out
    }

    /// A copy of every entry idle beyond the time-to-live at `now`: `Online`,
    /// and last used more than `ttl` ago.
    pub fn sweep(&self, now: u64, ttl: u64) -> (r: Vec<TunnelState>)
        ensures
            Seq::new(r@.len(), |i: int| r@[i]@) =~= spec_sweep(self@, now, ttl),
    {
        let ghost pred = |e: TunnelStateModel| spec_stale(e, now, ttl);
        let mut out: Vec<TunnelState> = Vec::new();
        let mut i: usize = 0;
        proof {
            reveal(Seq::filter);
            assert(self@.take(0).filter(pred) =~= Seq::<TunnelStateModel>::empty());
        }
        while i < self.entries.len()
            invariant
                i <= self.entries@.len(),
                self@.len() == self.entries@.len(),
                pred == (|e: TunnelStateModel| spec_stale(e, now, ttl)),
                Seq::new(out@.len(), |k: int| out@[k]@) =~= self@.take(i as int).filter(pred),
            decreases self.entries@.len() - i,
        {
            let ghost prev = self@.take(i as int);
            let ghost prev_out = Seq::new(out@.len(), |k: int| out@[k]@);
            let e = &self.entries[i];
            if e.status == TunnelStatus::Online && e.last_used <= now && now - e.last_used > ttl {
                out.push(e.clone());
            }
            proof {
                reveal(Seq::filter);
                let cur = self@.take(i + 1);
                assert(cur.drop_last() =~= prev);
                assert(cur.last() == self@[i as int]);
                assert(Seq::new(out@.len(), |k: int| out@[k]@) =~= self@.take(i + 1).filter(pred));
            }
            i = i + 1;
        }
        proof {
            assert(self@.take(self@.len() as int) =~= self@);
        }
        out
    }
}

} // verus!
