//! The tunnel supervisor: the parser for the agent's listing output, and the
//! step-by-step protocol that ensures a tunnel agent process is online for a
//! token and port.

use vstd::prelude::*;

use crate::errors::ProxyError;
use crate::registry::{
    has_key, index_of_key, lemma_get_or_create_props, lemma_set_status_props, lemma_touch_props,
    spec_get_or_create, spec_key, spec_set_status, spec_touch, spec_wf, Registry,
    TunnelStateModel, TunnelStatus,
};
use crate::strutil::{
    find_char, first_where, is_ascii_space, is_space_char, lemma_first_where_at,
    lemma_first_where_props,
    lemma_trim_start_skip, spec_starts_with, spec_trim, spec_trim_start, starts_with, str_eq,
    trim_ascii,
};

verus! {

/// The lines of the agent's listing output: the pieces between newlines, with
/// one final piece after the last newline.
pub open spec fn spec_lines(s: Seq<char>) -> Seq<Seq<char>>
    decreases s.len(),
    via spec_lines_decreases
{
    let i = first_where(s, |c: char| c == '\n');
    if i >= s.len() {
        seq![s]
    } else {
        seq![s.take(i)] + spec_lines(s.skip(i + 1))
    }
}

#[via_fn]
proof fn spec_lines_decreases(s: Seq<char>) {
    lemma_first_where_props(s, |c: char| c == '\n');
}

/// The second whitespace-separated field of a line, if it has one: what
/// follows a listing label such as `Name:` on the same line.
pub open spec fn spec_second_field(s: Seq<char>) -> Option<Seq<char>> {
    let t0 = spec_trim_start(s);
    let rest = t0.skip(first_where(t0, |c: char| is_ascii_space(c)));
    let t1 = spec_trim_start(rest);
    if t1.len() == 0 {
        None
    } else {
        Some(t1.take(first_where(t1, |c: char| is_ascii_space(c))))
    }
}

/// Whether a trimmed listing line carries no record data: blank lines, rules
/// and the table header are passed over.
pub open spec fn spec_skip_line(t: Seq<char>) -> bool {
    t.len() == 0 || spec_starts_with(t, "---"@) || spec_starts_with(t, "ID"@)
}

/// How one trimmed listing line changes the (name, status) pair under
/// assembly: a `Name:` line supplies the name, a `Status:` line the status,
/// and a line without a second field supplies nothing.
pub open spec fn spec_line_step(
    t: Seq<char>,
    cur_name: Option<Seq<char>>,
    cur_status: Option<Seq<char>>,
) -> (Option<Seq<char>>, Option<Seq<char>>) {
    if spec_starts_with(t, "Name:"@) {
        match spec_second_field(t) {
            Some(f) => (Some(f), cur_status),
            None => (cur_name, cur_status),
        }
    } else if spec_starts_with(t, "Status:"@) {
        match spec_second_field(t) {
            Some(f) => (cur_name, Some(f)),
            None => (cur_name, cur_status),
        }
    } else {
        (cur_name, cur_status)
    }
}

/// Whether the listing lines report the target as online: records are
/// assembled from `Name:` and `Status:` lines; a completed pair either
/// matches the agent-prefixed target name with status `online`, or is
/// discarded whole.  Anything unparsable therefore degrades to "not
/// running".
pub open spec fn spec_scan(
    lines: Seq<Seq<char>>,
    target: Seq<char>,
    cur_name: Option<Seq<char>>,
    cur_status: Option<Seq<char>>,
) -> bool
    decreases lines.len(),
{
    if lines.len() == 0 {
        false
    } else {
        let t = spec_trim(lines[0]);
        if spec_skip_line(t) {
            spec_scan(lines.drop_first(), target, cur_name, cur_status)
        } else {
            let (n, s) = spec_line_step(t, cur_name, cur_status);
            if n is Some && s is Some {
                if n->0 == "holesail-"@ + target && s->0 == "online"@ {
                    true
                } else {
                    spec_scan(lines.drop_first(), target, None, None)
                }
            } else {
                spec_scan(lines.drop_first(), target, n, s)
            }
        }
    }
}

/// Whether the agent's listing output reports the tunnel named
/// `name` (as decorated with the agent's own prefix) in the `online` state.
pub open spec fn spec_listing_reports_online(stdout: Seq<char>, name: Seq<char>) -> bool {
    spec_scan(spec_lines(stdout), name, None, None)
}

/// The view of an optional owned string.
pub open spec fn opt_view(o: Option<String>) -> Option<Seq<char>> {
    match o {
        Some(s) => Some(s@),
        None => None,
    }
}

/// Extracts the second whitespace-separated field of a line, if any.
fn second_field(line: &str) -> (r: Option<String>)
    ensures
        opt_view(r) == spec_second_field(line@),
{
    let ghost sp = |c: char| is_ascii_space(c);
    let len = line.unicode_len();
    let mut a: usize = 0;
    while a < len && is_space_char(line.get_char(a))
        invariant
            len == line@.len(),
            a <= len,
            forall|k: int| 0 <= k < a ==> is_ascii_space(line@[k]),
        decreases len - a,
    {
        a = a + 1;
    }
    proof {
        lemma_trim_start_skip(line@, a as int);
    }
    let ghost t0 = line@.skip(a as int);
    let mut b: usize = a;
    while b < len && !is_space_char(line.get_char(b))
        invariant
            len == line@.len(),
            a <= b <= len,
            forall|k: int| a <= k < b ==> !is_ascii_space(line@[k]),
        decreases len - b,
    {
        b = b + 1;
    }
    proof {
        assert(forall|k: int| 0 <= k < b - a ==> t0[k] == line@[k + a]);
        if b < len {
            assert(t0[b - a] == line@[b as int]);
        }
        lemma_first_where_at(t0, sp, b - a);
        assert(t0.skip(b - a) =~= line@.skip(b as int));
    }
    let mut c: usize = b;
    while c < len && is_space_char(line.get_char(c))
        invariant
            len == line@.len(),
            b <= c <= len,
            forall|k: int| b <= k < c ==> is_ascii_space(line@[k]),
        decreases len - c,
    {
        c = c + 1;
    }
    proof {
        let rest = line@.skip(b as int);
        assert(forall|k: int| 0 <= k < c - b ==> rest[k] == line@[k + b]);
        if c < len {
            assert(rest[c - b] == line@[c as int]);
        }
        lemma_trim_start_skip(rest, c - b);
        assert(rest.skip(c - b) =~= line@.skip(c as int));
    }
    let ghost t1 = line@.skip(c as int);
    if c == len {
        proof {
            assert(t1.len() == 0);
        }
        return None;
    }
    let mut d: usize = c;
    while d < len && !is_space_char(line.get_char(d))
        invariant
            len == line@.len(),
            c <= d <= len,
            forall|k: int| c <= k < d ==> !is_ascii_space(line@[k]),
        decreases len - d,
    {
        d = d + 1;
    }
    proof {
        assert(forall|k: int| 0 <= k < d - c ==> t1[k] == line@[k + c]);
        if d < len {
            assert(t1[d - c] == line@[d as int]);
        }
        lemma_first_where_at(t1, sp, d - c);
    }
    let f = line.substring_char(c, d);
    proof {
        assert(f@ =~= t1.take(d - c));
    }
    Some(f.to_owned())
}

/// Decides from the agent's raw listing output whether the tunnel named
/// `connection_name` is reported online.  The agent decorates supplied names
/// with its own prefix, so the match is against the decorated name.
pub fn listing_reports_online(stdout: &str, connection_name: &str) -> (r: bool)
    ensures
        r == spec_listing_reports_online(stdout@, connection_name@),
{
    let ghost nl = |c: char| c == '\n';
    let mut expected = String::from_str("holesail-");
    expected.append(connection_name);
    let len = stdout.unicode_len();
    let mut p: usize = 0;
    let mut cur_name: Option<String> = None;
    let mut cur_status: Option<String> = None;
    proof {
        assert(stdout@.skip(0) =~= stdout@);
    }
    while p < len
        invariant
            nl == (|c: char| c == '\n'),
            len == stdout@.len(),
            p <= len,
            expected@ == "holesail-"@ + connection_name@,
            spec_listing_reports_online(stdout@, connection_name@) == spec_scan(
                spec_lines(stdout@.skip(p as int)),
                connection_name@,
                opt_view(cur_name),
                opt_view(cur_status),
            ),
        decreases len - p,
    {
        let suf = stdout.substring_char(p, len);
        let ghost suffix = stdout@.skip(p as int);
        proof {
            assert(suf@ =~= suffix);
        }
        let (line, next_p): (&str, usize) = match find_char(suf, '\n') {
            Some(i) => {
                proof {
                    assert forall|k: int| 0 <= k < i implies !nl(suffix[k]) by {
                        assert(suf@[k] != '\n');
                    }
                    assert(nl(suffix[i as int]));
                    lemma_first_where_at(suffix, nl, i as int);
                    assert(suffix.skip(i + 1) =~= stdout@.skip(p + i + 1));
                }
                (suf.substring_char(0, i), p + i + 1)
            },
            None => {
                proof {
                    assert forall|k: int| 0 <= k < suffix.len() implies !nl(suffix[k]) by {
                        assert(suf@[k] != '\n');
                    }
                    lemma_first_where_at(suffix, nl, suffix.len() as int);
                    assert(spec_lines(suffix) =~= seq![suffix]);
                }
                (suf, len)
            },
        };
        let ghost rest_lines = spec_lines(stdout@.skip(next_p as int));
        proof {
            if first_where(suffix, nl) >= suffix.len() {
                // the last line: what remains afterwards is the empty tail,
                // whose single empty line the scan passes over
                assert(stdout@.skip(len as int) =~= Seq::<char>::empty());
                lemma_first_where_at(Seq::<char>::empty(), nl, 0);
                assert(spec_lines(Seq::<char>::empty()) =~= seq![Seq::<char>::empty()]);
            } else {
                assert(spec_lines(suffix) =~= seq![line@] + rest_lines);
            }
            assert(spec_lines(suffix)[0] == line@);
            assert(spec_lines(suffix).len() > 0);
        }
        let t = trim_ascii(line);
        let t_len = t.unicode_len();
        let ghost pre_name = opt_view(cur_name);
        let ghost pre_status = opt_view(cur_status);
        if t_len == 0 || starts_with(t, "---") || starts_with(t, "ID") {
            proof {
                assert(spec_skip_line(t@));
            }
        } else {
            if starts_with(t, "Name:") {
                match second_field(t) {
                    Some(f) => {
                        cur_name = Some(f);
                    },
                    None => {},
                }
            } else if starts_with(t, "Status:") {
                match second_field(t) {
                    Some(f) => {
                        cur_status = Some(f);
                    },
                    None => {},
                }
            }
            proof {
                assert((opt_view(cur_name), opt_view(cur_status)) == spec_line_step(
                    t@,
                    pre_name,
                    pre_status,
                ));
            }
            if cur_name.is_some() && cur_status.is_some() {
                let n_ref = cur_name.as_ref().unwrap();
                let s_ref = cur_status.as_ref().unwrap();
                if str_eq(n_ref.as_str(), expected.as_str()) && str_eq(s_ref.as_str(), "online") {
                    return true;
                }
                cur_name = None;
                cur_status = None;
            }
        }
        proof {
            let tail = spec_lines(suffix).drop_first();
            if first_where(suffix, nl) >= suffix.len() {
                assert(tail =~= Seq::<Seq<char>>::empty());
                // scanning the lone empty final line also yields the scan of
                // nothing, so the invariant carries over the last step
                assert(spec_trim(Seq::<char>::empty()) == Seq::<char>::empty());
                assert(spec_scan(
                    seq![Seq::<char>::empty()],
                    connection_name@,
                    opt_view(cur_name),
                    opt_view(cur_status),
                ) == spec_scan(
                    seq![Seq::<char>::empty()].drop_first(),
                    connection_name@,
                    opt_view(cur_name),
                    opt_view(cur_status),
                ));
                assert(seq![Seq::<char>::empty()].drop_first()
                    =~= Seq::<Seq<char>>::empty());
            } else {
                assert(tail =~= rest_lines);
            }
        }
        p = next_p;
    }
    proof {
        let target = connection_name@;
        let cn = opt_view(cur_name);
        let cs = opt_view(cur_status);
        let empty = Seq::<char>::empty();
        assert(stdout@.skip(len as int) =~= empty);
        lemma_first_where_at(empty, |c: char| c == '\n', 0);
        assert(spec_lines(empty) =~= seq![empty]);
        assert(spec_trim(empty) == empty);
        assert(spec_skip_line(spec_trim(seq![empty][0])));
        assert(seq![empty].drop_first() =~= Seq::<Seq<char>>::empty());
        assert(spec_scan(Seq::<Seq<char>>::empty(), target, cn, cs) == false);
        assert(spec_scan(seq![empty], target, cn, cs) == false);
    }
    false
}

/// How long a freshly issued start command is given to settle before the
/// liveness re-probe, in milliseconds.
pub const SETTLE_MILLIS: u64 = 2000;

/// What the caller of the ensure protocol must do next.  The protocol issues
/// one outside action at a time; the caller performs it and reports the
/// outcome through the matching step function.
#[derive(Clone, Copy, Debug, PartialEq, Eq, Structural)]
pub enum EnsureNext {
    /// Run the agent's listing operation and report whether the tunnel's name
    /// shows as online.
    DoProbe,
    /// Probe once whether the agent binary is reachable at all.
    DoHealthCheck,
    /// Issue the start command for the tunnel.
    DoStart,
    /// Wait the settle interval, then run the listing operation again.
    DoSettleReprobe,
    /// The tunnel is online; forwarding may proceed.
    Succeed,
    /// The tunnel cannot be brought online.
    Fail(ProxyError),
}

/// Marks the entry as freshly starting: status `Starting`, `last_used` now.
pub open spec fn spec_mark_starting(
    rs: Seq<TunnelStateModel>,
    token: Seq<char>,
    port: u16,
    now: u64,
) -> Seq<TunnelStateModel> {
    spec_touch(spec_set_status(rs, token, port, TunnelStatus::Starting), token, port, now)
}

/// What beginning the ensure protocol does: the entry for the key is created
/// if absent, its `last_used` is refreshed, and the first action is the
/// liveness probe.
pub open spec fn spec_begin_ensure(
    rs: Seq<TunnelStateModel>,
    token: Seq<char>,
    port: u16,
    now: u64,
) -> (Seq<TunnelStateModel>, EnsureNext) {
    (spec_touch(spec_get_or_create(rs, token, port, now).0, token, port, now), EnsureNext::DoProbe)
}

/// What the probe outcome decides: a running tunnel is marked `Online` and
/// the protocol succeeds without any start; otherwise the cached agent
/// availability picks between failing, starting, and probing the agent
/// binary first.
pub open spec fn spec_on_probe_result(
    rs: Seq<TunnelStateModel>,
    avail: Option<bool>,
    token: Seq<char>,
    port: u16,
    now: u64,
    running: bool,
) -> (Seq<TunnelStateModel>, EnsureNext) {
    if running {
        (spec_set_status(rs, token, port, TunnelStatus::Online), EnsureNext::Succeed)
    } else {
        match avail {
            Some(true) => (spec_mark_starting(rs, token, port, now), EnsureNext::DoStart),
            Some(false) => (rs, EnsureNext::Fail(ProxyError::AgentUnavailable)),
            None => (rs, EnsureNext::DoHealthCheck),
        }
    }
}

/// What the health-check outcome decides: the answer is cached for the
/// process lifetime; a reachable agent leads to a start, an unreachable one
/// fails the request.
pub open spec fn spec_on_health_result(
    rs: Seq<TunnelStateModel>,
    token: Seq<char>,
    port: u16,
    now: u64,
    reachable: bool,
) -> (Seq<TunnelStateModel>, EnsureNext) {
    if reachable {
        (spec_mark_starting(rs, token, port, now), EnsureNext::DoStart)
    } else {
        (rs, EnsureNext::Fail(ProxyError::AgentUnavailable))
    }
}

/// What the start command's outcome decides: success moves on to the settle
/// interval and re-probe; failure marks the entry `Error` and fails.
pub open spec fn spec_on_start_result(
    rs: Seq<TunnelStateModel>,
    token: Seq<char>,
    port: u16,
    ok: bool,
) -> (Seq<TunnelStateModel>, EnsureNext) {
    if ok {
        (rs, EnsureNext::DoSettleReprobe)
    } else {
        (
            spec_set_status(rs, token, port, TunnelStatus::Error),
            EnsureNext::Fail(ProxyError::TunnelStartFailed),
        )
    }
}

/// What the re-probe outcome decides: an online tunnel succeeds, anything
/// else marks the entry `Error` and fails.
pub open spec fn spec_on_reprobe_result(
    rs: Seq<TunnelStateModel>,
    token: Seq<char>,
    port: u16,
    running: bool,
) -> (Seq<TunnelStateModel>, EnsureNext) {
    if running {
        (spec_set_status(rs, token, port, TunnelStatus::Online), EnsureNext::Succeed)
    } else {
        (
            spec_set_status(rs, token, port, TunnelStatus::Error),
            EnsureNext::Fail(ProxyError::TunnelStartFailed),
        )
    }
}

/// Opens a request's passage through the proxy once the persisted catalog has
/// answered: an unresolved token fails with `TokenNotFound` and leaves the
/// registry exactly as it was; a resolved one enters the ensure protocol.
pub fn begin_proxy(reg: &mut Registry, token: &str, lookup: Option<u16>, now: u64) -> (r: Result<
    (u16, EnsureNext),
    ProxyError,
>)
    requires
        old(reg).wf(),
    ensures
        final(reg).wf(),
        match lookup {
            None => r == Err::<(u16, EnsureNext), ProxyError>(ProxyError::TokenNotFound)
                && final(reg)@ == old(reg)@,
            Some(port) => {
                &&& final(reg)@ == spec_begin_ensure(old(reg)@, token@, port, now).0
                &&& r == Ok::<(u16, EnsureNext), ProxyError>(
                    (port, spec_begin_ensure(old(reg)@, token@, port, now).1),
                )
            },
        },
{
    match lookup {
        None => Err(ProxyError::TokenNotFound),
        Some(port) => {
            let next = begin_ensure(reg, token, port, now);
            Ok((port, next))
        },
    }
}

/// Starts the ensure protocol for a token and port: records the entry (lazily
/// created on this first proxy access), refreshes its `last_used`, and asks
/// the caller to probe liveness.
pub fn begin_ensure(reg: &mut Registry, token: &str, port: u16, now: u64) -> (next: EnsureNext)
    requires
        old(reg).wf(),
    ensures
        final(reg).wf(),
        final(reg)@ == spec_begin_ensure(old(reg)@, token@, port, now).0,
        next == spec_begin_ensure(old(reg)@, token@, port, now).1,
{
    let _ = reg.get_or_create(token, port, now);
    reg.touch(token, port, now);
    EnsureNext::DoProbe
}

/// Continues the protocol after the liveness probe.
pub fn on_probe_result(
    reg: &mut Registry,
    avail: &Option<bool>,
    token: &str,
    port: u16,
    now: u64,
    running: bool,
) -> (next: EnsureNext)
    requires
        old(reg).wf(),
    ensures
        final(reg).wf(),
        final(reg)@ == spec_on_probe_result(old(reg)@, *avail, token@, port, now, running).0,
        next == spec_on_probe_result(old(reg)@, *avail, token@, port, now, running).1,
{
    if running {
        reg.set_status(token, port, TunnelStatus::Online);
        EnsureNext::Succeed
    } else {
        match avail {
            Some(true) => {
                reg.set_status(token, port, TunnelStatus::Starting);
                reg.touch(token, port, now);
                EnsureNext::DoStart
            },
            Some(false) => EnsureNext::Fail(ProxyError::AgentUnavailable),
            None => EnsureNext::DoHealthCheck,
        }
    }
}

/// Continues the protocol after the one-time agent health check, caching the
/// answer for the process lifetime: binary availability cannot change at
/// runtime.
pub fn on_health_result(
    reg: &mut Registry,
    avail: &mut Option<bool>,
    token: &str,
    port: u16,
    now: u64,
    reachable: bool,
) -> (next: EnsureNext)
    requires
        old(reg).wf(),
    ensures
        final(reg).wf(),
        *final(avail) == Some(reachable),
        final(reg)@ == spec_on_health_result(old(reg)@, token@, port, now, reachable).0,
        next == spec_on_health_result(old(reg)@, token@, port, now, reachable).1,
{
    *avail = Some(reachable);
    if reachable {
        reg.set_status(token, port, TunnelStatus::Starting);
        reg.touch(token, port, now);
        EnsureNext::DoStart
    } else {
        EnsureNext::Fail(ProxyError::AgentUnavailable)
    }
}

/// Continues the protocol after the start command.
pub fn on_start_result(reg: &mut Registry, token: &str, port: u16, ok: bool) -> (next: EnsureNext)
    requires
        old(reg).wf(),
    ensures
        final(reg).wf(),
        final(reg)@ == spec_on_start_result(old(reg)@, token@, port, ok).0,
        next == spec_on_start_result(old(reg)@, token@, port, ok).1,
{
    if ok {
        EnsureNext::DoSettleReprobe
    } else {
        reg.set_status(token, port, TunnelStatus::Error);
        EnsureNext::Fail(ProxyError::TunnelStartFailed)
    }
}

/// Ends the protocol after the settle interval's re-probe.
pub fn on_reprobe_result(reg: &mut Registry, token: &str, port: u16, running: bool) -> (next:
    EnsureNext)
    requires
        old(reg).wf(),
    ensures
        final(reg).wf(),
        final(reg)@ == spec_on_reprobe_result(old(reg)@, token@, port, running).0,
        next == spec_on_reprobe_result(old(reg)@, token@, port, running).1,
{
    if running {
        reg.set_status(token, port, TunnelStatus::Online);
        EnsureNext::Succeed
    } else {
        reg.set_status(token, port, TunnelStatus::Error);
        EnsureNext::Fail(ProxyError::TunnelStartFailed)
    }
}

/// Records the outcome of a stop command issued by the cleanup sweep: a
/// stopped tunnel is marked `Stopped`; after a failed stop the entry is left
/// exactly as it was, so the next sweep reconsiders it.
pub fn retire_result(reg: &mut Registry, token: &str, port: u16, stop_ok: bool)
    requires
        old(reg).wf(),
    ensures
        final(reg).wf(),
        stop_ok ==> final(reg)@ == spec_set_status(
            old(reg)@,
            token@,
            port,
            TunnelStatus::Stopped,
        ),
        !stop_ok ==> final(reg)@ == old(reg)@,
{
    if stop_ok {
        reg.set_status(token, port, TunnelStatus::Stopped);
    }
}

/// The key keeps exactly one well-formed entry through begin, probe and the
/// marking steps; a helper for the protocol laws below.
proof fn lemma_flow_state(rs: Seq<TunnelStateModel>, token: Seq<char>, port: u16, now: u64)
    requires
        spec_wf(rs),
    ensures
        ({
            let rs1 = spec_begin_ensure(rs, token, port, now).0;
            spec_wf(rs1) && has_key(rs1, token, port)
        }),
{
    lemma_get_or_create_props(rs, token, port, now);
    let rs0 = spec_get_or_create(rs, token, port, now).0;
    lemma_touch_props(rs0, token, port, now);
    let i = index_of_key(rs0, token, port);
    assert(0 <= i < rs0.len() && spec_key(rs0[i]) == (token, port));
    assert(spec_key(spec_touch(rs0, token, port, now)[i]) == (token, port));
}

/// A key's entry is `Online` after its status is set so; a helper for the
/// protocol laws below.
proof fn lemma_online_after_set(rs: Seq<TunnelStateModel>, token: Seq<char>, port: u16)
    requires
        spec_wf(rs),
        has_key(rs, token, port),
    ensures
        ({
            let rs1 = spec_set_status(rs, token, port, TunnelStatus::Online);
            &&& spec_wf(rs1)
            &&& has_key(rs1, token, port)
            &&& rs1[index_of_key(rs1, token, port)].status == TunnelStatus::Online
        }),
{
    lemma_set_status_props(rs, token, port, TunnelStatus::Online);
    let rs1 = spec_set_status(rs, token, port, TunnelStatus::Online);
    let i = index_of_key(rs, token, port);
    assert(0 <= i < rs.len() && spec_key(rs[i]) == (token, port));
    assert(spec_key(rs1[i]) == (token, port));
    let j = index_of_key(rs1, token, port);
    assert(0 <= j < rs1.len() && spec_key(rs1[j]) == (token, port));
    assert(spec_key(rs1[j]) == spec_key(rs1[i]));
    assert(rs1[i] == (TunnelStateModel { status: TunnelStatus::Online, ..rs[i] }));
}

/// A request that finds its tunnel not yet started drives the protocol
/// through exactly one start command: of the four actions of the successful
/// cold-start trace, only the probe's answer issues `DoStart`, and the trace
/// ends `Succeed` with the entry `Online`.
pub proof fn lemma_cold_start_single_start(
    rs: Seq<TunnelStateModel>,
    token: Seq<char>,
    port: u16,
    now: u64,
)
    requires
        spec_wf(rs),
    ensures
        ({
            let (rs1, a1) = spec_begin_ensure(rs, token, port, now);
            let (rs2, a2) = spec_on_probe_result(rs1, Some(true), token, port, now, false);
            let (rs3, a3) = spec_on_start_result(rs2, token, port, true);
            let (rs4, a4) = spec_on_reprobe_result(rs3, token, port, true);
            &&& a1 == EnsureNext::DoProbe
            &&& a2 == EnsureNext::DoStart
            &&& a3 == EnsureNext::DoSettleReprobe
            &&& a4 == EnsureNext::Succeed
            &&& spec_wf(rs4)
            &&& has_key(rs4, token, port)
            &&& rs4[index_of_key(rs4, token, port)].status == TunnelStatus::Online
        }),
{
    lemma_flow_state(rs, token, port, now);
    let rs1 = spec_begin_ensure(rs, token, port, now).0;
    lemma_set_status_props(rs1, token, port, TunnelStatus::Starting);
    let rsa = spec_set_status(rs1, token, port, TunnelStatus::Starting);
    let i = index_of_key(rs1, token, port);
    assert(0 <= i < rs1.len() && spec_key(rs1[i]) == (token, port));
    assert(spec_key(rsa[i]) == (token, port));
    lemma_touch_props(rsa, token, port, now);
    let rs2 = spec_mark_starting(rs1, token, port, now);
    assert(spec_key(rs2[i]) == (token, port));
    lemma_online_after_set(rs2, token, port);
}

/// The very first request of the process also drives exactly one start: with
/// no cached availability yet, the probe's answer asks for the health check,
/// and only the health check's answer issues `DoStart`.
pub proof fn lemma_first_probe_single_start(
    rs: Seq<TunnelStateModel>,
    token: Seq<char>,
    port: u16,
    now: u64,
)
    requires
        spec_wf(rs),
    ensures
        ({
            let (rs1, a1) = spec_begin_ensure(rs, token, port, now);
            let (rs2, a2) = spec_on_probe_result(rs1, None, token, port, now, false);
            let (rs3, a3) = spec_on_health_result(rs2, token, port, now, true);
            let (rs4, a4) = spec_on_start_result(rs3, token, port, true);
            let (rs5, a5) = spec_on_reprobe_result(rs4, token, port, true);
            &&& a1 == EnsureNext::DoProbe
            &&& a2 == EnsureNext::DoHealthCheck
            &&& a3 == EnsureNext::DoStart
            &&& a4 == EnsureNext::DoSettleReprobe
            &&& a5 == EnsureNext::Succeed
            &&& spec_wf(rs5)
            &&& has_key(rs5, token, port)
            &&& rs5[index_of_key(rs5, token, port)].status == TunnelStatus::Online
        }),
{
    lemma_flow_state(rs, token, port, now);
    let rs1 = spec_begin_ensure(rs, token, port, now).0;
    lemma_set_status_props(rs1, token, port, TunnelStatus::Starting);
    let rsa = spec_set_status(rs1, token, port, TunnelStatus::Starting);
    let i = index_of_key(rs1, token, port);
    assert(0 <= i < rs1.len() && spec_key(rs1[i]) == (token, port));
    assert(spec_key(rsa[i]) == (token, port));
    lemma_touch_props(rsa, token, port, now);
    let rs3 = spec_mark_starting(rs1, token, port, now);
    assert(spec_key(rs3[i]) == (token, port));
    lemma_online_after_set(rs3, token, port);
}

/// A second, immediate request for a tunnel whose agent reports it online
/// issues no start command at all: whatever the cached availability, the
/// probe's answer ends the protocol in `Succeed`, with the entry `Online`.
pub proof fn lemma_online_tunnel_starts_nothing(
    rs: Seq<TunnelStateModel>,
    avail: Option<bool>,
    token: Seq<char>,
    port: u16,
    now: u64,
)
    requires
        spec_wf(rs),
    ensures
        ({
            let (rs1, a1) = spec_begin_ensure(rs, token, port, now);
            let (rs2, a2) = spec_on_probe_result(rs1, avail, token, port, now, true);
            &&& a1 == EnsureNext::DoProbe
            &&& a2 == EnsureNext::Succeed
            &&& spec_wf(rs2)
            &&& has_key(rs2, token, port)
            &&& rs2[index_of_key(rs2, token, port)].status == TunnelStatus::Online
        }),
{
    lemma_flow_state(rs, token, port, now);
    let rs1 = spec_begin_ensure(rs, token, port, now).0;
    lemma_online_after_set(rs1, token, port);
}

} // verus!
