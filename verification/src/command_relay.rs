//! Relay of Mission Control commands to the Mars assets as DTN bundles:
//! a priority queue, a bounded number of commands in transit, retries
//! after a failed transmission, and timeouts of commands never
//! acknowledged. Times are Unix milliseconds.

use vstd::prelude::*;
use crate::clock::{now_millis, in_clock_range};
use crate::entropy::uuid_v4_string;
use crate::text::{concat2, str_eq, spec_decimal, u64_to_decimal};

verus! {

/// What a command asks for.
#[derive(Debug, PartialEq, Eq)]
pub enum CommandType {
    /// Direct command to a rover or habitat.
    Direct { action: String, params: String },
    /// Firmware update.
    FirmwareUpdate { bundle_id: String },
    /// Safe mode.
    SafeMode { reason: String },
    /// Recovery, from a snapshot if named.
    Recovery { snapshot_name: Option<String> },
    /// Reboot.
    Reboot { reason: String },
    /// Science observation.
    Science { instrument: String, duration_seconds: u32 },
}

impl Clone for CommandType {
    fn clone(&self) -> (r: Self)
        ensures
            r == *self,
    {
        match self {
            CommandType::Direct { action, params } => CommandType::Direct { action: action.clone(), params: params.clone() },
            CommandType::FirmwareUpdate { bundle_id } => CommandType::FirmwareUpdate { bundle_id: bundle_id.clone() },
            CommandType::SafeMode { reason } => CommandType::SafeMode { reason: reason.clone() },
            CommandType::Recovery { snapshot_name } => CommandType::Recovery {
                snapshot_name: match snapshot_name {
                    Some(s) => Some(s.clone()),
                    None => None,
                },
            },
            CommandType::Reboot { reason } => CommandType::Reboot { reason: reason.clone() },
            CommandType::Science { instrument, duration_seconds } => CommandType::Science {
                instrument: instrument.clone(),
                duration_seconds: *duration_seconds,
            },
        }
    }
}

/// Priority of a command.
#[derive(Debug, Clone, Copy, PartialEq, Eq, Structural)]
pub enum CommandPriority {
    Routine,
    High,
    Critical,
    SafeMode,
}

impl CommandPriority {
    /// Position in the sending order: safe mode first, routine last.
    pub open spec fn order(self) -> int {
        match self {
            CommandPriority::SafeMode => 0,
            CommandPriority::Critical => 1,
            CommandPriority::High => 2,
            CommandPriority::Routine => 3,
        }
    }

    /// Position in the sending order: safe mode first, routine last.
    pub fn sort_key(&self) -> (k: u8)
        ensures
            k == self.order(),
    {
        match self {
            CommandPriority::SafeMode => 0,
            CommandPriority::Critical => 1,
            CommandPriority::High => 2,
            CommandPriority::Routine => 3,
        }
    }
}

/// Where a command stands.
#[derive(Debug, Clone, Copy, PartialEq, Eq, Structural)]
pub enum RelayStatus {
    Queued,
    Transmitting,
    InTransit,
    Delivered,
    Executing,
    Completed,
    Failed,
    Cancelled,
}

/// A command sent as a DTN bundle.
#[derive(Debug)]
pub struct DtnCommand {
    pub id: String,
    pub command_type: CommandType,
    pub target: String,
    pub payload: Vec<u8>,
    pub priority: CommandPriority,
    pub max_lifetime_hours: u32,
    pub created_at: i64,
    pub status: RelayStatus,
    pub retry_count: u32,
    pub max_retries: u32,
    pub error: Option<String>,
}

/// Something that happened to a command.
#[derive(Debug)]
pub struct RelayEvent {
    pub event_type: String,
    pub command_id: String,
    pub message: String,
}

/// Counts of the relay.
#[derive(Debug, Clone, Copy, PartialEq, Eq, Structural)]
pub struct RelayStats {
    pub queued: usize,
    pub in_transit: usize,
    pub completed_total: usize,
    pub failed_total: usize,
    pub max_concurrent: usize,
}

/// The command relay.
pub struct CommandRelay {
    queue: Vec<DtnCommand>,
    in_transit: Vec<DtnCommand>,
    completed: Vec<DtnCommand>,
    max_concurrent: usize,
    dtn_endpoint: String,
}

impl DtnCommand {
    /// A command for `target` made at `now`, queued, living 24 hours,
    /// with three attempts; its identifier is the target, '-', and `uuid`.
    pub fn new_with(target: &str, command_type: CommandType, priority: CommandPriority, uuid: &str, now: i64) -> (c: Self)
        ensures
            c.id@ == target@ + "-"@ + uuid@,
            c.command_type == command_type,
            c.target@ == target@,
            c.payload@.len() == 0,
            c.priority == priority,
            c.max_lifetime_hours == 24,
            c.created_at == now,
            c.status == RelayStatus::Queued,
            c.retry_count == 0,
            c.max_retries == 3,
            c.error is None,
    {
        let mut id = concat2(target, "-");
        id.append(uuid);
        DtnCommand {
            id,
            command_type,
            target: target.to_owned(),
            payload: Vec::new(),
            priority,
            max_lifetime_hours: 24,
            created_at: now,
            status: RelayStatus::Queued,
            retry_count: 0,
            max_retries: 3,
            error: None,
        }
    }

    /// A command for `target` made now, with a random identifier.
    pub fn new(target: &str, command_type: CommandType, priority: CommandPriority) -> (c: Self)
        ensures
            exists|u: Seq<char>| c.id@ == target@ + "-"@ + u,
            c.command_type == command_type,
            c.target@ == target@,
            c.payload@.len() == 0,
            c.priority == priority,
            c.max_lifetime_hours == 24,
            in_clock_range(c.created_at),
            c.status == RelayStatus::Queued,
            c.retry_count == 0,
            c.max_retries == 3,
            c.error is None,
    {
        let uuid = uuid_v4_string();
        let now = now_millis();
        Self::new_with(target, command_type, priority, uuid.as_str(), now)
    }
}


/// The commands of one sending rank, in queue order.
pub open spec fn of_order(q: Seq<DtnCommand>, k: int) -> Seq<DtnCommand>
    decreases q.len(),
{
    if q.len() == 0 {
        Seq::empty()
    } else if q.last().priority.order() == k {
        of_order(q.drop_last(), k).push(q.last())
    } else {
        of_order(q.drop_last(), k)
    }
}

/// The queue in sending order: by priority, first come first within a
/// priority.
pub open spec fn sending_order(q: Seq<DtnCommand>) -> Seq<DtnCommand> {
    of_order(q, 0) + of_order(q, 1) + of_order(q, 2) + of_order(q, 3)
}

/// Whether a command fits in one bundle: payload and 128 bytes of
/// header within 64 KiB.
pub open spec fn fits(c: DtnCommand) -> bool {
    c.payload@.len() + 128 <= 65536
}

/// The retry count after one more failed attempt.
pub open spec fn bumped(c: DtnCommand) -> u32 {
    if c.retry_count < u32::MAX { (c.retry_count + 1) as u32 } else { u32::MAX }
}

/// Whether a command that cannot be sent has used its attempts.
pub open spec fn exhausted(c: DtnCommand) -> bool {
    bumped(c) >= c.max_retries
}

/// How many commands of `s` one pass handles before the limit of
/// commands in transit stops it, with `free` places left.
pub open spec fn handled(s: Seq<DtnCommand>, free: int) -> int
    decreases s.len(),
{
    if s.len() == 0 || free <= 0 {
        0
    } else {
        1 + handled(s.drop_first(), if fits(s[0]) { free - 1 } else { free })
    }
}

/// The commands of `p` that are sent, marked in transit.
pub open spec fn sent_of(p: Seq<DtnCommand>) -> Seq<DtnCommand>
    decreases p.len(),
{
    if p.len() == 0 {
        Seq::empty()
    } else if fits(p.last()) {
        sent_of(p.drop_last()).push(DtnCommand { status: RelayStatus::InTransit, ..p.last() })
    } else {
        sent_of(p.drop_last())
    }
}

/// The commands of `p` that cannot be sent and may be retried (`retry`)
/// or have used their attempts (`!retry`).
pub open spec fn unsent_of(p: Seq<DtnCommand>, retry: bool) -> Seq<DtnCommand>
    decreases p.len(),
{
    if p.len() == 0 {
        Seq::empty()
    } else if !fits(p.last()) && exhausted(p.last()) != retry {
        unsent_of(p.drop_last(), retry).push(p.last())
    } else {
        unsent_of(p.drop_last(), retry)
    }
}

/// `a` is `c` after a failed transmission, with status `st`.
pub open spec fn failed_attempt(a: DtnCommand, c: DtnCommand, st: RelayStatus) -> bool {
    &&& a == DtnCommand { status: st, retry_count: bumped(c), error: a.error, ..c }
    &&& a.error matches Some(e) && e@ == "Bundle exceeds max size (64KB)"@
}

/// The commands `out` are the commands `cs` after a failed transmission;
/// those whose attempts are used are marked failed.
pub open spec fn failed_attempts(out: Seq<DtnCommand>, cs: Seq<DtnCommand>, mark_failed: bool) -> bool {
    &&& out.len() == cs.len()
    &&& forall|i: int| 0 <= i < cs.len() ==> failed_attempt(#[trigger] out[i], cs[i],
        if mark_failed { RelayStatus::Failed } else { cs[i].status })
}

/// The event a pass reports for the command `c`.
pub open spec fn event_for(e: RelayEvent, c: DtnCommand) -> bool {
    &&& e.command_id@ == c.id@
    &&& if fits(c) {
        e.event_type@ == "command_sent"@ && e.message@ == "Command sent to "@ + c.target@
    } else if exhausted(c) {
        e.event_type@ == "command_failed"@ && e.message@ == "Failed after "@ + spec_decimal(bumped(c) as nat)
            + " retries: Bundle exceeds max size (64KB)"@
    } else {
        e.event_type@ == "retry_scheduled"@ && e.message@ == "Retry "@ + spec_decimal((bumped(c) + 1) as nat) + "/"@
            + spec_decimal(c.max_retries as nat)
    }
}

/// The commands of `ts` that have waited more than 20 minutes at `now`.
pub open spec fn timed_out(c: DtnCommand, now: i64) -> bool {
    now - c.created_at > 1_200_000
}

/// The commands of `ts` still in transit at `now`, in order.
pub open spec fn still_in_transit(ts: Seq<DtnCommand>, now: i64) -> Seq<DtnCommand>
    decreases ts.len(),
{
    if ts.len() == 0 {
        Seq::empty()
    } else if timed_out(ts.last(), now) {
        still_in_transit(ts.drop_last(), now)
    } else {
        still_in_transit(ts.drop_last(), now).push(ts.last())
    }
}

/// The commands of `ts` that timed out at `now`, in order.
pub open spec fn lost_in_transit(ts: Seq<DtnCommand>, now: i64) -> Seq<DtnCommand>
    decreases ts.len(),
{
    if ts.len() == 0 {
        Seq::empty()
    } else if timed_out(ts.last(), now) {
        lost_in_transit(ts.drop_last(), now).push(ts.last())
    } else {
        lost_in_transit(ts.drop_last(), now)
    }
}

/// The number of failed commands.
pub open spec fn count_failed(cs: Seq<DtnCommand>) -> nat
    decreases cs.len(),
{
    if cs.len() == 0 {
        0
    } else {
        count_failed(cs.drop_last()) + (if cs.last().status == RelayStatus::Failed { 1nat } else { 0nat })
    }
}


/// Every command of one rank has that rank.
pub proof fn lemma_of_order_rank(q: Seq<DtnCommand>, k: int)
    ensures
        forall|i: int| 0 <= i < of_order(q, k).len() ==> (#[trigger] of_order(q, k)[i]).priority.order() == k,
    decreases q.len(),
{
    if q.len() > 0 {
        lemma_of_order_rank(q.drop_last(), k);
        let r = of_order(q.drop_last(), k);
        if q.last().priority.order() == k {
            assert forall|i: int| 0 <= i < of_order(q, k).len() implies (#[trigger] of_order(q, k)[i]).priority.order() == k by {
                if i < r.len() {
                    assert(of_order(q, k)[i] == r[i]);
                }
            }
        }
    }
}

/// In the sending order of a pass, every SafeMode command comes before
/// every Critical one, every Critical one before every High one, and
/// every High one before every Routine one.
pub proof fn lemma_sending_order_by_priority(q: Seq<DtnCommand>)
    ensures
        forall|i: int, j: int| 0 <= i < j < sending_order(q).len() ==> {
            let a = (#[trigger] sending_order(q)[i]).priority;
            let b = (#[trigger] sending_order(q)[j]).priority;
            &&& b == CommandPriority::SafeMode ==> a == CommandPriority::SafeMode
            &&& b == CommandPriority::Critical ==> a == CommandPriority::SafeMode || a == CommandPriority::Critical
            &&& b == CommandPriority::High ==> a != CommandPriority::Routine
        },
{
    let a0 = of_order(q, 0);
    let a1 = of_order(q, 1);
    let a2 = of_order(q, 2);
    let a3 = of_order(q, 3);
    lemma_of_order_rank(q, 0);
    lemma_of_order_rank(q, 1);
    lemma_of_order_rank(q, 2);
    lemma_of_order_rank(q, 3);
    let s = sending_order(q);
    let l0 = a0.len() as int;
    let l1 = l0 + a1.len();
    let l2 = l1 + a2.len();
    assert forall|i: int| 0 <= i < s.len() implies (#[trigger] s[i]).priority.order() == (if i < l0 { 0int } else if i < l1 {
        1int } else if i < l2 { 2int } else { 3int }) by {
        if i < l0 {
            assert(s[i] == a0[i]);
        } else if i < l1 {
            assert(s[i] == a1[i - l0]);
        } else if i < l2 {
            assert(s[i] == a2[i - l1]);
        } else {
            assert(s[i] == a3[i - l2]);
        }
    }
    assert forall|i: int, j: int| 0 <= i < j < s.len() implies {
        let a = (#[trigger] s[i]).priority;
        let b = (#[trigger] s[j]).priority;
        &&& b == CommandPriority::SafeMode ==> a == CommandPriority::SafeMode
        &&& b == CommandPriority::Critical ==> a == CommandPriority::SafeMode || a == CommandPriority::Critical
        &&& b == CommandPriority::High ==> a != CommandPriority::Routine
    } by {
        assert(s[i].priority.order() <= s[j].priority.order());
    }
}

/// The event of a command sent.
fn sent_event(c: &DtnCommand) -> (e: RelayEvent)
    requires
        fits(*c),
    ensures
        event_for(e, *c),
{
    RelayEvent {
        event_type: "command_sent".to_string(),
        command_id: c.id.clone(),
        message: concat2("Command sent to ", c.target.as_str()),
    }
}

/// The event of a command that could not be sent: failed for good when
/// `retry_count` (the new count) reaches its limit, else retried.
fn unsent_event(c: &DtnCommand, retry_count: u32) -> (e: RelayEvent)
    requires
        !fits(*c),
        retry_count == bumped(*c),
    ensures
        event_for(e, *c),
{
    if retry_count >= c.max_retries {
        let mut m = concat2("Failed after ", u64_to_decimal(retry_count as u64).as_str());
        m.append(" retries: Bundle exceeds max size (64KB)");
        RelayEvent { event_type: "command_failed".to_string(), command_id: c.id.clone(), message: m }
    } else {
        let mut m = concat2("Retry ", u64_to_decimal((retry_count + 1) as u64).as_str());
        m.append("/");
        m.append(u64_to_decimal(c.max_retries as u64).as_str());
        RelayEvent { event_type: "retry_scheduled".to_string(), command_id: c.id.clone(), message: m }
    }
}

/// The commands in sending order.
fn sort_by_priority(q: Vec<DtnCommand>) -> (s: Vec<DtnCommand>)
    ensures
        s@ == sending_order(q@),
{
    let ghost orig = q@;
    let mut rest = q;
    let mut b0: Vec<DtnCommand> = Vec::new();
    let mut b1: Vec<DtnCommand> = Vec::new();
    let mut b2: Vec<DtnCommand> = Vec::new();
    let mut b3: Vec<DtnCommand> = Vec::new();
    while rest.len() > 0
        invariant
            rest@ == orig.skip(orig.len() - rest@.len()),
            rest@.len() <= orig.len(),
            b0@ == of_order(orig.take(orig.len() - rest@.len()), 0),
            b1@ == of_order(orig.take(orig.len() - rest@.len()), 1),
            b2@ == of_order(orig.take(orig.len() - rest@.len()), 2),
            b3@ == of_order(orig.take(orig.len() - rest@.len()), 3),
        decreases rest@.len(),
    {
        let ghost i = orig.len() - rest@.len();
        let c = rest.remove(0);
        proof {
            assert(orig.take(i + 1).drop_last() =~= orig.take(i));
            assert(c == orig[i]);
            assert(orig.take(i + 1).last() == c);
            assert(rest@ =~= orig.skip(i + 1));
        }
        let k = c.priority.sort_key();
        if k == 0 {
            b0.push(c);
        } else if k == 1 {
            b1.push(c);
        } else if k == 2 {
            b2.push(c);
        } else {
            b3.push(c);
        }
    }
    proof {
        assert(orig.take(orig.len() as int) =~= orig);
    }
    b0.append(&mut b1);
    b0.append(&mut b2);
    b0.append(&mut b3);
    b0
}

impl CommandRelay {
    /// The commands waiting to be sent, in queue order.
    pub closed spec fn queue(self) -> Seq<DtnCommand> {
        self.queue@
    }

    /// The commands sent and not yet acknowledged.
    pub closed spec fn in_transit(self) -> Seq<DtnCommand> {
        self.in_transit@
    }

    /// The commands done with, oldest first.
    pub closed spec fn completed(self) -> Seq<DtnCommand> {
        self.completed@
    }

    /// The most commands in transit at once.
    pub closed spec fn max_concurrent(self) -> usize {
        self.max_concurrent
    }

    /// A relay to `dtn_endpoint`, empty, with at most 3 commands in transit
    /// (the limit of the Deep Space Network).
    pub fn new(dtn_endpoint: &str) -> (r: Self)
        ensures
            r.queue().len() == 0,
            r.in_transit().len() == 0,
            r.completed().len() == 0,
            r.max_concurrent() == 3,
    {
        CommandRelay {
            queue: Vec::new(),
            in_transit: Vec::new(),
            completed: Vec::new(),
            max_concurrent: 3,
            dtn_endpoint: dtn_endpoint.to_owned(),
        }
    }

    /// Queues a command; returns its identifier.
    pub fn enqueue(&mut self, command: DtnCommand) -> (id: String)
        ensures
            id@ == command.id@,
            final(self).queue() == old(self).queue().push(command),
            final(self).in_transit() == old(self).in_transit(),
            final(self).completed() == old(self).completed(),
            final(self).max_concurrent() == old(self).max_concurrent(),
    {
        let id = command.id.clone();
        self.queue.push(command);
        id
    }

    /// Checks a command against the bundle size limit before sending.
    fn transmit_command(&self, cmd: &DtnCommand) -> (r: Result<(), String>)
        ensures
            r is Ok <==> fits(*cmd),
            r matches Err(e) ==> e@ == "Bundle exceeds max size (64KB)"@,
    {
        if cmd.payload.len() > 65536 - 128 {
            return Err("Bundle exceeds max size (64KB)".to_string());
        }
        Ok(())
    }

    /// One pass over the queue in sending order (by priority, first come
    /// first within a priority): each command is sent while fewer than
    /// the limit are in transit; one that does not fit in a bundle is
    /// retried later, or failed once its attempts are used. The first
    /// command met with the transit limit reached goes back to the queue,
    /// and the pass ends there: the commands after it are dropped.
    pub fn process_queue(&mut self) -> (events: Vec<RelayEvent>)
        ensures
            final(self).max_concurrent() == old(self).max_concurrent(),
            ({
                let s = sending_order(old(self).queue());
                let m = handled(s, old(self).max_concurrent() - old(self).in_transit().len());
                let p = s.take(m);
                let retried = unsent_of(p, true);
                let failed = unsent_of(p, false);
                let c0 = old(self).completed().len();
                &&& 0 <= m <= s.len()
                &&& final(self).in_transit() == old(self).in_transit() + sent_of(p)
                &&& final(self).completed().len() == c0 + failed.len()
                &&& final(self).completed().take(c0 as int) == old(self).completed()
                &&& failed_attempts(final(self).completed().skip(c0 as int), failed, true)
                &&& final(self).queue().len() == retried.len() + (if m < s.len() { 1int } else { 0 })
                &&& failed_attempts(final(self).queue().take(retried.len() as int), retried, false)
                &&& (m < s.len() ==> final(self).queue().last() == s[m])
                &&& events@.len() == m
                &&& forall|j: int| 0 <= j < m ==> #[trigger] event_for(events@[j], s[j])
            }),
    {
        let mut q: Vec<DtnCommand> = Vec::new();
        std::mem::swap(&mut q, &mut self.queue);
        let mut sorted = sort_by_priority(q);
        let ghost s = sorted@;
        let ghost t0 = self.in_transit@;
        let ghost c0 = self.completed@;
        let ghost free0 = self.max_concurrent - t0.len();
        let mut events: Vec<RelayEvent> = Vec::new();
        let mut stopped = false;
        let mut i: usize = 0;
        let n = sorted.len();
        proof {
            assert(s.len() == n);
            assert(s.skip(0) =~= s);
            assert(s.take(0) =~= Seq::<DtnCommand>::empty());
            assert(self.completed@.skip(c0.len() as int) =~= Seq::<DtnCommand>::empty());
        }
        while !stopped && sorted.len() > 0
            invariant
                i <= s.len(),
                s.len() == n,
                !stopped ==> sorted@ == s.skip(i as int),
                self.in_transit@ == t0 + sent_of(s.take(i as int)),
                self.completed@.len() == c0.len() + unsent_of(s.take(i as int), false).len(),
                self.completed@.take(c0.len() as int) == c0,
                failed_attempts(self.completed@.skip(c0.len() as int), unsent_of(s.take(i as int), false), true),
                !stopped ==> failed_attempts(self.queue@, unsent_of(s.take(i as int), true), false),
                stopped ==> i < s.len() && self.queue@.len() == unsent_of(s.take(i as int), true).len() + 1
                    && failed_attempts(self.queue@.take(self.queue@.len() - 1), unsent_of(s.take(i as int), true), false)
                    && self.queue@.last() == s[i as int],
                stopped ==> handled(s, free0) == i,
                !stopped ==> handled(s, free0) == i + handled(s.skip(i as int), free0 - sent_of(s.take(i as int)).len()),
                events@.len() == i,
                forall|j: int| 0 <= j < i ==> #[trigger] event_for(events@[j], s[j]),
                free0 == self.max_concurrent - t0.len(),
            decreases s.len() - i + (if stopped { 0int } else { 1int }),
        {
            let ghost rest = sorted@;
            let cmd = sorted.remove(0);
            proof {
                assert(cmd == s[i as int]);
                assert(sorted@ =~= s.skip(i + 1));
                assert(s.take(i + 1).drop_last() =~= s.take(i as int));
                assert(s.take(i + 1).last() == s[i as int]);
                assert(rest.drop_first() =~= s.skip(i + 1));
                lemma_sent_len(s.take(i as int));
            }
            if self.in_transit.len() >= self.max_concurrent {
                let ghost qb = self.queue@;
                self.queue.push(cmd);
                proof {
                    assert(self.queue@.take(self.queue@.len() - 1) =~= qb);
                }
                stopped = true;
            } else {
                let ghost evs = events@;
                match self.transmit_command(&cmd) {
                    Ok(()) => {
                        events.push(sent_event(&cmd));
                        let mut c = cmd;
                        c.status = RelayStatus::InTransit;
                        self.in_transit.push(c);
                    },
                    Err(e) => {
                        let retry_count = cmd.retry_count.saturating_add(1);
                        let ev = unsent_event(&cmd, retry_count);
                        let mut c = cmd;
                        c.retry_count = retry_count;
                        c.error = Some(e);
                        if retry_count >= c.max_retries {
                            c.status = RelayStatus::Failed;
                            let ghost cb = self.completed@;
                            self.completed.push(c);
                            proof {
                                assert(self.completed@.take(c0.len() as int) =~= cb.take(c0.len() as int));
                                assert(self.completed@.skip(c0.len() as int) =~= cb.skip(c0.len() as int).push(self.completed@.last()));
                            }
                        } else {
                            self.queue.push(c);
                        }
                        events.push(ev);
                    },
                }
                proof {
                    assert(events@.len() == i + 1);
                    assert forall|j: int| 0 <= j < i + 1 implies #[trigger] event_for(events@[j], s[j]) by {
                        if j < i {
                            assert(events@[j] == evs[j]);
                        }
                    }
                }
                i = i + 1;
            }
        }
        proof {
            if !stopped {
                assert(s.skip(i as int).len() == 0);
                assert(s.take(i as int) =~= s);
            }
        }
        events
    }
}

/// The sent commands are at most as many as the commands.
proof fn lemma_sent_len(p: Seq<DtnCommand>)
    ensures
        sent_of(p).len() <= p.len(),
    decreases p.len(),
{
    if p.len() > 0 {
        lemma_sent_len(p.drop_last());
    }
}


/// `a` is `c` given up after its delivery timed out.
pub open spec fn timeout_copy(a: DtnCommand, c: DtnCommand) -> bool {
    &&& a == DtnCommand { status: RelayStatus::Failed, error: a.error, ..c }
    &&& a.error matches Some(e) && e@ == "Delivery timeout"@
}

/// Position of the first queued command with this identifier (the length
/// when there is none).
pub open spec fn command_index(q: Seq<DtnCommand>, id: Seq<char>) -> int
    decreases q.len(),
{
    if q.len() == 0 {
        0
    } else if q[0].id@ == id {
        0
    } else {
        1 + command_index(q.drop_first(), id)
    }
}

proof fn lemma_command_index(q: Seq<DtnCommand>, id: Seq<char>, j: int)
    requires
        0 <= j <= q.len(),
        forall|m: int| 0 <= m < j ==> q[m].id@ != id,
        j < q.len() ==> q[j].id@ == id,
    ensures
        command_index(q, id) == j,
    decreases q.len(),
{
    if q.len() > 0 && j > 0 {
        lemma_command_index(q.drop_first(), id, j - 1);
    }
}

impl CommandRelay {
    /// Gives up at `now` on the commands in transit for more than 20
    /// minutes: each is reported, marked failed with the error "Delivery
    /// timeout", and moved to the completed commands (last first).
    pub fn check_transit_status_at(&mut self, now: i64) -> (events: Vec<RelayEvent>)
        ensures
            final(self).queue() == old(self).queue(),
            final(self).max_concurrent() == old(self).max_concurrent(),
            final(self).in_transit() == still_in_transit(old(self).in_transit(), now),
            ({
                let lost = lost_in_transit(old(self).in_transit(), now);
                let c0 = old(self).completed().len();
                &&& final(self).completed().len() == c0 + lost.len()
                &&& final(self).completed().take(c0 as int) == old(self).completed()
                &&& forall|k: int| 0 <= k < lost.len() ==> #[trigger] timeout_copy(final(self).completed()[c0 + k], lost[lost.len() - 1 - k])
                &&& events@.len() == lost.len()
                &&& forall|k: int| 0 <= k < lost.len() ==> {
                    &&& #[trigger] events@[k].event_type@ == "delivery_timeout"@
                    &&& events@[k].command_id@ == lost[k].id@
                    &&& events@[k].message@ == "Delivery timeout — assuming loss"@
                }
            }),
    {
        let mut rest: Vec<DtnCommand> = Vec::new();
        std::mem::swap(&mut rest, &mut self.in_transit);
        let ghost orig = rest@;
        let mut events: Vec<RelayEvent> = Vec::new();
        let mut lost: Vec<DtnCommand> = Vec::new();
        while rest.len() > 0
            invariant
                rest@ == orig.skip(orig.len() - rest@.len()),
                rest@.len() <= orig.len(),
                self.queue@ == old(self).queue@,
                self.max_concurrent == old(self).max_concurrent,
                self.completed@ == old(self).completed@,
                orig == old(self).in_transit@,
                self.in_transit@ == still_in_transit(orig.take(orig.len() - rest@.len()), now),
                lost@ == lost_in_transit(orig.take(orig.len() - rest@.len()), now),
                events@.len() == lost@.len(),
                forall|k: int| 0 <= k < lost@.len() ==> {
                    &&& #[trigger] events@[k].event_type@ == "delivery_timeout"@
                    &&& events@[k].command_id@ == lost@[k].id@
                    &&& events@[k].message@ == "Delivery timeout — assuming loss"@
                },
            decreases rest@.len(),
        {
            let ghost i = orig.len() - rest@.len();
            let c = rest.remove(0);
            proof {
                assert(orig.take(i + 1).drop_last() =~= orig.take(i));
                assert(c == orig[i]);
                assert(orig.take(i + 1).last() == c);
                assert(rest@ =~= orig.skip(i + 1));
            }
            let age: i128 = (now as i128) - (c.created_at as i128);
            if age > 1_200_000 {
                let ghost evs = events@;
                let ghost ls = lost@;
                events.push(RelayEvent {
                    event_type: "delivery_timeout".to_string(),
                    command_id: c.id.clone(),
                    message: "Delivery timeout — assuming loss".to_string(),
                });
                lost.push(c);
                proof {
                    assert forall|k: int| 0 <= k < lost@.len() implies {
                        &&& #[trigger] events@[k].event_type@ == "delivery_timeout"@
                        &&& events@[k].command_id@ == lost@[k].id@
                        &&& events@[k].message@ == "Delivery timeout — assuming loss"@
                    } by {
                        if k < ls.len() {
                            assert(events@[k] == evs[k]);
                            assert(lost@[k] == ls[k]);
                        }
                    }
                }
            } else {
                self.in_transit.push(c);
            }
        }
        proof {
            assert(orig.take(orig.len() as int) =~= orig);
        }
        let ghost l = lost@;
        let ghost c0 = self.completed@;
        while lost.len() > 0
            invariant
                lost@ == l.take(lost@.len() as int),
                lost@.len() <= l.len(),
                self.queue@ == old(self).queue@,
                self.max_concurrent == old(self).max_concurrent,
                self.in_transit@ == still_in_transit(old(self).in_transit@, now),
                l == lost_in_transit(old(self).in_transit@, now),
                c0 == old(self).completed@,
                events@.len() == l.len(),
                forall|k: int| 0 <= k < l.len() ==> {
                    &&& #[trigger] events@[k].event_type@ == "delivery_timeout"@
                    &&& events@[k].command_id@ == l[k].id@
                    &&& events@[k].message@ == "Delivery timeout — assuming loss"@
                },
                self.completed@.len() == c0.len() + (l.len() - lost@.len()),
                self.completed@.take(c0.len() as int) == c0,
                forall|k: int| 0 <= k < l.len() - lost@.len() ==> #[trigger] timeout_copy(self.completed@[c0.len() + k], l[l.len() - 1 - k]),
            decreases lost@.len(),
        {
            let mut c = lost.pop().unwrap();
            proof {
                assert(c == l[lost@.len() as int]);
                assert(lost@ =~= l.take(lost@.len() as int));
            }
            c.status = RelayStatus::Failed;
            c.error = Some("Delivery timeout".to_string());
            let ghost cb = self.completed@;
            self.completed.push(c);
            proof {
                assert(self.completed@.take(c0.len() as int) =~= cb.take(c0.len() as int));
                assert forall|k: int| 0 <= k < l.len() - lost@.len() implies #[trigger] timeout_copy(self.completed@[c0.len() + k], l[l.len() - 1 - k]) by {
                    if k < l.len() - lost@.len() - 1 {
                        assert(self.completed@[c0.len() + k] == cb[c0.len() + k]);
                    }
                }
            }
        }
        events
    }

    /// Gives up on the commands in transit for more than 20 minutes now.
    pub fn check_transit_status(&mut self) -> (events: Vec<RelayEvent>)
        ensures
            final(self).queue() == old(self).queue(),
            final(self).max_concurrent() == old(self).max_concurrent(),
            exists|now: i64| #[trigger] in_clock_range(now) && {
                let lost = lost_in_transit(old(self).in_transit(), now);
                let c0 = old(self).completed().len();
                &&& final(self).in_transit() == still_in_transit(old(self).in_transit(), now)
                &&& final(self).completed().len() == c0 + lost.len()
                &&& final(self).completed().take(c0 as int) == old(self).completed()
                &&& forall|k: int| 0 <= k < lost.len() ==> #[trigger] timeout_copy(final(self).completed()[c0 + k], lost[lost.len() - 1 - k])
                &&& events@.len() == lost.len()
                &&& forall|k: int| 0 <= k < lost.len() ==> {
                    &&& #[trigger] events@[k].event_type@ == "delivery_timeout"@
                    &&& events@[k].command_id@ == lost[k].id@
                    &&& events@[k].message@ == "Delivery timeout — assuming loss"@
                }
            },
    {
        let now = now_millis();
        self.check_transit_status_at(now)
    }

    /// Removes the first queued command with this identifier; whether
    /// there was one.
    pub fn cancel_command(&mut self, id: &str) -> (found: bool)
        ensures
            found == (command_index(old(self).queue(), id@) < old(self).queue().len()),
            found ==> final(self).queue() == old(self).queue().remove(command_index(old(self).queue(), id@)),
            !found ==> final(self).queue() == old(self).queue(),
            final(self).in_transit() == old(self).in_transit(),
            final(self).completed() == old(self).completed(),
            final(self).max_concurrent() == old(self).max_concurrent(),
    {
        let mut i: usize = 0;
        while i < self.queue.len() && !str_eq(self.queue[i].id.as_str(), id)
            invariant
                i <= self.queue@.len(),
                forall|m: int| 0 <= m < i ==> self.queue@[m].id@ != id@,
            decreases self.queue@.len() - i,
        {
            i = i + 1;
        }
        proof {
            lemma_command_index(self.queue@, id@, i as int);
        }
        if i < self.queue.len() {
            self.queue.remove(i);
            true
        } else {
            false
        }
    }

    /// Counts of the queue, the commands in transit and the completed ones.
    pub fn stats(&self) -> (st: RelayStats)
        ensures
            st.queued == self.queue().len(),
            st.in_transit == self.in_transit().len(),
            st.completed_total == self.completed().len(),
            st.failed_total == count_failed(self.completed()),
            st.max_concurrent == self.max_concurrent(),
    {
        let c = &self.completed;
        let mut failed: usize = 0;
        let mut i: usize = 0;
        while i < c.len()
            invariant
                i <= c@.len(),
                failed == count_failed(c@.take(i as int)),
                failed <= i,
            decreases c@.len() - i,
        {
            proof {
                assert(c@.take(i + 1).drop_last() =~= c@.take(i as int));
            }
            if c[i].status == RelayStatus::Failed {
                failed = failed + 1;
            }
            i = i + 1;
        }
        proof {
            assert(c@.take(c@.len() as int) =~= c@);
        }
        RelayStats {
            queued: self.queue.len(),
            in_transit: self.in_transit.len(),
            completed_total: c.len(),
            failed_total: failed,
            max_concurrent: self.max_concurrent,
        }
    }
}

} // verus!
