//! The decisions of the servers' polling loops: what to do with a socket
//! that `poll` reported, how a read or write turn goes on after each system
//! call, what a connection is watched for next, when the loop stops, and
//! which poll entries survive a turn. The polling, reading and writing
//! themselves happen outside; these functions take what they returned.
use vstd::prelude::*;


use crate::response::response::Response;
use crate::response::response_wire;

verus! {

broadcast use vstd::seq_lib::group_seq_properties;

/// What `poll` reported for a client socket: any event at all, readable,
/// writable, and an error or hang-up.
#[derive(Clone, Copy, Debug, PartialEq, Eq, Structural)]
pub struct Readiness {
    pub active: bool,
    pub readable: bool,
    pub writable: bool,
    pub failed: bool,
}

/// The events a client socket is watched for.
#[derive(Clone, Copy, Debug, PartialEq, Eq, Structural)]
pub enum Interest {
    Read,
    Write,
    ReadWrite,
}

/// What one non-blocking read or write came back with: a byte count, a
/// call that would block (or was interrupted), or an error.
#[derive(Clone, Copy, Debug, PartialEq, Eq, Structural)]
pub enum IoOutcome {
    Transferred(usize),
    WouldBlock,
    Failed,
}

/// How a connection's write turn ended.
#[derive(Clone, Copy, Debug, PartialEq, Eq, Structural)]
pub enum WriteState {
    /// The socket would block with bytes still pending.
    Continue,
    /// Everything pending was written.
    Done,
    /// The peer accepted no more bytes.
    Close,
}

/// What follows one step of a write turn.
#[derive(Clone, Copy, Debug, PartialEq, Eq, Structural)]
pub enum WriteNext {
    Again,
    Finished(WriteState),
    Failed,
}

/// What follows one step of a read turn.
#[derive(Clone, Copy, Debug, PartialEq, Eq, Structural)]
pub enum ReadNext {
    /// Read again.
    Again,
    /// Nothing more to read for now: try to parse what was gathered.
    Parse,
    /// The peer closed the connection.
    Closed,
    Failed,
}

/// What happens to a connection after its turn.
#[derive(Clone, Copy, Debug, PartialEq, Eq, Structural)]
pub enum ConnUpdate {
    Keep,
    Watch(Interest),
    Close,
}

/// What a plain (unencrypted) loop does with a reported client socket.
#[derive(Clone, Copy, Debug, PartialEq, Eq, Structural)]
pub enum Dispatch {
    Skip,
    Close,
    Write,
    Read,
}

/// What the TLS loop does with a reported client socket: nothing, close
/// it, or serve it (after finishing the handshake when one is under way)
/// with a write turn and then a read turn as reported.
#[derive(Clone, Copy, Debug, PartialEq, Eq, Structural)]
pub enum TlsDispatch {
    Skip,
    Close,
    Serve { write: bool, read: bool },
}

/// How a step of a TLS handshake went.
#[derive(Clone, Copy, Debug, PartialEq, Eq, Structural)]
pub enum HandshakeOutcome {
    Completed,
    WouldBlock,
    Failed,
}

/// What follows a handshake step.
#[derive(Clone, Copy, Debug, PartialEq, Eq, Structural)]
pub enum HandshakeNext {
    /// Watch for reads and go on with this turn.
    Proceed,
    /// Watch for reads and writes and end this turn.
    Wait,
    Close,
}

/// What the head of a polling loop does.
#[derive(Clone, Copy, Debug, PartialEq, Eq, Structural)]
pub enum LoopControl {
    /// Stop accepting, close idle connections and drain the rest.
    BeginDrain,
    /// Leave the loop.
    Stop,
    /// Poll again.
    Poll,
}

/// An entry of the poll set.
#[derive(Clone, Copy, Debug, PartialEq, Eq, Structural)]
pub struct PollEntry {
    pub fd: i32,
    pub interest: Interest,
}

/// A plain loop's choice for a reported client socket: an error or
/// hang-up closes it; otherwise it writes when writable, and else reads
/// when readable, except while draining.
pub fn dispatch(ready: Readiness, draining: bool) -> (r: Dispatch)
    ensures
        r == (if !ready.active {
            Dispatch::Skip
        } else if ready.failed {
            Dispatch::Close
        } else if ready.writable {
            Dispatch::Write
        } else if ready.readable && !draining {
            Dispatch::Read
        } else {
            Dispatch::Skip
        }),
{
    if !ready.active {
        Dispatch::Skip
    } else if ready.failed {
        Dispatch::Close
    } else if ready.writable {
        Dispatch::Write
    } else if ready.readable && !draining {
        Dispatch::Read
    } else {
        Dispatch::Skip
    }
}

/// The TLS loop's choice for a reported client socket: an error or hang-up
/// closes it; otherwise it is served, with a write turn when writable and
/// a read turn when readable.
pub fn tls_dispatch(ready: Readiness) -> (r: TlsDispatch)
    ensures
        r == (if !ready.active {
            TlsDispatch::Skip
        } else if ready.failed {
            TlsDispatch::Close
        } else {
            TlsDispatch::Serve { write: ready.writable, read: ready.readable }
        }),
{
    if !ready.active {
        TlsDispatch::Skip
    } else if ready.failed {
        TlsDispatch::Close
    } else {
        TlsDispatch::Serve { write: ready.writable, read: ready.readable }
    }
}

/// A step of a write turn. `outcome` is `None` when nothing was pending, so
/// nothing was written: the turn is done. Otherwise a write of no bytes
/// means the peer is gone, written bytes leave the buffer and the turn goes
/// on, a write that would block leaves the rest for later, and an error
/// fails the turn.
pub fn write_step(buf: &mut Vec<u8>, outcome: Option<IoOutcome>) -> (r: WriteNext)
    requires
        old(buf)@.len() == 0 <==> outcome is None,
        outcome matches Some(IoOutcome::Transferred(n)) ==> n <= old(buf)@.len(),
    ensures
        match outcome {
            None => r == WriteNext::Finished(WriteState::Done) && final(buf)@ == old(buf)@,
            Some(IoOutcome::Transferred(n)) => if n == 0 {
                r == WriteNext::Finished(WriteState::Close) && final(buf)@ == old(buf)@
            } else {
                r == WriteNext::Again && final(buf)@ == old(buf)@.subrange(n as int, old(buf)@.len() as int)
            },
            Some(IoOutcome::WouldBlock) => r == WriteNext::Finished(WriteState::Continue) && final(buf)@
                == old(buf)@,
            Some(IoOutcome::Failed) => r == WriteNext::Failed && final(buf)@ == old(buf)@,
        },
{
    match outcome {
        None => WriteNext::Finished(WriteState::Done),
        Some(IoOutcome::Transferred(n)) => {
            if n == 0 {
                WriteNext::Finished(WriteState::Close)
            } else {
                let rest = buf.split_off(n);
                *buf = rest;
                WriteNext::Again
            }
        },
        Some(IoOutcome::WouldBlock) => WriteNext::Finished(WriteState::Continue),
        Some(IoOutcome::Failed) => WriteNext::Failed,
    }
}

/// What is left of `buf` after writes that sent `counts[0]`, `counts[1]`,
/// ... bytes in turn, each step dropping the bytes it sent, as
/// `write_step` does.
pub open spec fn after_writes(buf: Seq<u8>, counts: Seq<nat>) -> Seq<u8>
    decreases counts.len(),
{
    if counts.len() == 0 {
        buf
    } else {
        after_writes(buf.subrange(counts[0] as int, buf.len() as int), counts.drop_first())
    }
}

/// The sum of byte counts.
pub open spec fn total_sent(counts: Seq<nat>) -> nat
    decreases counts.len(),
{
    if counts.len() == 0 {
        0
    } else {
        counts[0] + total_sent(counts.drop_first())
    }
}

/// Successive write steps send the buffer in order: once they have sent
/// `total_sent(counts)` bytes in all, what is left is exactly the rest of
/// the buffer after those bytes.
pub proof fn law_write_steps_send_in_order(buf: Seq<u8>, counts: Seq<nat>)
    requires
        total_sent(counts) <= buf.len(),
    ensures
        after_writes(buf, counts) == buf.subrange(total_sent(counts) as int, buf.len() as int),
    decreases counts.len(),
{
    if counts.len() == 0 {
        assert(buf.subrange(0, buf.len() as int) =~= buf);
    } else {
        let rest = buf.subrange(counts[0] as int, buf.len() as int);
        law_write_steps_send_in_order(rest, counts.drop_first());
        assert(rest.subrange(total_sent(counts.drop_first()) as int, rest.len() as int) =~= buf.subrange(
            total_sent(counts) as int,
            buf.len() as int,
        ));
    }
}

/// A step of a read turn: a read of no bytes means the peer closed the
/// connection, bytes read are appended and the turn goes on, a read that
/// would block ends the turn so the request can be parsed, and an error
/// fails it.
pub fn read_step(buf: &mut Vec<u8>, chunk: &[u8], outcome: IoOutcome) -> (r: ReadNext)
    requires
        outcome matches IoOutcome::Transferred(n) ==> n <= chunk@.len(),
    ensures
        match outcome {
            IoOutcome::Transferred(n) => if n == 0 {
                r == ReadNext::Closed && final(buf)@ == old(buf)@
            } else {
                r == ReadNext::Again && final(buf)@ == old(buf)@ + chunk@.subrange(0, n as int)
            },
            IoOutcome::WouldBlock => r == ReadNext::Parse && final(buf)@ == old(buf)@,
            IoOutcome::Failed => r == ReadNext::Failed && final(buf)@ == old(buf)@,
        },
{
    match outcome {
        IoOutcome::Transferred(n) => {
            if n == 0 {
                ReadNext::Closed
            } else {
                let mut i: usize = 0;
                let ghost start = buf@;
                while i < n
                    invariant
                        i <= n,
                        n <= chunk@.len(),
                        buf@ == start + chunk@.subrange(0, i as int),
                    decreases n - i,
                {
                    buf.push(chunk[i]);
                    assert(chunk@.subrange(0, i + 1) =~= chunk@.subrange(0, i as int).push(chunk@[i as int]));
                    i = i + 1;
                }
                ReadNext::Again
            }
        },
        IoOutcome::WouldBlock => ReadNext::Parse,
        IoOutcome::Failed => ReadNext::Failed,
    }
}

/// Queues the reply to a parsed request: a response with an empty body is
/// not sent (the buffers stay as they are); otherwise its bytes become the
/// pending output and the request bytes are dropped. Returns whether it was
/// queued.
pub fn queue_response(read_buf: &mut Vec<u8>, write_buf: &mut Vec<u8>, response: &Response) -> (r: bool)
    ensures
        r == (response.body@.len() > 0),
        r ==> final(write_buf)@ == response_wire(
            response.status,
            response.content_type,
            response.headers@,
            response.body@,
        ) && final(read_buf)@ == Seq::<u8>::empty(),
        !r ==> final(write_buf)@ == old(write_buf)@ && final(read_buf)@ == old(read_buf)@,
{
    if response.body.len() == 0 {
        return false;
    }
    *write_buf = response.to_bytes();
    read_buf.clear();
    true
}

/// What a plain loop does with a connection after its write turn (`None`
/// when the write failed): a finished write goes back to reading, or
/// closes the connection while draining; a blocked write waits as it is; a
/// closed peer or a failure closes it.
pub fn after_write(result: Option<WriteState>, draining: bool) -> (r: ConnUpdate)
    ensures
        r == (match result {
            Some(WriteState::Done) => if draining {
                ConnUpdate::Close
            } else {
                ConnUpdate::Watch(Interest::Read)
            },
            Some(WriteState::Continue) => ConnUpdate::Keep,
            Some(WriteState::Close) => ConnUpdate::Close,
            None => ConnUpdate::Close,
        }),
{
    match result {
        Some(WriteState::Done) => if draining {
            ConnUpdate::Close
        } else {
            ConnUpdate::Watch(Interest::Read)
        },
        Some(WriteState::Continue) => ConnUpdate::Keep,
        Some(WriteState::Close) => ConnUpdate::Close,
        None => ConnUpdate::Close,
    }
}

/// What the TLS loop does with a connection after its write turn (`None`
/// when the write failed): a finished write goes back to reading, a
/// blocked one waits for writability, a closed peer or a failure closes it.
pub fn after_tls_write(result: Option<WriteState>) -> (r: ConnUpdate)
    ensures
        r == (match result {
            Some(WriteState::Done) => ConnUpdate::Watch(Interest::Read),
            Some(WriteState::Continue) => ConnUpdate::Watch(Interest::Write),
            Some(WriteState::Close) => ConnUpdate::Close,
            None => ConnUpdate::Close,
        }),
{
    match result {
        Some(WriteState::Done) => ConnUpdate::Watch(Interest::Read),
        Some(WriteState::Continue) => ConnUpdate::Watch(Interest::Write),
        Some(WriteState::Close) => ConnUpdate::Close,
        None => ConnUpdate::Close,
    }
}

/// What a loop does with a connection after its read turn (`None` when the
/// read failed, `Some(false)` when the peer closed it): an open connection
/// with a reply pending is watched for writability, one without stays as
/// it is; a closed or failed one is closed.
pub fn after_read(result: Option<bool>, reply_pending: bool) -> (r: ConnUpdate)
    ensures
        r == (match result {
            Some(true) => if reply_pending {
                ConnUpdate::Watch(Interest::Write)
            } else {
                ConnUpdate::Keep
            },
            Some(false) => ConnUpdate::Close,
            None => ConnUpdate::Close,
        }),
{
    match result {
        Some(true) => if reply_pending {
            ConnUpdate::Watch(Interest::Write)
        } else {
            ConnUpdate::Keep
        },
        Some(false) => ConnUpdate::Close,
        None => ConnUpdate::Close,
    }
}

/// What follows a step of a TLS handshake.
pub fn after_handshake(outcome: HandshakeOutcome) -> (r: HandshakeNext)
    ensures
        r == (match outcome {
            HandshakeOutcome::Completed => HandshakeNext::Proceed,
            HandshakeOutcome::WouldBlock => HandshakeNext::Wait,
            HandshakeOutcome::Failed => HandshakeNext::Close,
        }),
{
    match outcome {
        HandshakeOutcome::Completed => HandshakeNext::Proceed,
        HandshakeOutcome::WouldBlock => HandshakeNext::Wait,
        HandshakeOutcome::Failed => HandshakeNext::Close,
    }
}

/// The head of a polling loop: a shutdown request starts a drain once; a
/// drain ends when no connection is left or its deadline has passed;
/// otherwise the loop polls.
pub fn loop_control(draining: bool, shutdown_requested: bool, open: usize, deadline_passed: bool) -> (r: LoopControl)
    ensures
        r == (if !draining && shutdown_requested {
            LoopControl::BeginDrain
        } else if draining && (open == 0 || deadline_passed) {
            LoopControl::Stop
        } else {
            LoopControl::Poll
        }),
{
    if !draining && shutdown_requested {
        LoopControl::BeginDrain
    } else if draining && (open == 0 || deadline_passed) {
        LoopControl::Stop
    } else {
        LoopControl::Poll
    }
}

/// The entries of `s` whose indices are not in `marked`, in their order.
pub open spec fn keep_unmarked(s: Seq<PollEntry>, marked: Seq<usize>) -> Seq<PollEntry>
    decreases s.len(),
{
    if s.len() == 0 {
        s
    } else {
        let rest = keep_unmarked(s.drop_last(), marked);
        if marked.contains((s.len() - 1) as usize) {
            rest
        } else {
            rest.push(s.last())
        }
    }
}

/// Indices in increasing order, each below `len`.
pub open spec fn increasing_below(marked: Seq<usize>, len: nat) -> bool {
    &&& forall|i: int, j: int| 0 <= i < j < marked.len() ==> marked[i] < marked[j]
    &&& forall|i: int| 0 <= i < marked.len() ==> marked[i] < len
}

/// Removes the entries at the marked indices, keeping the others in order.
pub fn remove_marked(entries: &mut Vec<PollEntry>, marked: &[usize])
    requires
        increasing_below(marked@, old(entries)@.len()),
    ensures
        final(entries)@ == keep_unmarked(old(entries)@, marked@),
        final(entries)@.len() == old(entries)@.len() - marked@.len(),
{
    let ghost s = entries@;
    let mut kept: Vec<PollEntry> = Vec::new();
    let mut i: usize = 0;
    let mut p: usize = 0;
    assert(s.subrange(0, 0) =~= Seq::<PollEntry>::empty());
    while i < entries.len()
        invariant
            entries@ == s,
            increasing_below(marked@, s.len()),
            i <= s.len(),
            p <= marked@.len(),
            forall|k: int| 0 <= k < p ==> marked@[k] < i,
            forall|k: int| p <= k < marked@.len() ==> marked@[k] >= i,
            kept@ == keep_unmarked(s.subrange(0, i as int), marked@),
            kept@.len() == i - p,
        decreases s.len() - i,
    {
        let ghost t = s.subrange(0, i + 1);
        assert(t.drop_last() =~= s.subrange(0, i as int));
        assert(t.last() == s[i as int]);
        if p < marked.len() && marked[p] == i {
            assert(marked@.contains(i));
            p = p + 1;
        } else {
            assert(!marked@.contains(i)) by {
                if marked@.contains(i) {
                    let k = marked@.index_of(i);
                    if k < p {
                    } else if k > p {
                        assert(marked@[p as int] < marked@[k]);
                    }
                }
            }
            kept.push(entries[i]);
        }
        i = i + 1;
    }
    assert(s.subrange(0, s.len() as int) =~= s);
    assert(p == marked@.len()) by {
        if p < marked@.len() {
            assert(marked@[p as int] < s.len());
        }
    }
    *entries = kept;
}

/// Whether `fd` is listed in `pending` as a connection with output waiting.
pub open spec fn output_pending(pending: Seq<(i32, bool)>, fd: i32) -> bool {
    exists|i: int| 0 <= i < pending.len() && pending[i] == (fd, true)
}

/// The poll entries that survive the start of a drain, in their order: the
/// wake-up entry, and those of connections with a reply still pending;
/// idle connections are closed.
pub open spec fn drain_kept(s: Seq<PollEntry>, wake_fd: i32, pending: Seq<(i32, bool)>) -> Seq<PollEntry>
    decreases s.len(),
{
    if s.len() == 0 {
        s
    } else {
        let rest = drain_kept(s.drop_last(), wake_fd, pending);
        if s.last().fd == wake_fd || output_pending(pending, s.last().fd) {
            rest.push(s.last())
        } else {
            rest
        }
    }
}

/// Whether `pending` lists `fd` with output waiting.
fn has_pending_output(pending: &[(i32, bool)], fd: i32) -> (r: bool)
    ensures
        r == output_pending(pending@, fd),
{
    let mut i: usize = 0;
    while i < pending.len()
        invariant
            i <= pending@.len(),
            forall|k: int| 0 <= k < i ==> pending@[k] != (fd, true),
        decreases pending@.len() - i,
    {
        if pending[i].0 == fd && pending[i].1 {
            assert(pending@[i as int] == (fd, true));
            return true;
        }
        i = i + 1;
    }
    false
}

/// The poll entries to keep when a drain starts. `pending` lists each open
/// connection's descriptor with whether a reply is still waiting to be
/// written; the wake-up entry stays, and so does every entry of a
/// connection with a reply pending.
pub fn drain_survivors(entries: &[PollEntry], wake_fd: i32, pending: &[(i32, bool)]) -> (r: Vec<PollEntry>)
    ensures
        r@ == drain_kept(entries@, wake_fd, pending@),
{
    let ghost s = entries@;
    let mut kept: Vec<PollEntry> = Vec::new();
    let mut i: usize = 0;
    assert(s.subrange(0, 0) =~= Seq::<PollEntry>::empty());
    while i < entries.len()
        invariant
            entries@ == s,
            i <= s.len(),
            kept@ == drain_kept(s.subrange(0, i as int), wake_fd, pending@),
        decreases s.len() - i,
    {
        let ghost t = s.subrange(0, i + 1);
        assert(t.drop_last() =~= s.subrange(0, i as int));
        assert(t.last() == s[i as int]);
        let e = entries[i];
        if e.fd == wake_fd || has_pending_output(pending, e.fd) {
            kept.push(e);
        }
        i = i + 1;
    }
    assert(s.subrange(0, s.len() as int) =~= s);
    kept
}

/// The interest an update leaves an entry with.
pub open spec fn updated_interest(current: Interest, update: ConnUpdate) -> Interest {
    match update {
        ConnUpdate::Watch(i) => i,
        _ => current,
    }
}

/// Applies a connection update to its poll entry: returns whether the entry
/// is to be removed, and sets the interest the update names.
pub fn apply_update(entry: &mut PollEntry, update: ConnUpdate) -> (remove: bool)
    ensures
        remove == (update == ConnUpdate::Close),
        final(entry).fd == old(entry).fd,
        final(entry).interest == updated_interest(old(entry).interest, update),
{
    match update {
        ConnUpdate::Keep => false,
        ConnUpdate::Watch(i) => {
            entry.interest = i;
            false
        },
        ConnUpdate::Close => true,
    }
}

} // verus!
