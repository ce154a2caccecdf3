//! Control-message protocol and the drain worker's state machine.
//!
//! Three message kinds ride on one first-in-first-out channel: an ordinary
//! payload, a flush request and a shutdown request. Because a flush request
//! is just another message, the worker reaches it strictly after every
//! message enqueued before it — ordering is enforced by the channel itself.
//! The worker has two states, `Running` and `Stopped`; it moves to `Stopped`
//! only on a shutdown request and consumes nothing afterwards.

use vstd::prelude::*;

verus! {

/// A message travelling from a producer to the drain worker.
#[derive(Clone, Debug)]
pub enum LoggerInput {
    /// An already-formatted line, owned by the queue once enqueued.
    LogMsg(String),
    /// A synchronization marker: the worker acknowledges it once every
    /// earlier message has been processed.
    Flush,
    /// A terminal marker: the worker stops without consuming anything more.
    Quit,
}

/// The worker's acknowledgment, travelling back on the notification channel.
#[derive(Clone, Debug)]
pub enum LoggerOutput {
    /// Every message enqueued before the acknowledged flush has been written.
    Flushed,
}

/// The drain worker's state: `Stopped` is terminal.
pub enum WorkerState {
    Running,
    Stopped,
}

/// What the worker does in reaction to one message.
pub enum Action {
    /// Append this line to the sink.
    Write(String),
    /// Send `Flushed` on the notification channel.
    Acknowledge,
    /// Exit the processing loop.
    Stop,
}

/// The action the worker takes on `msg`.
pub open spec fn step_action(msg: LoggerInput) -> Action {
    match msg {
        LoggerInput::LogMsg(text) => Action::Write(text),
        LoggerInput::Flush => Action::Acknowledge,
        LoggerInput::Quit => Action::Stop,
    }
}

/// The worker's state after consuming `msg` while running.
pub open spec fn step_state(msg: LoggerInput) -> WorkerState {
    match msg {
        LoggerInput::Quit => WorkerState::Stopped,
        _ => WorkerState::Running,
    }
}

/// One transition of the drain worker: maps the received message to the
/// action to perform, and leaves `Running` except on a shutdown request.
/// A message must never reach a stopped worker.
pub fn worker_step(state: &mut WorkerState, msg: LoggerInput) -> (action: Action)
    requires
        *old(state) is Running,
    ensures
        action == step_action(msg),
        *final(state) == step_state(msg),
{
    match msg {
        LoggerInput::LogMsg(text) => Action::Write(text),
        LoggerInput::Flush => Action::Acknowledge,
        LoggerInput::Quit => {
            *state = WorkerState::Stopped;
            Action::Stop
        },
    }
}

/// The texts of the payload messages of `msgs`, in order.
pub open spec fn payload_texts(msgs: Seq<LoggerInput>) -> Seq<Seq<char>>
    decreases msgs.len(),
{
    if msgs.len() == 0 {
        Seq::empty()
    } else {
        let rest = payload_texts(msgs.drop_last());
        if msgs.last() is LogMsg {
            rest.push(msgs.last()->LogMsg_0@)
        } else {
            rest
        }
    }
}

/// How many flush requests `msgs` holds.
pub open spec fn flush_count(msgs: Seq<LoggerInput>) -> nat
    decreases msgs.len(),
{
    if msgs.len() == 0 {
        0
    } else {
        flush_count(msgs.drop_last()) + if msgs.last() is Flush {
            1nat
        } else {
            0nat
        }
    }
}

/// The index of the first shutdown request in `msgs`, or `msgs.len()` if
/// there is none: the worker consumes exactly `msgs.take(first_stop(msgs))`
/// and, if present, the shutdown request itself.
pub open spec fn first_stop(msgs: Seq<LoggerInput>) -> int
    decreases msgs.len(),
{
    if msgs.len() == 0 {
        0
    } else if msgs[0] is Quit {
        0
    } else {
        1 + first_stop(msgs.drop_first())
    }
}

/// The messages the worker processes before stopping.
pub open spec fn consumed_prefix(msgs: Seq<LoggerInput>) -> Seq<LoggerInput> {
    msgs.take(first_stop(msgs))
}

/// The lines the worker writes to the sink when fed `msgs`: the payload
/// texts that precede the first shutdown request, in order.
pub open spec fn written_lines(msgs: Seq<LoggerInput>) -> Seq<Seq<char>> {
    payload_texts(consumed_prefix(msgs))
}

/// How many flush acknowledgments the worker sends when fed `msgs`: one per
/// flush request preceding the first shutdown request.
pub open spec fn ack_count(msgs: Seq<LoggerInput>) -> nat {
    flush_count(consumed_prefix(msgs))
}

/// `first_stop` points at the first shutdown request: nothing before it is
/// one, and it is one itself unless there is none at all.
pub proof fn lemma_first_stop(msgs: Seq<LoggerInput>)
    ensures
        0 <= first_stop(msgs) <= msgs.len(),
        forall|j: int| 0 <= j < first_stop(msgs) ==> !((#[trigger] msgs[j]) is Quit),
        first_stop(msgs) < msgs.len() ==> msgs[first_stop(msgs)] is Quit,
    decreases msgs.len(),
{
    if msgs.len() == 0 {
    } else if msgs[0] is Quit {
    } else {
        let rest = msgs.drop_first();
        lemma_first_stop(rest);
        assert forall|j: int| 0 <= j < first_stop(msgs) implies !((#[trigger] msgs[j]) is Quit) by {
            if j >= 1 {
                assert(msgs[j] == rest[j - 1]);
            }
        }
        if first_stop(msgs) < msgs.len() {
            assert(msgs[first_stop(msgs)] == rest[first_stop(rest)]);
        }
    }
}

/// No sequence holds more flush requests than messages.
proof fn lemma_flush_count_bound(msgs: Seq<LoggerInput>)
    ensures
        flush_count(msgs) <= msgs.len(),
    decreases msgs.len(),
{
    if msgs.len() > 0 {
        lemma_flush_count_bound(msgs.drop_last());
    }
}

/// A payload at position `i` with `r` payloads before it is written as line
/// `r`: the worker loses no payload, duplicates none, and writes each with
/// its own text.
pub proof fn lemma_payload_line_index(msgs: Seq<LoggerInput>, i: int)
    requires
        0 <= i < msgs.len(),
        msgs[i] is LogMsg,
    ensures
        payload_texts(msgs.take(i)).len() < payload_texts(msgs).len(),
        payload_texts(msgs)[payload_texts(msgs.take(i)).len() as int] == msgs[i]->LogMsg_0@,
    decreases msgs.len(),
{
    if i == msgs.len() - 1 {
        assert(msgs.drop_last() =~= msgs.take(i));
    } else {
        let rest = msgs.drop_last();
        lemma_payload_line_index(rest, i);
        assert(rest.take(i) =~= msgs.take(i));
    }
}

/// For two payloads at positions `i < j`, the line written for `i` comes
/// strictly before the line written for `j`: relative order — in particular
/// each single producer's own order — is preserved in the sink.
pub proof fn lemma_payload_order_preserved(msgs: Seq<LoggerInput>, i: int, j: int)
    requires
        0 <= i < j < msgs.len(),
        msgs[i] is LogMsg,
        msgs[j] is LogMsg,
    ensures
        payload_texts(msgs.take(i)).len() < payload_texts(msgs.take(j)).len(),
        payload_texts(msgs)[payload_texts(msgs.take(i)).len() as int] == msgs[i]->LogMsg_0@,
        payload_texts(msgs)[payload_texts(msgs.take(j)).len() as int] == msgs[j]->LogMsg_0@,
{
    lemma_payload_line_index(msgs, i);
    lemma_payload_line_index(msgs, j);
    lemma_payload_line_index(msgs.take(j), i);
    assert(msgs.take(j).take(i) =~= msgs.take(i));
    assert(msgs.take(j)[i] == msgs[i]);
}

/// What is written for a prefix of the messages is a prefix of what is
/// written for all of them.
proof fn lemma_payload_texts_prefix(msgs: Seq<LoggerInput>, n: int)
    requires
        0 <= n <= msgs.len(),
    ensures
        payload_texts(msgs.take(n)).len() <= payload_texts(msgs).len(),
        payload_texts(msgs).take(payload_texts(msgs.take(n)).len() as int) == payload_texts(
            msgs.take(n),
        ),
    decreases msgs.len() - n,
{
    if n == msgs.len() {
        assert(msgs.take(n) =~= msgs);
        assert(payload_texts(msgs).take(payload_texts(msgs).len() as int) =~= payload_texts(msgs));
    } else {
        lemma_payload_texts_prefix(msgs, n + 1);
        assert(msgs.take(n + 1).drop_last() =~= msgs.take(n));
        let shorter = payload_texts(msgs.take(n));
        let longer = payload_texts(msgs.take(n + 1));
        assert(shorter.len() <= longer.len());
        assert(payload_texts(msgs).take(longer.len() as int).take(shorter.len() as int)
            =~= payload_texts(msgs).take(shorter.len() as int));
        assert(longer.take(shorter.len() as int) =~= shorter);
    }
}

/// When the worker reaches a flush request at position `i` — the moment it
/// sends the acknowledgment — every payload enqueued before the request has
/// already been written: the lines written by then are exactly the payload
/// texts of `msgs.take(i)`, they are a stable prefix of everything ever
/// written, and the payload at any earlier position `j` sits among them at
/// its own line index.
pub proof fn lemma_flush_observes_prior_writes(msgs: Seq<LoggerInput>, i: int, j: int)
    requires
        0 <= j < i < msgs.len(),
        msgs[i] is Flush,
        i <= first_stop(msgs),
        msgs[j] is LogMsg,
    ensures
        payload_texts(msgs.take(i)).len() <= written_lines(msgs).len(),
        written_lines(msgs).take(payload_texts(msgs.take(i)).len() as int) == payload_texts(
            msgs.take(i),
        ),
        payload_texts(msgs.take(j)).len() < payload_texts(msgs.take(i)).len(),
        payload_texts(msgs.take(i))[payload_texts(msgs.take(j)).len() as int] == msgs[j]->LogMsg_0@,
{
    lemma_first_stop(msgs);
    lemma_payload_line_index(msgs.take(i), j);
    assert(msgs.take(i).take(j) =~= msgs.take(j));
    assert(msgs.take(i)[j] == msgs[j]);
    lemma_payload_texts_prefix(consumed_prefix(msgs), i);
    assert(consumed_prefix(msgs).take(i) =~= msgs.take(i));
}

/// Feeds a whole batch of messages to the drain worker, appending each
/// payload line to `sink`, and returns the number of flush acknowledgments
/// sent together with the final worker state. The sink gains exactly the
/// payload texts that precede the first shutdown request, in order; one
/// acknowledgment is sent per flush request that the worker reaches; the
/// worker ends `Stopped` exactly when the batch holds a shutdown request,
/// and consumes nothing after it.
pub fn run_worker(msgs: Vec<LoggerInput>, sink: &mut Vec<String>) -> (r: (usize, WorkerState))
    ensures
        r.1 is Stopped <==> first_stop(msgs@) < msgs@.len(),
        r.0 == ack_count(msgs@),
        final(sink)@.len() == old(sink)@.len() + written_lines(msgs@).len(),
        forall|k: int| 0 <= k < old(sink)@.len() ==> #[trigger] final(sink)@[k] == old(sink)@[k],
        forall|k: int|
            0 <= k < written_lines(msgs@).len() ==> (#[trigger] final(sink)@[old(sink)@.len()
                + k])@ == written_lines(msgs@)[k],
{
    let ghost all = msgs@;
    let ghost base = sink@.len() as int;
    let total = msgs.len();
    let mut msgs = msgs;
    let mut state = WorkerState::Running;
    let mut acks: usize = 0;
    let ghost mut i: int = 0;
    proof {
        lemma_first_stop(all);
        assert(all.take(0) =~= Seq::<LoggerInput>::empty());
    }
    loop
        invariant_except_break
            state is Running,
            msgs@ == all.skip(i),
        invariant
            all.len() == total,
            0 <= i <= all.len(),
            forall|j: int| 0 <= j < i ==> !((#[trigger] all[j]) is Quit),
            acks == flush_count(all.take(i)),
            sink@.len() == base + payload_texts(all.take(i)).len(),
            base == old(sink)@.len(),
            forall|k: int| 0 <= k < base ==> #[trigger] sink@[k] == old(sink)@[k],
            forall|k: int|
                0 <= k < payload_texts(all.take(i)).len() ==> (#[trigger] sink@[base + k])@
                    == payload_texts(all.take(i))[k],
        ensures
            (state is Stopped && i < all.len() && all[i] is Quit) || (state is Running && i
                == all.len()),
        decreases all.len() - i,
    {
        if msgs.len() == 0 {
            proof {
                assert(all.skip(i).len() == 0);
            }
            break ;
        }
        let msg = msgs.remove(0);
        let ghost m = msg;
        proof {
            assert(all.skip(i)[0] == all[i]);
            assert(m == all[i]);
            assert(msgs@ =~= all.skip(i + 1));
            assert(all.take(i + 1).drop_last() =~= all.take(i));
            assert(all.take(i + 1).last() == all[i]);
            lemma_flush_count_bound(all.take(i));
        }
        let action = worker_step(&mut state, msg);
        match action {
            Action::Write(text) => {
                sink.push(text);
                proof {
                    i = i + 1;
                }
            },
            Action::Acknowledge => {
                acks = acks + 1;
                proof {
                    i = i + 1;
                }
            },
            Action::Stop => {
                break ;
            },
        }
    }
    proof {
        if state is Stopped {
            assert(first_stop(all) == i);
        } else {
            assert(first_stop(all) == all.len());
        }
        assert(consumed_prefix(all) == all.take(i));
    }
    (acks, state)
}

} // verus!
