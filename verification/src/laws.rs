//! Properties of the append protocol, stated over the model that the store's
//! contracts use and proved once and for all: what a whole sequence of append
//! calls records, and how the store behaves at the capacity boundary.

use vstd::prelude::*;

use crate::store::LogLevel;
use crate::store::LogStore;
use crate::store::clipped;
use crate::store::encoded;
use crate::store::encoded_with_timestamp;
use crate::store::leveled_step;

verus! {

/// One append call, at the level of the model: which operation ran, and with
/// which severity and message bytes.
pub enum LogOp {
    Plain { message: Seq<u8> },
    Leveled { level: LogLevel, message: Seq<u8> },
    Timestamped { level: LogLevel, message: Seq<u8> },
}

/// The bytes one call asks the store to record.
pub open spec fn op_encoding(op: LogOp) -> Seq<u8> {
    match op {
        LogOp::Plain { message } => message,
        LogOp::Leveled { level, message } => encoded(level, message),
        LogOp::Timestamped { level, message } => encoded_with_timestamp(level, message),
    }
}

/// What one call leaves recorded, exactly as the store's contracts state it.
pub open spec fn op_step(log: Seq<u8>, op: LogOp, cap: nat) -> Seq<u8> {
    match op {
        LogOp::Plain { message } => clipped(log, message, cap),
        LogOp::Leveled { level, message } => leveled_step(log, encoded(level, message), cap),
        LogOp::Timestamped { level, message } => leveled_step(
            log,
            encoded_with_timestamp(level, message),
            cap,
        ),
    }
}

/// What a whole sequence of calls leaves recorded, in call order.
pub open spec fn run_ops(log: Seq<u8>, ops: Seq<LogOp>, cap: nat) -> Seq<u8>
    decreases ops.len(),
{
    if ops.len() == 0 {
        log
    } else {
        run_ops(op_step(log, ops[0], cap), ops.drop_first(), cap)
    }
}

/// The concatenation of the bytes the calls ask for, in call order.
pub open spec fn concat_encodings(ops: Seq<LogOp>) -> Seq<u8>
    decreases ops.len(),
{
    if ops.len() == 0 {
        Seq::<u8>::empty()
    } else {
        op_encoding(ops[0]) + concat_encodings(ops.drop_first())
    }
}

/// The calls fit the region: starting from `log_len` occupied bytes, every
/// call's bytes land within capacity, and no leveled call leaves the region
/// exactly full (a leveled call that does triggers the defensive cursor
/// normalization, which drops the last recorded byte).
pub open spec fn ops_fit(log_len: nat, ops: Seq<LogOp>, cap: nat) -> bool
    decreases ops.len(),
{
    if ops.len() == 0 {
        true
    } else {
        let next = log_len + op_encoding(ops[0]).len();
        &&& next <= cap
        &&& (ops[0] is Plain || next < cap)
        &&& ops_fit(next as nat, ops.drop_first(), cap)
    }
}

/// After any sequence of append calls that fits the region, the log is the
/// exact concatenation of the calls' encoded bytes in call order, appended to
/// what was recorded before.
pub proof fn lemma_run_is_concatenation(log: Seq<u8>, ops: Seq<LogOp>, cap: nat)
    requires
        log.len() <= cap,
        ops_fit(log.len(), ops, cap),
    ensures
        run_ops(log, ops, cap) == log + concat_encodings(ops),
    decreases ops.len(),
{
    if ops.len() == 0 {
        assert(log + concat_encodings(ops) =~= log);
    } else {
        let e0 = op_encoding(ops[0]);
        assert(op_step(log, ops[0], cap) == log + e0);
        lemma_run_is_concatenation(log + e0, ops.drop_first(), cap);
        assert((log + e0) + concat_encodings(ops.drop_first())
            =~= log + (e0 + concat_encodings(ops.drop_first())));
    }
}

/// A snapshot taken after any sequence of append calls that fits an
/// initially empty region equals the exact concatenation of their encoded
/// bytes in call order.
pub proof fn lemma_snapshot_is_concatenation(ops: Seq<LogOp>, cap: nat)
    requires
        ops_fit(0, ops, cap),
    ensures
        run_ops(Seq::<u8>::empty(), ops, cap) == concat_encodings(ops),
{
    lemma_run_is_concatenation(Seq::<u8>::empty(), ops, cap);
    assert(Seq::<u8>::empty() + concat_encodings(ops) =~= concat_encodings(ops));
}

/// The cursor of a well-formed store never leaves `[0, capacity]`, and the
/// recorded bytes never outgrow the region.
pub proof fn lemma_cursor_within_capacity(store: LogStore)
    requires
        store.wf(),
    ensures
        0 <= store.cursor <= store.capacity(),
        store.log().len() <= store.capacity(),
{
}

/// Appending plain bytes to an exactly full region records nothing: the
/// operation is an idempotent no-op.
pub proof fn lemma_plain_append_when_full_is_noop(log: Seq<u8>, message: Seq<u8>, cap: nat)
    requires
        log.len() == cap,
    ensures
        clipped(log, message, cap) == log,
{
    assert(clipped(log, message, cap) =~= log);
}

/// A leveled append to an exactly full region records none of its bytes, but
/// the defensive cursor normalization still pulls the cursor back, so the
/// snapshot loses its final byte: the leveled variants are not no-ops there.
pub proof fn lemma_leveled_append_when_full_clamps(log: Seq<u8>, entry: Seq<u8>, cap: nat)
    requires
        1 <= cap,
        log.len() == cap,
        entry.len() >= 1,
    ensures
        leveled_step(log, entry, cap) == log.take(cap - 1),
{
    assert(clipped(log, entry, cap) =~= log);
}

/// Every leveled entry carries at least its terminating newline, so it is
/// never empty.
pub proof fn lemma_encoded_nonempty(level: LogLevel, message: Seq<u8>)
    ensures
        encoded(level, message).len() >= 1,
        encoded_with_timestamp(level, message).len() >= 1,
{
}

/// A plain append whose bytes exceed the remaining capacity fills exactly
/// the remaining bytes with the leading part of the message and drops the
/// rest; the log never exceeds capacity.
pub proof fn lemma_plain_overflow_fills_remaining(log: Seq<u8>, message: Seq<u8>, cap: nat)
    requires
        log.len() <= cap,
        log.len() + message.len() > cap,
    ensures
        clipped(log, message, cap) == log + message.take(cap - log.len()),
        clipped(log, message, cap).len() == cap,
{
    assert(clipped(log, message, cap) =~= log + message.take(cap - log.len()));
}

/// A leveled append whose entry exceeds the remaining capacity fills the
/// region with the entry's leading bytes and drops the rest; the defensive
/// cursor normalization then leaves exactly `capacity - 1` recorded bytes.
pub proof fn lemma_leveled_overflow_fills_remaining(log: Seq<u8>, entry: Seq<u8>, cap: nat)
    requires
        1 <= cap,
        log.len() <= cap,
        log.len() + entry.len() > cap,
    ensures
        leveled_step(log, entry, cap) == (log + entry).take(cap - 1),
        leveled_step(log, entry, cap).len() == cap - 1,
{
    assert(leveled_step(log, entry, cap) =~= (log + entry).take(cap - 1));
}

} // verus!
