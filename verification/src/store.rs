//! The log store: a fixed-capacity byte buffer, a cursor marking how much of
//! it is occupied, and the bounds-checked append operations.

use vstd::prelude::*;
use vstd::slice::slice_subrange;
use vstd::string::StringSliceAdditionalSpecFns;
use vstd::utf8::encode_utf8;

verus! {

/// Severity of a log entry; each variant maps to a fixed ASCII prefix.
pub enum LogLevel {
    Info,
    Warn,
    Error,
}

/// The prefix bytes written ahead of a message of the given severity.
pub open spec fn level_prefix(level: LogLevel) -> Seq<u8> {
    match level {
        LogLevel::Info => encode_utf8("[INFO] "@),
        LogLevel::Warn => encode_utf8("[WARN] "@),
        LogLevel::Error => encode_utf8("[ERROR] "@),
    }
}

/// The byte written after every leveled message.
pub open spec fn newline_byte() -> u8 {
    10
}

/// What appending `addition` to a log of bounded capacity records: the whole
/// of `addition` while it fits, and otherwise exactly the bytes that bring
/// the log up to `cap`, the rest dropped.
pub open spec fn clipped(log: Seq<u8>, addition: Seq<u8>, cap: nat) -> Seq<u8>
    recommends
        log.len() <= cap,
{
    if log.len() + addition.len() <= cap {
        log + addition
    } else {
        (log + addition).take(cap as int)
    }
}

/// What a leveled append records: the bounds-checked copy of `entry`,
/// followed by the defensive normalization step that pulls the cursor back to
/// `cap - 1` whenever the copy left the region exactly full.
pub open spec fn leveled_step(log: Seq<u8>, entry: Seq<u8>, cap: nat) -> Seq<u8>
    recommends
        1 <= cap,
        log.len() <= cap,
{
    let extended = clipped(log, entry, cap);
    if extended.len() == cap {
        extended.take(cap - 1)
    } else {
        extended
    }
}

/// The bytes one leveled append call writes: severity prefix, message,
/// terminating newline.
pub open spec fn encoded(level: LogLevel, message: Seq<u8>) -> Seq<u8> {
    level_prefix(level) + message + seq![newline_byte()]
}

/// The display string the placeholder time source produces, as bytes.
pub open spec fn timestamp_bytes() -> Seq<u8> {
    encode_utf8("????-???-??? ??:??"@)
}

/// The bytes one leveled, timestamped append call writes: timestamp,
/// severity prefix, message, terminating newline.
pub open spec fn encoded_with_timestamp(level: LogLevel, message: Seq<u8>) -> Seq<u8> {
    timestamp_bytes() + encoded(level, message)
}

/// Two bounds-checked appends record the same bytes as one append of the
/// concatenation: clipping never changes which bytes land in the region.
pub proof fn lemma_clipped_of_clipped(log: Seq<u8>, a: Seq<u8>, b: Seq<u8>, cap: nat)
    requires
        log.len() <= cap,
    ensures
        clipped(clipped(log, a, cap), b, cap) == clipped(log, a + b, cap),
{
    assert(clipped(clipped(log, a, cap), b, cap) =~= clipped(log, a + b, cap));
}

/// A bounded log region: the first `cursor` bytes of `buffer` are the
/// recorded log data; the capacity is the buffer's fixed length.
pub struct LogStore {
    pub buffer: Vec<u8>,
    pub cursor: usize,
}

impl LogStore {
    /// The fixed size of the backing region, in bytes.
    pub open spec fn capacity(self) -> nat {
        self.buffer@.len()
    }

    /// The occupied bytes: what a snapshot returns.
    pub open spec fn log(self) -> Seq<u8> {
        self.buffer@.take(self.cursor as int)
    }

    /// Well-formedness: the capacity is positive and the cursor never passes
    /// the end of the region.
    pub open spec fn wf(self) -> bool {
        1 <= self.buffer@.len() && self.cursor <= self.buffer@.len()
    }

    /// Creates a store of the given positive capacity with nothing recorded;
    /// the backing bytes start zeroed.
    pub fn new(capacity: usize) -> (store: LogStore)
        requires
            1 <= capacity,
        ensures
            store.wf(),
            store.capacity() == capacity,
            store.log() == Seq::<u8>::empty(),
    {
        let mut buffer: Vec<u8> = Vec::new();
        let mut i: usize = 0;
        while i < capacity
            invariant
                i <= capacity,
                buffer@.len() == i,
            decreases capacity - i,
        {
            buffer.push(0u8);
            i = i + 1;
        }
        let store = LogStore { buffer, cursor: 0 };
        proof {
            assert(store.log() =~= Seq::<u8>::empty());
        }
        store
    }

    /// Appends the message bytes as they are, one at a time, each write
    /// bounds-checked; bytes past the end of the region are silently dropped.
    /// No prefix or terminator is added.
    pub fn append(&mut self, message: &[u8])
        requires
            old(self).wf(),
        ensures
            final(self).wf(),
            final(self).capacity() == old(self).capacity(),
            final(self).log() == clipped(old(self).log(), message@, old(self).capacity()),
    {
        let mut i: usize = 0;
        while i < message.len()
            invariant
                old(self).wf(),
                i <= message@.len(),
                self.buffer@.len() == old(self).capacity(),
                self.cursor <= self.buffer@.len(),
                self.cursor as int == if old(self).log().len() + i <= old(self).capacity() {
                    old(self).log().len() + i
                } else {
                    old(self).capacity() as int
                },
                self.log() == clipped(
                    old(self).log(),
                    message@.take(i as int),
                    old(self).capacity(),
                ),
            decreases message@.len() - i,
        {
            if self.cursor < self.buffer.len() {
                let ghost prev = *self;
                let b = message[i];
                self.buffer[self.cursor] = b;
                self.cursor = self.cursor + 1;
                proof {
                    assert(self.log() =~= prev.log().push(b));
                    assert(prev.log() == old(self).log() + message@.take(i as int));
                    assert(message@.take(i as int).push(b) =~= message@.take(i + 1));
                    assert((old(self).log() + message@.take(i as int)).push(b)
                        =~= old(self).log() + message@.take(i as int).push(b));
                    assert(self.log() =~= old(self).log() + message@.take(i + 1));
                }
            } else {
                proof {
                    assert(clipped(old(self).log(), message@.take(i + 1), old(self).capacity())
                        =~= clipped(old(self).log(), message@.take(i as int), old(self).capacity()));
                }
            }
            i = i + 1;
        }
        proof {
            assert(message@.take(message@.len() as int) =~= message@);
        }
    }

    /// Appends a single byte, bounds-checked: dropped silently when the
    /// region is already full.
    fn push_byte(&mut self, b: u8)
        requires
            old(self).wf(),
        ensures
            final(self).wf(),
            final(self).capacity() == old(self).capacity(),
            final(self).log() == clipped(old(self).log(), seq![b], old(self).capacity()),
    {
        if self.cursor < self.buffer.len() {
            let ghost prev = *self;
            self.buffer[self.cursor] = b;
            self.cursor = self.cursor + 1;
            proof {
                assert(self.log() =~= prev.log().push(b));
                assert(prev.log().push(b) =~= prev.log() + seq![b]);
            }
        } else {
            proof {
                assert(clipped(old(self).log(), seq![b], old(self).capacity()) =~= self.log());
            }
        }
    }

    /// Pulls the cursor back to `capacity - 1` when the region is exactly
    /// full: the defensive normalization step that closes every leveled
    /// append.
    fn clamp_after_overflow(&mut self)
        requires
            old(self).wf(),
        ensures
            final(self).wf(),
            final(self).capacity() == old(self).capacity(),
            final(self).log() == (if old(self).log().len() == old(self).capacity() {
                old(self).log().take(old(self).capacity() - 1)
            } else {
                old(self).log()
            }),
    {
        if self.cursor >= self.buffer.len() {
            let ghost prev = *self;
            self.cursor = self.buffer.len() - 1;
            proof {
                assert(self.log() =~= prev.log().take(prev.buffer@.len() - 1));
            }
        }
    }

    /// Appends one leveled entry: the severity prefix, the message bytes and
    /// a terminating newline, every byte bounds-checked, then the defensive
    /// cursor normalization. Never fails and never signals truncation.
    pub fn log_message(&mut self, level: LogLevel, message: &str)
        requires
            old(self).wf(),
        ensures
            final(self).wf(),
            final(self).capacity() == old(self).capacity(),
            final(self).log() == leveled_step(
                old(self).log(),
                encoded(level, message.spec_bytes()),
                old(self).capacity(),
            ),
    {
        let prefix = level_prefix_bytes(&level);
        self.append(prefix);
        self.append(message.as_bytes());
        self.push_byte(10);
        proof {
            let cap = old(self).capacity();
            let p = level_prefix(level);
            let m = message.spec_bytes();
            assert(seq![10u8] =~= seq![newline_byte()]);
            lemma_clipped_of_clipped(clipped(old(self).log(), p, cap), m, seq![newline_byte()], cap);
            lemma_clipped_of_clipped(old(self).log(), p, m + seq![newline_byte()], cap);
            assert(p + (m + seq![newline_byte()]) =~= encoded(level, m));
        }
        self.clamp_after_overflow();
    }

    /// Appends one leveled entry preceded by the time source's display
    /// string: timestamp, severity prefix, message, terminating newline,
    /// every byte bounds-checked, then the defensive cursor normalization.
    pub fn log_message_with_timestamp(&mut self, level: LogLevel, message: &str)
        requires
            old(self).wf(),
        ensures
            final(self).wf(),
            final(self).capacity() == old(self).capacity(),
            final(self).log() == leveled_step(
                old(self).log(),
                encoded_with_timestamp(level, message.spec_bytes()),
                old(self).capacity(),
            ),
    {
        let time_stamp = get_current_time();
        self.append(time_stamp.as_bytes());
        let prefix = level_prefix_bytes(&level);
        self.append(prefix);
        self.append(message.as_bytes());
        self.push_byte(10);
        proof {
            let cap = old(self).capacity();
            let t = timestamp_bytes();
            let p = level_prefix(level);
            let m = message.spec_bytes();
            assert(seq![10u8] =~= seq![newline_byte()]);
            lemma_clipped_of_clipped(
                clipped(clipped(old(self).log(), t, cap), p, cap),
                m,
                seq![newline_byte()],
                cap,
            );
            lemma_clipped_of_clipped(
                clipped(old(self).log(), t, cap),
                p,
                m + seq![newline_byte()],
                cap,
            );
            lemma_clipped_of_clipped(old(self).log(), t, p + (m + seq![newline_byte()]), cap);
            assert(t + (p + (m + seq![newline_byte()])) =~= encoded_with_timestamp(level, m));
        }
        self.clamp_after_overflow();
    }

    /// Returns the occupied leading bytes of the region as a read-only view;
    /// never mutates the store and always succeeds.
    pub fn get_log_buffer(&self) -> (snapshot: &[u8])
        requires
            self.wf(),
        ensures
            snapshot@ == self.log(),
    {
        let snapshot = slice_subrange(self.buffer.as_slice(), 0, self.cursor);
        proof {
            assert(snapshot@ =~= self.log());
        }
        snapshot
    }
}

/// The current time rendered for display. The reference environment has no
/// real clock, so this is a fixed placeholder string; any string-producing
/// function satisfies the collaborator contract.
pub fn get_current_time() -> (time: &'static str)
    ensures
        time@ == "????-???-??? ??:??"@,
        time.spec_bytes() == timestamp_bytes(),
{
    "????-???-??? ??:??"
}

/// The ASCII prefix written for the given severity.
pub fn level_prefix_bytes(level: &LogLevel) -> (prefix: &'static [u8])
    ensures
        prefix@ == level_prefix(*level),
{
    match level {
        LogLevel::Info => "[INFO] ".as_bytes(),
        LogLevel::Warn => "[WARN] ".as_bytes(),
        LogLevel::Error => "[ERROR] ".as_bytes(),
    }
}

} // verus!
