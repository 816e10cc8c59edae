//! The producer as a mathematical object: the queue of entries with the
//! progress made on each, and the steps that the producer takes.
//!
//! An entry is sent as its header bytes, then, for a regular file, its
//! payload and the zero bytes that fill the payload's last block. Header,
//! padding and the closing zero blocks are bytes that the producer holds;
//! only the payload comes from outside, piece by piece. A *run* is what the
//! producer can send next without asking anyone.

use vstd::prelude::*;
use crate::block::{padding_len, zeros};
use crate::header::HeaderMode;

verus! {

/// What an entry is made from.
#[derive(Clone, Copy, Debug, PartialEq, Eq, Structural)]
pub enum EntryKind {
    /// A file on disk, named by its path; header and payload are taken from
    /// the file system when the entry's turn comes.
    Path,
    /// A header given in advance, and a payload that the caller supplies.
    Stream,
    /// A fifo or a device on disk: a header only, made when its turn comes.
    Special,
    /// A hard or symbolic link: a header only, given in advance.
    Link,
}

impl EntryKind {
    /// True for the kinds whose header is followed by a payload.
    pub open spec fn has_payload(self) -> bool {
        self == EntryKind::Path || self == EntryKind::Stream
    }
}

/// One scheduled entry and how far it has been sent.
pub struct EntryView {
    pub kind: EntryKind,
    /// Where the file lies on disk; empty for entries that are not made
    /// from a path.
    pub path: Seq<u8>,
    /// The name under which the file is archived, if it is not its path.
    pub name: Option<Seq<u8>>,
    /// Whether a symbolic link at `path` stands for the file it points to.
    pub follow: bool,
    pub mode: HeaderMode,
    /// The bytes that open the entry, once they are known.
    pub header: Option<Seq<u8>>,
    /// How many of them have been sent.
    pub header_sent: nat,
    /// How many bytes of payload have been sent.
    pub read_bytes: nat,
    /// Once the payload has ended short of a block boundary: how many zero
    /// bytes are still owed.
    pub padding: Option<nat>,
}

impl EntryView {
    /// True once all of the header has been sent.
    pub open spec fn header_done(self) -> bool {
        self.header matches Some(h) && self.header_sent == h.len()
    }

    /// True of an entry of which nothing has been sent.
    pub open spec fn fresh(self) -> bool {
        self.header_sent == 0 && self.read_bytes == 0 && self.padding is None
    }

    /// True of an entry that has nothing more to send and waits for
    /// nothing: a header-only entry after its header, a payload entry after
    /// its padding.
    pub open spec fn exhausted(self) -> bool {
        self.header_done() && (self.kind.has_payload() ==> self.padding == Some(0nat))
    }

    /// True of an entry that the producer has left behind.
    pub open spec fn complete(self) -> bool {
        self.header_done() && (self.padding matches Some(k) ==> k == 0)
    }

    /// How many bytes of padding have been sent.
    pub open spec fn padding_sent(self) -> nat {
        match self.padding {
            Some(k) => (padding_len(self.read_bytes) - k) as nat,
            None => 0,
        }
    }

    /// How many bytes of this entry have been sent in all.
    pub open spec fn footprint(self) -> nat {
        self.header_sent + self.read_bytes + self.padding_sent()
    }

    /// True of an entry whose payload was given up at an offset that is no
    /// block boundary: it got no padding.
    pub open spec fn cut_short(self) -> bool {
        self.padding is None && self.read_bytes % 512 != 0
    }

    /// The bytes that open the entry; none as long as they are not known.
    pub open spec fn header_bytes(self) -> Seq<u8> {
        match self.header {
            Some(h) => h,
            None => Seq::empty(),
        }
    }

    /// What has been sent of this entry so far, if `payload` is what its
    /// payload has given: the part of the header that was sent, the
    /// payload, and the padding that was sent.
    pub open spec fn part(self, payload: Seq<u8>) -> Seq<u8> {
        self.header_bytes().take(self.header_sent as int) + payload + zeros(self.padding_sent())
    }

    /// All that an entry is in the archive once the producer has left it
    /// behind, if `payload` is what its payload gave: the header, the
    /// payload, and the zero bytes that fill the payload's last block,
    /// unless the payload was given up.
    pub open spec fn whole(self, payload: Seq<u8>) -> Seq<u8> {
        self.header_bytes() + payload + zeros(
            if self.cut_short() {
                0
            } else {
                padding_len(payload.len())
            },
        )
    }

    pub open spec fn wf(self) -> bool {
        &&& self.read_bytes <= u64::MAX
        &&& match self.header {
            Some(h) => h.len() >= 512 && h.len() % 512 == 0 && self.header_sent <= h.len(),
            None => self.header_sent == 0 && (self.kind == EntryKind::Path || self.kind
                == EntryKind::Special),
        }
        &&& (self.read_bytes > 0 || self.padding is Some) ==> self.kind.has_payload()
            && self.header_done()
        &&& self.padding matches Some(k) ==> 0 < padding_len(self.read_bytes) && k <= padding_len(
            self.read_bytes,
        )
    }
}

/// What the producer needs from outside before it can go on.
#[derive(Clone, Copy, Debug, PartialEq, Eq, Structural)]
pub enum Need {
    /// Nothing: the buffer is full, or the archive is finished.
    Nothing,
    /// The header of the entry at `index` has to be made: the file at its
    /// path is to be examined.
    Header { index: usize },
    /// The payload of the entry at `index` is due, from byte `offset` on.
    Payload { index: usize, offset: u64 },
}

/// The state of a producer.
pub struct StreamerView {
    pub mode: HeaderMode,
    pub follow: bool,
    /// The entries in the order in which they were scheduled.
    pub entries: Seq<EntryView>,
    /// Index of the entry that is being sent; the number of entries once
    /// all of them have been.
    pub current: nat,
    /// How many of the 1024 closing zero bytes are still to be sent.
    pub finish_remaining: nat,
}

/// A state and the bytes that were sent on the way to it.
pub struct Produced {
    pub state: StreamerView,
    pub bytes: Seq<u8>,
}

/// The sum of the footprints of `entries`.
pub open spec fn footprints(entries: Seq<EntryView>) -> nat
    decreases entries.len(),
{
    if entries.len() == 0 {
        0
    } else {
        footprints(entries.drop_last()) + entries.last().footprint()
    }
}

/// What has been sent of `entries`, one after the other, if `payloads` is
/// what their payloads have given.
pub open spec fn parts(entries: Seq<EntryView>, payloads: Seq<Seq<u8>>) -> Seq<u8>
    decreases entries.len(),
{
    if entries.len() == 0 {
        Seq::empty()
    } else {
        parts(entries.drop_last(), payloads.drop_last()) + entries.last().part(payloads.last())
    }
}

/// The entries of a finished archive, one after the other, if `payloads` is
/// what their payloads gave.
pub open spec fn wholes(entries: Seq<EntryView>, payloads: Seq<Seq<u8>>) -> Seq<u8>
    decreases entries.len(),
{
    if entries.len() == 0 {
        Seq::empty()
    } else {
        wholes(entries.drop_last(), payloads.drop_last()) + entries.last().whole(payloads.last())
    }
}

impl StreamerView {
    /// True if `payloads` can be what the payloads of the entries have
    /// given so far: one run of bytes for each entry, as long as the count
    /// that the entry keeps.
    pub open spec fn fits(self, payloads: Seq<Seq<u8>>) -> bool {
        &&& payloads.len() == self.entries.len()
        &&& forall|i: int|
            0 <= i < payloads.len() ==> (#[trigger] payloads[i]).len() == self.entries[i].read_bytes
    }

    /// All that has been sent so far, if `payloads` is what the payloads
    /// have given: the entries in the order in which they were scheduled,
    /// each as far as it was sent, and the closing zero bytes that were
    /// sent.
    pub open spec fn transcript(self, payloads: Seq<Seq<u8>>) -> Seq<u8> {
        parts(self.entries, payloads) + zeros((1024 - self.finish_remaining) as nat)
    }

    /// The finished archive, if `payloads` is what the payloads gave: the
    /// entries in the order in which they were scheduled, and two blocks of
    /// zeros.
    pub open spec fn archive(self, payloads: Seq<Seq<u8>>) -> Seq<u8> {
        wholes(self.entries, payloads) + zeros(1024)
    }

    pub open spec fn wf(self) -> bool {
        &&& self.current <= self.entries.len()
        &&& self.finish_remaining <= 1024
        &&& self.current < self.entries.len() ==> self.finish_remaining == 1024
        &&& forall|i: int| 0 <= i < self.entries.len() ==> (#[trigger] self.entries[i]).wf()
        &&& forall|i: int| 0 <= i < self.current ==> (#[trigger] self.entries[i]).complete()
        &&& forall|i: int|
            self.current < i < self.entries.len() ==> (#[trigger] self.entries[i]).fresh()
        &&& self.current < self.entries.len() ==> !self.entries[self.current as int].exhausted()
    }

    /// A producer with nothing scheduled and nothing sent.
    pub open spec fn initial() -> StreamerView {
        StreamerView {
            mode: HeaderMode::Complete,
            follow: true,
            entries: Seq::empty(),
            current: 0,
            finish_remaining: 1024,
        }
    }

    /// True once the first of the closing zero bytes has been sent: nothing
    /// can be scheduled any more.
    pub open spec fn closed(self) -> bool {
        self.finish_remaining < 1024
    }

    /// True once the whole archive has been sent.
    pub open spec fn finished(self) -> bool {
        self.current >= self.entries.len() && self.finish_remaining == 0
    }

    /// The state after `entry` was scheduled. A closed producer takes no
    /// more entries.
    pub open spec fn scheduled(self, entry: EntryView) -> StreamerView {
        if self.closed() {
            self
        } else {
            StreamerView { entries: self.entries.push(entry), ..self }
        }
    }

    /// True if the entry whose turn it is has no header yet.
    pub open spec fn awaits_header(self) -> bool {
        self.current < self.entries.len() && self.entries[self.current as int].header is None
    }

    /// True if the entry whose turn it is has sent its header and its
    /// payload has not ended.
    pub open spec fn awaits_payload(self) -> bool {
        &&& self.current < self.entries.len()
        &&& self.entries[self.current as int].header_done()
        &&& self.entries[self.current as int].kind.has_payload()
        &&& self.entries[self.current as int].padding is None
    }

    /// What has to come from outside before more can be sent.
    pub open spec fn blocker(self) -> Need {
        if self.awaits_header() {
            Need::Header { index: self.current as usize }
        } else if self.awaits_payload() {
            Need::Payload {
                index: self.current as usize,
                offset: self.entries[self.current as int].read_bytes as u64,
            }
        } else {
            Need::Nothing
        }
    }

    /// The bytes that can be sent next without anything from outside: the
    /// rest of the current header or padding, or of the closing zero blocks.
    pub open spec fn run(self) -> Seq<u8> {
        if self.current >= self.entries.len() {
            zeros(self.finish_remaining)
        } else {
            let e = self.entries[self.current as int];
            match e.header {
                None => Seq::empty(),
                Some(h) => if e.header_sent < h.len() {
                    h.skip(e.header_sent as int)
                } else {
                    match e.padding {
                        Some(k) => zeros(k),
                        None => Seq::empty(),
                    }
                },
            }
        }
    }

    /// The state with the current entry replaced by `e`, and the next entry
    /// taking its turn if `e` is exhausted.
    pub open spec fn with_current(self, e: EntryView) -> StreamerView {
        StreamerView {
            entries: self.entries.update(self.current as int, e),
            current: if e.exhausted() {
                self.current + 1
            } else {
                self.current
            },
            ..self
        }
    }

    /// The state after the first `k` bytes of the run were sent.
    pub open spec fn after(self, k: nat) -> StreamerView {
        if self.current >= self.entries.len() {
            StreamerView { finish_remaining: (self.finish_remaining - k) as nat, ..self }
        } else {
            let e = self.entries[self.current as int];
            if !e.header_done() {
                self.with_current(EntryView { header_sent: e.header_sent + k, ..e })
            } else {
                self.with_current(
                    EntryView { padding: Some((e.padding->Some_0 - k) as nat), ..e },
                )
            }
        }
    }

    /// Sending up to `n` bytes: run after run, until `n` bytes are sent or
    /// something is needed from outside or the archive is finished.
    pub open spec fn produce(self, n: nat) -> Produced
        decreases n,
    {
        let run = self.run();
        if n == 0 || run.len() == 0 {
            Produced { state: self, bytes: Seq::empty() }
        } else {
            let k = if n <= run.len() {
                n
            } else {
                run.len()
            };
            let rest = self.after(k).produce((n - k) as nat);
            Produced { state: rest.state, bytes: run.take(k as int) + rest.bytes }
        }
    }

    /// The state after the header `bytes` was made for the current entry.
    pub open spec fn with_header(self, bytes: Seq<u8>) -> StreamerView {
        let e = self.entries[self.current as int];
        StreamerView {
            entries: self.entries.update(
                self.current as int,
                EntryView { header: Some(bytes), ..e },
            ),
            ..self
        }
    }

    /// The state after the payload of the current entry gave `n` more
    /// bytes. No bytes means that the payload has ended: the entry then
    /// owes its padding, or is done if it needs none.
    pub open spec fn after_payload(self, n: nat) -> StreamerView {
        let e = self.entries[self.current as int];
        if n > 0 {
            StreamerView {
                entries: self.entries.update(
                    self.current as int,
                    EntryView { read_bytes: e.read_bytes + n, ..e },
                ),
                ..self
            }
        } else if padding_len(e.read_bytes) == 0 {
            StreamerView { current: self.current + 1, ..self }
        } else {
            StreamerView {
                entries: self.entries.update(
                    self.current as int,
                    EntryView { padding: Some(padding_len(e.read_bytes)), ..e },
                ),
                ..self
            }
        }
    }

    /// The state after the payload of the current entry was given up: the
    /// next entry takes its turn, and no padding is sent.
    pub open spec fn after_skip(self) -> StreamerView {
        StreamerView { current: self.current + 1, ..self }
    }

    /// How many bytes of the archive have been sent so far, payloads
    /// included.
    pub open spec fn emitted(self) -> nat {
        (footprints(self.entries) + 1024 - self.finish_remaining) as nat
    }
}

} // verus!
