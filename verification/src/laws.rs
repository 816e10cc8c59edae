//! What holds of every producer, whatever is scheduled on it and however it
//! is driven.

use vstd::prelude::*;
use crate::block::{lemma_padding_aligns, padding_len, zeros};
use crate::model::{footprints, parts, wholes, EntryView, StreamerView};

verus! {

/// Replacing one entry changes the sum of the footprints by the difference
/// between the two.
pub proof fn lemma_footprints_update(entries: Seq<EntryView>, i: int, e: EntryView)
    requires
        0 <= i < entries.len(),
    ensures
        footprints(entries.update(i, e)) + entries[i].footprint() == footprints(entries)
            + e.footprint(),
    decreases entries.len(),
{
    let updated = entries.update(i, e);
    if i == entries.len() - 1 {
        assert(updated.drop_last() =~= entries.drop_last());
    } else {
        assert(updated.drop_last() =~= entries.drop_last().update(i, e));
        lemma_footprints_update(entries.drop_last(), i, e);
    }
}

/// Scheduling an entry of which nothing was sent leaves the sum of the
/// footprints as it was.
pub proof fn lemma_footprints_push(entries: Seq<EntryView>, e: EntryView)
    requires
        e.fresh(),
    ensures
        footprints(entries.push(e)) == footprints(entries),
{
    assert(entries.push(e).drop_last() =~= entries);
}

/// Sending part of a run keeps the state well-formed and counts every byte;
/// what is left of the run is the run of the state that follows.
#[verifier::rlimit(40)]
pub proof fn lemma_after(s: StreamerView, k: nat)
    requires
        s.wf(),
        0 < k <= s.run().len(),
    ensures
        s.after(k).wf(),
        s.after(k).emitted() == s.emitted() + k,
        s.after(k).mode == s.mode,
        s.after(k).follow == s.follow,
        s.after(k).entries.len() == s.entries.len(),
        k < s.run().len() ==> s.after(k).run() == s.run().skip(k as int),
{
    if s.current >= s.entries.len() {
        assert(s.after(k).run() =~= s.run().skip(k as int));
    } else {
        let c = s.current as int;
        let e = s.entries[c];
        let t = s.after(k);
        let e2 = t.entries[c];
        assert(e.wf());
        lemma_footprints_update(s.entries, c, e2);
        if !e.header_done() {
            assert(e2.footprint() == e.footprint() + k);
        } else {
            assert(e.padding is Some);
            assert(e2.footprint() == e.footprint() + k);
        }
        assert forall|i: int| 0 <= i < t.entries.len() implies (#[trigger] t.entries[i]).wf() by {
            if i != c {
                assert(t.entries[i] == s.entries[i]);
            }
        }
        assert forall|i: int| 0 <= i < t.current implies (#[trigger] t.entries[i]).complete() by {
            if i != c {
                assert(t.entries[i] == s.entries[i]);
            }
        }
        assert forall|i: int| t.current < i < t.entries.len() implies (
        #[trigger] t.entries[i]).fresh() by {
            assert(t.entries[i] == s.entries[i]);
        }
        if t.current < t.entries.len() && t.current != s.current {
            assert(s.entries[t.current as int].fresh());
            assert(s.entries[t.current as int].wf());
        }
        if k < s.run().len() {
            assert(t.run() =~= s.run().skip(k as int));
        }
    }
}

/// Sending a run in two parts comes to the same as sending it in one.
pub proof fn lemma_after_twice(s: StreamerView, a: nat, b: nat)
    requires
        s.wf(),
        0 < a,
        0 < b,
        a + b <= s.run().len(),
    ensures
        s.after(a).after(b) == s.after(a + b),
{
    if s.current >= s.entries.len() {
    } else {
        let c = s.current as int;
        assert(s.entries[c].wf());
        assert(s.after(a).current == s.current);
        assert(s.after(a).after(b).entries =~= s.after(a + b).entries);
    }
}

/// Producing keeps the state well-formed, gives no more bytes than were
/// asked for, and counts each of them. Where it gives fewer, nothing more
/// can be sent until something comes from outside, or ever.
pub proof fn lemma_produce(s: StreamerView, n: nat)
    requires
        s.wf(),
    ensures
        s.produce(n).state.wf(),
        s.produce(n).bytes.len() <= n,
        s.produce(n).state.emitted() == s.emitted() + s.produce(n).bytes.len(),
        s.produce(n).bytes.len() < n ==> s.produce(n).state.run().len() == 0,
        s.produce(n).state.entries.len() == s.entries.len(),
    decreases n,
{
    let run = s.run();
    if n == 0 || run.len() == 0 {
    } else {
        let k = if n <= run.len() {
            n
        } else {
            run.len()
        };
        lemma_after(s, k);
        lemma_produce(s.after(k), (n - k) as nat);
    }
}

/// Asking for `a` bytes of a run that is longer than `a`, and then for `b`
/// more, is asking for `a + b`.
#[verifier::rlimit(40)]
proof fn lemma_split_within_run(s: StreamerView, a: nat, b: nat)
    requires
        s.wf(),
        0 < a < s.run().len(),
    ensures
        s.produce(a).state == s.after(a),
        s.produce(a).bytes == s.run().take(a as int),
        s.produce(a + b).bytes == s.run().take(a as int) + s.after(a).produce(b).bytes,
        s.produce(a + b).state == s.after(a).produce(b).state,
{
    let run = s.run();
    let t = s.after(a);
    lemma_after(s, a);
    assert(t.produce(0).bytes =~= Seq::<u8>::empty());
    assert(s.produce(a).bytes =~= run.take(a as int));
    if b == 0 {
        assert(s.produce(a).bytes + t.produce(0).bytes =~= s.produce(a).bytes);
    } else {
        let k = if a + b <= run.len() {
            a + b
        } else {
            run.len()
        };
        let k2 = (k - a) as nat;
        assert(t.run() == run.skip(a as int));
        lemma_after_twice(s, a, k2);
        let u = s.after(k);
        let tail = u.produce((a + b - k) as nat);
        assert(t.produce(b).bytes == t.run().take(k2 as int) + tail.bytes);
        assert(t.produce(b).state == tail.state);
        assert(s.produce(a + b).bytes == run.take(k as int) + tail.bytes);
        assert(s.produce(a + b).state == tail.state);
        assert(run.take(k as int) =~= run.take(a as int) + run.skip(a as int).take(k2 as int));
        assert(s.produce(a + b).bytes =~= run.take(a as int) + t.produce(b).bytes);
    }
}

/// However a request for bytes is split into smaller requests, the bytes
/// that come out are the same, and so is the state that is reached: asking
/// for `a` bytes and then for `b` is asking for `a + b`.
#[verifier::rlimit(40)]
pub proof fn lemma_produce_split(s: StreamerView, a: nat, b: nat)
    requires
        s.wf(),
    ensures
        s.produce(a + b).bytes == s.produce(a).bytes + s.produce(a).state.produce(b).bytes,
        s.produce(a + b).state == s.produce(a).state.produce(b).state,
    decreases a,
{
    let run = s.run();
    if a == 0 || run.len() == 0 {
        assert(s.produce(a).state == s);
        assert(s.produce(a).bytes =~= Seq::<u8>::empty());
        assert(s.produce(a + b).bytes == s.produce(b).bytes);
        assert(s.produce(a).bytes + s.produce(b).bytes =~= s.produce(b).bytes);
    } else if a >= run.len() {
        let k = run.len();
        let t = s.after(k);
        lemma_after(s, k);
        lemma_produce_split(t, (a - k) as nat, b);
        let head = run.take(k as int);
        let first = t.produce((a - k) as nat);
        let whole = t.produce((a + b - k) as nat);
        assert(s.produce(a).bytes == head + first.bytes);
        assert(s.produce(a).state == first.state);
        assert(s.produce(a + b).bytes == head + whole.bytes);
        assert(s.produce(a + b).state == whole.state);
        assert(whole.bytes == first.bytes + first.state.produce(b).bytes);
        assert(head + (first.bytes + first.state.produce(b).bytes) =~= (head + first.bytes)
            + first.state.produce(b).bytes);
    } else {
        lemma_split_within_run(s, a, b);
    }
}

/// Every entry that the producer has left behind, and whose payload was
/// not given up short of a block boundary, was sent as a whole number of
/// blocks: header, payload and padding together.
pub proof fn lemma_entry_aligned(s: StreamerView, i: int)
    requires
        s.wf(),
        0 <= i < s.current,
        !s.entries[i].cut_short(),
    ensures
        s.entries[i].footprint() % 512 == 0,
{
    let e = s.entries[i];
    assert(e.wf());
    assert(e.complete());
    lemma_padding_aligns(e.read_bytes);
}

/// The footprints of entries that are each a whole number of blocks add up
/// to a whole number of blocks.
proof fn lemma_footprints_aligned(entries: Seq<EntryView>)
    requires
        forall|i: int| 0 <= i < entries.len() ==> (#[trigger] entries[i]).footprint() % 512 == 0,
    ensures
        footprints(entries) % 512 == 0,
    decreases entries.len(),
{
    if entries.len() > 0 {
        let front = entries.drop_last();
        assert forall|i: int| 0 <= i < front.len() implies (#[trigger] front[i]).footprint() % 512
            == 0 by {
            assert(front[i] == entries[i]);
        }
        lemma_footprints_aligned(front);
        assert(entries.last() == entries[entries.len() - 1]);
    }
}

/// Once every entry is sent, all that is left to come is the zero bytes of
/// the two closing blocks: whatever is asked for, zeros come out, as many
/// as are still owed, and nothing but their count changes.
pub proof fn lemma_trailer(s: StreamerView, n: nat)
    requires
        s.wf(),
        s.current >= s.entries.len(),
    ensures
        n <= s.finish_remaining ==> s.produce(n).bytes == zeros(n) && s.produce(n).state == (
        StreamerView { finish_remaining: (s.finish_remaining - n) as nat, ..s }),
        n > s.finish_remaining ==> s.produce(n).bytes == zeros(s.finish_remaining) && s.produce(
            n,
        ).state == (StreamerView { finish_remaining: 0, ..s }),
{
    let run = s.run();
    if n == 0 || run.len() == 0 {
        assert(s.produce(n).bytes =~= zeros(0));
    } else {
        let k = if n <= run.len() {
            n
        } else {
            run.len()
        };
        let t = s.after(k);
        assert(t.run().len() == s.finish_remaining - k);
        assert(t.produce((n - k) as nat).bytes =~= Seq::<u8>::empty());
        assert(t.produce((n - k) as nat).state == t);
        assert(s.produce(n).bytes =~= zeros(k));
    }
}

/// A finished archive in which no payload was given up short of a block
/// boundary is a whole number of blocks long, and ends with the 1024 zero
/// bytes of its two closing blocks, which follow the last entry.
pub proof fn lemma_archive_aligned(s: StreamerView)
    requires
        s.wf(),
        s.finished(),
        forall|i: int| 0 <= i < s.entries.len() ==> !(#[trigger] s.entries[i]).cut_short(),
    ensures
        s.emitted() % 512 == 0,
        s.emitted() == footprints(s.entries) + 1024,
        footprints(s.entries) % 512 == 0,
{
    assert forall|i: int| 0 <= i < s.entries.len() implies (#[trigger] s.entries[i]).footprint()
        % 512 == 0 by {
        lemma_entry_aligned(s, i);
    }
    lemma_footprints_aligned(s.entries);
}

/// Where one entry has more sent than before, and nothing has been sent of
/// the entries behind it, what it has more comes at the end of all that
/// was sent.
pub proof fn lemma_parts_grow(
    entries: Seq<EntryView>,
    payloads: Seq<Seq<u8>>,
    c: int,
    e: EntryView,
    payload: Seq<u8>,
    more: Seq<u8>,
)
    requires
        0 <= c < entries.len(),
        payloads.len() == entries.len(),
        e.part(payload) == entries[c].part(payloads[c]) + more,
        forall|j: int| c < j < entries.len() ==> (#[trigger] entries[j]).part(payloads[j]).len() == 0,
    ensures
        parts(entries.update(c, e), payloads.update(c, payload)) == parts(entries, payloads) + more,
    decreases entries.len(),
{
    let entries2 = entries.update(c, e);
    let payloads2 = payloads.update(c, payload);
    let last = entries.len() - 1;
    if c == last {
        assert(entries2.drop_last() =~= entries.drop_last());
        assert(payloads2.drop_last() =~= payloads.drop_last());
        assert(parts(entries2, payloads2) =~= parts(entries, payloads) + more);
    } else {
        assert(entries2.drop_last() =~= entries.drop_last().update(c, e));
        assert(payloads2.drop_last() =~= payloads.drop_last().update(c, payload));
        assert forall|j: int| c < j < entries.drop_last().len() implies (
        #[trigger] entries.drop_last()[j]).part(payloads.drop_last()[j]).len() == 0 by {
            assert(entries.drop_last()[j] == entries[j]);
        }
        lemma_parts_grow(entries.drop_last(), payloads.drop_last(), c, e, payload, more);
        assert(entries[last].part(payloads[last]).len() == 0);
        assert(entries2.last() == entries[last]);
        assert(payloads2.last() == payloads[last]);
        assert(parts(entries2, payloads2) =~= parts(entries, payloads) + more);
    }
}

/// Nothing has been sent of an entry of which nothing has been sent.
proof fn lemma_fresh_part(e: EntryView, payload: Seq<u8>)
    requires
        e.fresh(),
        payload.len() == e.read_bytes,
    ensures
        e.part(payload).len() == 0,
{
}

/// The bytes of a run that are sent come at the end of all that was sent.
#[verifier::rlimit(40)]
pub proof fn lemma_after_transcript(s: StreamerView, payloads: Seq<Seq<u8>>, k: nat)
    requires
        s.wf(),
        s.fits(payloads),
        0 < k <= s.run().len(),
    ensures
        s.after(k).fits(payloads),
        s.after(k).transcript(payloads) == s.transcript(payloads) + s.run().take(k as int),
{
    let t = s.after(k);
    if s.current >= s.entries.len() {
        assert(zeros((1024 - t.finish_remaining) as nat) =~= zeros(
            (1024 - s.finish_remaining) as nat,
        ) + s.run().take(k as int));
        assert(t.transcript(payloads) =~= s.transcript(payloads) + s.run().take(k as int));
    } else {
        let c = s.current as int;
        let e = s.entries[c];
        let e2 = t.entries[c];
        let more = s.run().take(k as int);
        assert(e.wf());
        assert(t.entries =~= s.entries.update(c, e2));
        assert(payloads.update(c, payloads[c]) =~= payloads);
        assert(payloads[c].len() == e.read_bytes);
        if !e.header_done() {
            let h = e.header->Some_0;
            assert(h.take((e.header_sent + k) as int) =~= h.take(e.header_sent as int) + more);
            assert(payloads[c] =~= Seq::<u8>::empty());
            assert(e2.part(payloads[c]) =~= e.part(payloads[c]) + more);
        } else {
            assert(zeros(e2.padding_sent()) =~= zeros(e.padding_sent()) + more);
            assert(e2.part(payloads[c]) =~= e.part(payloads[c]) + more);
        }
        assert forall|j: int| c < j < s.entries.len() implies (#[trigger] s.entries[j]).part(
            payloads[j],
        ).len() == 0 by {
            lemma_fresh_part(s.entries[j], payloads[j]);
        }
        lemma_parts_grow(s.entries, payloads, c, e2, payloads[c], more);
        assert(zeros((1024 - s.finish_remaining) as nat) =~= Seq::<u8>::empty());
        assert(t.transcript(payloads) =~= s.transcript(payloads) + more);
        assert forall|i: int| 0 <= i < payloads.len() implies (#[trigger] payloads[i]).len()
            == t.entries[i].read_bytes by {
            if i != c {
                assert(t.entries[i] == s.entries[i]);
            }
        }
    }
}

/// What [`StreamerView::produce`] sends comes at the end of all that was
/// sent; the payloads are as they were.
pub proof fn lemma_produce_transcript(s: StreamerView, payloads: Seq<Seq<u8>>, n: nat)
    requires
        s.wf(),
        s.fits(payloads),
    ensures
        s.produce(n).state.fits(payloads),
        s.produce(n).state.transcript(payloads) == s.transcript(payloads) + s.produce(n).bytes,
    decreases n,
{
    let run = s.run();
    if n == 0 || run.len() == 0 {
        assert(s.transcript(payloads) + s.produce(n).bytes =~= s.transcript(payloads));
    } else {
        let k = if n <= run.len() {
            n
        } else {
            run.len()
        };
        let t = s.after(k);
        lemma_after(s, k);
        lemma_after_transcript(s, payloads, k);
        lemma_produce_transcript(t, payloads, (n - k) as nat);
        let rest = t.produce((n - k) as nat);
        assert(s.produce(n).bytes == run.take(k as int) + rest.bytes);
        assert((s.transcript(payloads) + run.take(k as int)) + rest.bytes =~= s.transcript(
            payloads,
        ) + (run.take(k as int) + rest.bytes));
    }
}

/// The bytes that a payload gives come at the end of all that was sent.
/// The end of a payload sends nothing.
#[verifier::rlimit(40)]
pub proof fn lemma_payload_transcript(s: StreamerView, payloads: Seq<Seq<u8>>, chunk: Seq<u8>)
    requires
        s.wf(),
        s.fits(payloads),
        s.awaits_payload(),
    ensures
        s.after_payload(chunk.len()).fits(
            payloads.update(s.current as int, payloads[s.current as int] + chunk),
        ),
        s.after_payload(chunk.len()).transcript(
            payloads.update(s.current as int, payloads[s.current as int] + chunk),
        ) == s.transcript(payloads) + chunk,
{
    let c = s.current as int;
    let e = s.entries[c];
    let t = s.after_payload(chunk.len());
    let grown = payloads[c] + chunk;
    let payloads2 = payloads.update(c, grown);
    assert(e.wf());
    assert forall|j: int| c < j < s.entries.len() implies (#[trigger] s.entries[j]).part(
        payloads[j],
    ).len() == 0 by {
        lemma_fresh_part(s.entries[j], payloads[j]);
    }
    if chunk.len() > 0 {
        let e2 = t.entries[c];
        assert(t.entries =~= s.entries.update(c, e2));
        assert(e2.part(grown) =~= e.part(payloads[c]) + chunk);
        lemma_parts_grow(s.entries, payloads, c, e2, grown, chunk);
    } else {
        assert(grown =~= payloads[c]);
        assert(payloads2 =~= payloads);
        if padding_len(e.read_bytes) == 0 {
            assert(t.entries == s.entries);
        } else {
            let e2 = t.entries[c];
            assert(t.entries =~= s.entries.update(c, e2));
            assert(e2.part(grown) =~= e.part(payloads[c]) + chunk);
            lemma_parts_grow(s.entries, payloads, c, e2, grown, chunk);
        }
        assert(s.transcript(payloads) + chunk =~= s.transcript(payloads));
    }
    assert forall|i: int| 0 <= i < payloads2.len() implies (#[trigger] payloads2[i]).len()
        == t.entries[i].read_bytes by {
        if i != c {
            assert(payloads2[i] == payloads[i]);
            assert(t.entries[i] == s.entries[i]);
        }
    }
}

/// A header that is made for an entry, and a payload that is given up,
/// send nothing.
pub proof fn lemma_quiet_steps(s: StreamerView, payloads: Seq<Seq<u8>>, header: Seq<u8>)
    requires
        s.wf(),
        s.fits(payloads),
    ensures
        s.awaits_header() ==> s.with_header(header).fits(payloads) && s.with_header(header).transcript(payloads) == s.transcript(payloads),
        s.awaits_payload() ==> s.after_skip().fits(payloads) && s.after_skip().transcript(payloads)
            == s.transcript(payloads),
{
    if s.awaits_header() {
        let c = s.current as int;
        let e = s.entries[c];
        let t = s.with_header(header);
        let e2 = t.entries[c];
        assert(e.wf());
        assert(t.entries =~= s.entries.update(c, e2));
        assert(payloads.update(c, payloads[c]) =~= payloads);
        assert(header.take(0) =~= Seq::<u8>::empty());
        assert(e2.part(payloads[c]) =~= e.part(payloads[c]) + Seq::<u8>::empty());
        assert forall|j: int| c < j < s.entries.len() implies (#[trigger] s.entries[j]).part(
            payloads[j],
        ).len() == 0 by {
            lemma_fresh_part(s.entries[j], payloads[j]);
        }
        lemma_parts_grow(s.entries, payloads, c, e2, payloads[c], Seq::<u8>::empty());
        assert(parts(s.entries, payloads) + Seq::<u8>::empty() =~= parts(s.entries, payloads));
        assert forall|i: int| 0 <= i < payloads.len() implies (#[trigger] payloads[i]).len()
            == t.entries[i].read_bytes by {
            if i != c {
                assert(t.entries[i] == s.entries[i]);
            }
        }
    }
}

/// Scheduling an entry sends nothing; the new entry has no payload yet.
pub proof fn lemma_scheduled_transcript(s: StreamerView, payloads: Seq<Seq<u8>>, e: EntryView)
    requires
        s.fits(payloads),
        e.fresh(),
        !s.closed(),
    ensures
        s.scheduled(e).fits(payloads.push(Seq::empty())),
        s.scheduled(e).transcript(payloads.push(Seq::empty())) == s.transcript(payloads),
{
    let t = s.scheduled(e);
    let payloads2 = payloads.push(Seq::<u8>::empty());
    assert(t.entries.drop_last() =~= s.entries);
    assert(payloads2.drop_last() =~= payloads);
    assert(e.part(Seq::<u8>::empty()) =~= Seq::<u8>::empty());
    assert(parts(t.entries, payloads2) =~= parts(s.entries, payloads));
    assert forall|i: int| 0 <= i < payloads2.len() implies (#[trigger] payloads2[i]).len()
        == t.entries[i].read_bytes by {
        if i < payloads.len() {
            assert(payloads2[i] == payloads[i]);
            assert(t.entries[i] == s.entries[i]);
        }
    }
}

/// Of entries that the producer has left behind, all has been sent.
proof fn lemma_parts_of_complete(entries: Seq<EntryView>, payloads: Seq<Seq<u8>>)
    requires
        payloads.len() == entries.len(),
        forall|i: int| 0 <= i < entries.len() ==> (#[trigger] entries[i]).wf(),
        forall|i: int| 0 <= i < entries.len() ==> (#[trigger] entries[i]).complete(),
        forall|i: int|
            0 <= i < entries.len() ==> (#[trigger] payloads[i]).len() == entries[i].read_bytes,
    ensures
        parts(entries, payloads) == wholes(entries, payloads),
    decreases entries.len(),
{
    if entries.len() > 0 {
        let last = entries.len() - 1;
        let front = entries.drop_last();
        let front_payloads = payloads.drop_last();
        assert forall|i: int| 0 <= i < front.len() implies (#[trigger] front[i]).wf() by {
            assert(front[i] == entries[i]);
        }
        assert forall|i: int| 0 <= i < front.len() implies (#[trigger] front[i]).complete() by {
            assert(front[i] == entries[i]);
        }
        assert forall|i: int| 0 <= i < front.len() implies (#[trigger] front_payloads[i]).len()
            == front[i].read_bytes by {
            assert(front_payloads[i] == payloads[i]);
            assert(front[i] == entries[i]);
        }
        lemma_parts_of_complete(front, front_payloads);
        let e = entries[last];
        let p = payloads[last];
        assert(e.wf());
        assert(e.complete());
        assert(p.len() == e.read_bytes);
        lemma_padding_aligns(e.read_bytes);
        let h = e.header->Some_0;
        assert(h.take(h.len() as int) =~= h);
        assert(e.part(p) =~= e.whole(p));
    }
}

/// A finished archive is its entries in the order in which they were
/// scheduled, each made of its header, its payload and the zero bytes that
/// fill the payload's last block, and after them 1024 zero bytes. (An entry
/// whose payload was given up has no padding.)
pub proof fn lemma_finished_archive(s: StreamerView, payloads: Seq<Seq<u8>>)
    requires
        s.wf(),
        s.fits(payloads),
        s.finished(),
    ensures
        s.transcript(payloads) == s.archive(payloads),
        s.transcript(payloads).len() >= 1024,
        s.transcript(payloads).skip(s.transcript(payloads).len() - 1024) == zeros(1024),
{
    lemma_parts_of_complete(s.entries, payloads);
    let all = s.transcript(payloads);
    assert(all.skip(all.len() - 1024) =~= zeros(1024));
}

/// As many bytes have been sent as the producer counts.
pub proof fn lemma_transcript_len(s: StreamerView, payloads: Seq<Seq<u8>>)
    requires
        s.wf(),
        s.fits(payloads),
    ensures
        s.transcript(payloads).len() == s.emitted(),
{
    lemma_parts_len(s.entries, payloads);
}

/// What has been sent of entries is as long as their footprints together.
proof fn lemma_parts_len(entries: Seq<EntryView>, payloads: Seq<Seq<u8>>)
    requires
        payloads.len() == entries.len(),
        forall|i: int| 0 <= i < entries.len() ==> (#[trigger] entries[i]).wf(),
        forall|i: int|
            0 <= i < entries.len() ==> (#[trigger] payloads[i]).len() == entries[i].read_bytes,
    ensures
        parts(entries, payloads).len() == footprints(entries),
    decreases entries.len(),
{
    if entries.len() > 0 {
        let last = entries.len() - 1;
        let front = entries.drop_last();
        let front_payloads = payloads.drop_last();
        assert forall|i: int| 0 <= i < front.len() implies (#[trigger] front[i]).wf() by {
            assert(front[i] == entries[i]);
        }
        assert forall|i: int| 0 <= i < front.len() implies (#[trigger] front_payloads[i]).len()
            == front[i].read_bytes by {
            assert(front_payloads[i] == payloads[i]);
            assert(front[i] == entries[i]);
        }
        lemma_parts_len(front, front_payloads);
        assert(entries[last].wf());
        assert(payloads[last].len() == entries[last].read_bytes);
    }
}

/// The header of an entry is made once. No step changes a header that is
/// made: not sending, not a payload that gives bytes, ends or is given up,
/// not the scheduling of another entry; and the step that makes a header is
/// taken for an entry that has none.
pub proof fn lemma_header_made_once(
    s: StreamerView,
    i: int,
    n: nat,
    bytes: Seq<u8>,
    e: EntryView,
)
    requires
        s.wf(),
        0 <= i < s.entries.len(),
        s.entries[i].header is Some,
    ensures
        s.produce(n).state.entries[i].header == s.entries[i].header,
        s.awaits_payload() ==> s.after_payload(n).entries[i].header == s.entries[i].header,
        s.awaits_payload() ==> s.after_skip().entries[i].header == s.entries[i].header,
        s.awaits_header() ==> i != s.current && s.with_header(bytes).entries[i].header
            == s.entries[i].header,
        s.scheduled(e).entries[i].header == s.entries[i].header,
    decreases n,
{
    let run = s.run();
    if n == 0 || run.len() == 0 {
    } else {
        let k = if n <= run.len() {
            n
        } else {
            run.len()
        };
        lemma_after(s, k);
        assert(s.after(k).entries[i].header == s.entries[i].header);
        lemma_header_made_once(s.after(k), i, (n - k) as nat, bytes, e);
    }
}

} // verus!
