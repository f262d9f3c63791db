//! Reads that keep up with the device.

use vstd::prelude::*;

use crate::laws::parsing::{law_feeding_in_pieces, law_feeding_nothing, lemma_fed_wf};
use crate::laws::run::{bytes_of, lemma_emitted, run, step, stream_of, Read};
use crate::measurement::{combined, matching, AccumulatorView, Emission, Measurement};
use crate::stream::{
    after_samples, lemma_chunk_remainder, stall_between, AssemblerView, RAW_SAMPLE_PERIOD,
};
use crate::types::LogicPortPins;
use crate::SPS_MAX;

verus! {

/// Whether `reads` keep up with the device: each drains the port as its last sample
/// is captured, `base` being one period before the first sample of the stream, with
/// no stall.
pub open spec fn steady(base: int, reads: Seq<Read>) -> bool
    decreases reads.len(),
{
    reads.len() == 0 || {
        let init = reads.drop_last();
        let last = reads.last();
        &&& steady(base, init)
        &&& last.trustable
        &&& last.probe.len() == 0
        &&& last.clocks.sys == base + stream_of(reads).len() * RAW_SAMPLE_PERIOD
        &&& init.len() > 0 ==> stall_between(init.last().clocks, last.clocks) is None
    }
}

/// The `c`-th measurement of `samples`, cut into chunks from the start, when the
/// first was captured one period after `base`.
pub open spec fn placed_chunk(
    chunk: nat,
    pins: LogicPortPins,
    base: int,
    samples: Seq<Measurement>,
    c: int,
) -> Emission {
    combined(
        matching(samples.subrange(c * chunk, c * chunk + chunk), pins),
        0,
        base + (c * chunk + 1) * RAW_SAMPLE_PERIOD,
    )
}

/// All the measurements of `samples`, cut into chunks from the start.
pub open spec fn placed(
    chunk: nat,
    pins: LogicPortPins,
    base: int,
    samples: Seq<Measurement>,
) -> Seq<Emission> {
    Seq::new(samples.len() / chunk, |c: int| placed_chunk(chunk, pins, base, samples, c))
}

/// What an assembler holds after steady reads.
pub open spec fn on_track(
    chunk: nat,
    pins: LogicPortPins,
    base: int,
    reads: Seq<Read>,
    held: AssemblerView,
) -> bool {
    let samples = stream_of(reads);
    let q = samples.len() / chunk;
    &&& held.wf()
    &&& held.chunk == chunk
    &&& held.pins == pins
    &&& held.parser == AccumulatorView::initial().fed(bytes_of(reads))
    &&& held.pending == samples.skip((q * chunk) as int)
    &&& held.missed == 0
    &&& held.dropped == 0
    &&& !held.drop_signalled
    &&& !held.rebased
    &&& held.last_delivered == (if q == 0 {
        None
    } else {
        Some(base + q * chunk * RAW_SAMPLE_PERIOD)
    })
    &&& held.last_read == (if reads.len() == 0 {
        None
    } else {
        Some(reads.last().clocks)
    })
}

/// Chunks cut off a stream and off what remains of it are the same chunks.
proof fn lemma_chunks_continue(total: nat, chunk: nat, q: nat)
    requires
        chunk >= 1,
        q * chunk <= total,
    ensures
        total / chunk == q + (total - q * chunk) as nat / chunk,
{
    let left = (total - q * chunk) as nat;
    vstd::arithmetic::div_mod::lemma_fundamental_div_mod(left as int, chunk as int);
    let m = left / chunk;
    assert(total == (q + m) * chunk + left % chunk) by (nonlinear_arith)
        requires
            total == q * chunk + left,
            left == chunk * m + left % chunk,
    ;
    vstd::arithmetic::div_mod::lemma_fundamental_div_mod_converse(
        total as int,
        chunk as int,
        (q + m) as int,
        (left % chunk) as int,
    );
}

/// Emitting what is held on track completes the chunks of the stream.
proof fn lemma_emit_on_track(
    base: int,
    old_s: Seq<Measurement>,
    new_s: Seq<Measurement>,
    held: AssemblerView,
    sys: int,
)
    requires
        held.sound(),
        base + RAW_SAMPLE_PERIOD >= 0,
        old_s.is_prefix_of(new_s),
        old_s.len() < new_s.len(),
        held.pending == new_s.skip((old_s.len() / held.chunk * held.chunk) as int),
        held.missed == 0,
        held.dropped == 0,
        !held.drop_signalled,
        !held.rebased,
        held.last_delivered == (if old_s.len() / held.chunk == 0 {
            None
        } else {
            Some(base + old_s.len() / held.chunk * held.chunk * RAW_SAMPLE_PERIOD)
        }),
        sys == base + new_s.len() * RAW_SAMPLE_PERIOD,
        sys <= i128::MAX,
    ensures
        sys - (held.pending.len() - 1) * RAW_SAMPLE_PERIOD >= 0,
        held.emitted(sys - (held.pending.len() - 1) * RAW_SAMPLE_PERIOD).0 == (AssemblerView {
            pending: new_s.skip((new_s.len() / held.chunk * held.chunk) as int),
            last_delivered: if new_s.len() / held.chunk == 0 {
                None
            } else {
                Some(base + new_s.len() / held.chunk * held.chunk * RAW_SAMPLE_PERIOD)
            },
            ..held
        }),
        placed(held.chunk, held.pins, base, old_s) + held.emitted(
            sys - (held.pending.len() - 1) * RAW_SAMPLE_PERIOD,
        ).1 == placed(held.chunk, held.pins, base, new_s),
{
    let chunk = held.chunk;
    let q = old_s.len() / chunk;
    let qc = q * chunk;
    let len = held.pending.len();
    let first = sys - (len - 1) * RAW_SAMPLE_PERIOD;
    lemma_chunk_remainder(old_s.len(), chunk);
    assert(qc >= 0) by (nonlinear_arith)
        requires
            qc == q * chunk,
    ;
    assert(len == new_s.len() - qc);
    assert(first == base + (qc + 1) * RAW_SAMPLE_PERIOD);
    assert(held.seam_overlap(first) is None);
    assert(held.trimmed(first) =~= held) by {
        assert(held.pending.skip(0) =~= held.pending);
    }
    let n = held.chunks_held();
    lemma_chunks_continue(new_s.len(), chunk, q);
    lemma_chunk_remainder(len, chunk);
    lemma_chunk_remainder(new_s.len(), chunk);
    let total = new_s.len() / chunk;
    assert(total == q + n);
    assert(total * chunk == qc + n * chunk) by (nonlinear_arith)
        requires
            total == q + n,
            qc == q * chunk,
    ;
    let events = held.emitted(first).1;
    let a = placed(chunk, held.pins, base, old_s);
    let b = placed(chunk, held.pins, base, new_s);
    if n == 0 {
        assert(0 * chunk == 0) by (nonlinear_arith);
    } else {
        assert(events =~= held.measurements(first, n));
        assert(held.pending.skip((n * chunk) as int) =~= new_s.skip((total * chunk) as int));
    }
    assert forall|c: int| 0 <= c < b.len() implies #[trigger] (a + events)[c] == b[c] by {
        assert(c * chunk >= 0) by (nonlinear_arith)
            requires
                c >= 0,
                chunk >= 0,
        ;
        assert(c * chunk + chunk <= total * chunk) by (nonlinear_arith)
            requires
                c + 1 <= total,
                chunk >= 0,
        ;
        if c < q {
            assert(c * chunk + chunk <= qc) by (nonlinear_arith)
                requires
                    c + 1 <= q,
                    chunk >= 0,
                    qc == q * chunk,
            ;
            assert(old_s.subrange(c * chunk, c * chunk + chunk) =~= new_s.subrange(
                c * chunk,
                c * chunk + chunk,
            ));
        } else {
            let d = c - q;
            assert(d * chunk == c * chunk - qc) by (nonlinear_arith)
                requires
                    d == c - q,
                    qc == q * chunk,
            ;
            assert(held.chunk_at(d) =~= new_s.subrange(c * chunk, c * chunk + chunk));
            assert(after_samples(first, d * chunk) == base + (c * chunk + 1) * RAW_SAMPLE_PERIOD);
            assert(events[d] == held.measurements(first, n)[d]);
        }
    }
    assert(a + events =~= b);
}

/// What a read leads to that drains the port, with no stall, behind a drained one.
proof fn lemma_quiet_read(before: AssemblerView, read: Read)
    requires
        before.wf(),
        before.pending.len() < before.chunk,
        before.dropped == 0,
        before.missed == 0,
        !before.stalled(read.clocks),
        read.trustable,
        read.probe.len() == 0,
        before.parser.decoded(read.main).missed == 0,
    ensures
        ({
            let held = AssemblerView {
                parser: before.parser.fed(read.main),
                pending: before.pending + before.parser.decoded(read.main).samples,
                last_read: Some(read.clocks),
                ..before
            };
            let first = read.clocks.sys - (held.pending.len() - 1) * RAW_SAMPLE_PERIOD;
            &&& held.sound()
            &&& step(before, read) == (if before.parser.decoded(read.main).samples.len() > 0
                && first >= 0 {
                held.emitted(first)
            } else {
                (held.capped(), Seq::<Emission>::empty())
            })
        }),
{
    let kept = AssemblerView { last_read: Some(read.clocks), ..before };
    let added = before.parser.decoded(read.main).samples;
    let held = AssemblerView {
        parser: before.parser.fed(read.main),
        pending: before.pending + added,
        last_read: Some(read.clocks),
        ..before
    };
    assert(before.guarded(read.clocks) == (kept, Seq::<Emission>::empty()));
    lemma_fed_wf(before.parser, read.main);
    assert(kept.ingested(read.main) =~= held);
    assert(read.probe =~= Seq::empty());
    law_feeding_nothing(held.parser);
    assert(held.pending + held.parser.decoded(read.probe).samples =~= held.pending);
    assert(held.ingested(read.probe) =~= held);
    let first = read.clocks.sys - (held.pending.len() - 1) * RAW_SAMPLE_PERIOD;
    let events = held.emitted(first).1;
    assert(Seq::<Emission>::empty() + events =~= events);
}

/// One more steady read stays on track and emits the chunks that it completes.
proof fn lemma_steady_step(
    chunk: nat,
    pins: LogicPortPins,
    base: int,
    reads: Seq<Read>,
    before: AssemblerView,
)
    requires
        1 <= chunk <= SPS_MAX,
        base + RAW_SAMPLE_PERIOD >= 0,
        reads.len() > 0,
        steady(base, reads),
        AccumulatorView::initial().decoded(bytes_of(reads)).missed == 0,
        on_track(chunk, pins, base, reads.drop_last(), before),
    ensures
        on_track(chunk, pins, base, reads, step(before, reads.last()).0),
        placed(chunk, pins, base, stream_of(reads.drop_last())) + step(before, reads.last()).1
            == placed(chunk, pins, base, stream_of(reads)),
{
    let init = reads.drop_last();
    let last = reads.last();
    let old_s = stream_of(init);
    let new_s = stream_of(reads);
    let parser = AccumulatorView::initial();
    law_feeding_in_pieces(parser, bytes_of(init), last.main + last.probe);
    assert(last.main + last.probe =~= last.main);
    let added = before.parser.decoded(last.main).samples;
    assert(new_s =~= old_s + added);
    let q = old_s.len() / chunk;
    let qc = q * chunk;
    lemma_chunk_remainder(old_s.len(), chunk);
    lemma_fed_wf(parser, bytes_of(init));
    lemma_quiet_read(before, last);
    let held = AssemblerView {
        parser: before.parser.fed(last.main),
        pending: new_s.skip(qc as int),
        last_read: Some(last.clocks),
        ..before
    };
    assert(before.pending + added =~= new_s.skip(qc as int));
    let len = held.pending.len();
    if added.len() == 0 {
        assert(new_s =~= old_s);
        assert(held.pending.skip(0) =~= held.pending);
        assert(held.capped() =~= held);
        assert(placed(chunk, pins, base, old_s) + step(before, last).1 =~= placed(
            chunk,
            pins,
            base,
            old_s,
        ));
    } else {
        let first = last.clocks.sys - (len - 1) * RAW_SAMPLE_PERIOD;
        lemma_emit_on_track(base, old_s, new_s, held, last.clocks.sys as int);
        assert(step(before, last) == held.emitted(first));
        lemma_emitted(held, first);
    }
}

proof fn lemma_steady_run(chunk: nat, pins: LogicPortPins, base: int, reads: Seq<Read>)
    requires
        1 <= chunk <= SPS_MAX,
        base + RAW_SAMPLE_PERIOD >= 0,
        steady(base, reads),
        AccumulatorView::initial().decoded(bytes_of(reads)).missed == 0,
    ensures
        on_track(chunk, pins, base, reads, run(AssemblerView::initial(chunk, pins), reads).0),
        run(AssemblerView::initial(chunk, pins), reads).1 == placed(
            chunk,
            pins,
            base,
            stream_of(reads),
        ),
    decreases reads.len(),
{
    let start = AssemblerView::initial(chunk, pins);
    if reads.len() == 0 {
        law_feeding_nothing(AccumulatorView::initial());
        assert(stream_of(reads) =~= Seq::empty());
        assert(0nat / chunk == 0) by (nonlinear_arith)
            requires
                chunk >= 1,
        ;
        assert(0 * chunk == 0) by (nonlinear_arith);
        assert(stream_of(reads).skip(0) =~= Seq::empty());
    } else {
        let init = reads.drop_last();
        law_feeding_in_pieces(
            AccumulatorView::initial(),
            bytes_of(init),
            reads.last().main + reads.last().probe,
        );
        lemma_steady_run(chunk, pins, base, init);
        lemma_steady_step(chunk, pins, base, reads, run(start, init).0);
    }
}

/// While reads keep up with the device, the stream is cut into chunks from its first
/// sample on, and each chunk is stamped with the time at which its first sample was
/// captured, however the bytes were split over the reads.
pub proof fn law_steady_reads_place_every_chunk(
    chunk: nat,
    pins: LogicPortPins,
    base: int,
    reads: Seq<Read>,
)
    requires
        1 <= chunk <= SPS_MAX,
        base + RAW_SAMPLE_PERIOD >= 0,
        steady(base, reads),
        AccumulatorView::initial().decoded(bytes_of(reads)).missed == 0,
    ensures
        run(AssemblerView::initial(chunk, pins), reads).1 == placed(
            chunk,
            pins,
            base,
            stream_of(reads),
        ),
{
    lemma_steady_run(chunk, pins, base, reads);
}

/// The size of the reads makes no difference to what is emitted, stamps included:
/// two ways to read the same bytes, both keeping up with the device, give the same
/// measurements.
pub proof fn law_read_size_is_irrelevant(
    chunk: nat,
    pins: LogicPortPins,
    base: int,
    some: Seq<Read>,
    others: Seq<Read>,
)
    requires
        1 <= chunk <= SPS_MAX,
        base + RAW_SAMPLE_PERIOD >= 0,
        steady(base, some),
        steady(base, others),
        bytes_of(some) == bytes_of(others),
        AccumulatorView::initial().decoded(bytes_of(some)).missed == 0,
    ensures
        run(AssemblerView::initial(chunk, pins), some).1 == run(
            AssemblerView::initial(chunk, pins),
            others,
        ).1,
{
    lemma_steady_run(chunk, pins, base, some);
    lemma_steady_run(chunk, pins, base, others);
}

} // verus!
