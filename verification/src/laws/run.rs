//! Runs of reads, and what every read keeps.

use vstd::prelude::*;

use crate::laws::parsing::{law_feeding_in_pieces, law_feeding_nothing, lemma_fed_wf};
use crate::measurement::{AccumulatorView, Emission, Measurement};
use crate::stream::{
    after_samples, clamp_u64, lemma_chunk_remainder, overflow, AssemblerView, ReadClocks,
};

verus! {

/// One read as the assembler is told of it.
pub struct Read {
    /// Both clocks when the read returned.
    pub clocks: ReadClocks,
    /// The bytes the read returned.
    pub main: Seq<u8>,
    /// The bytes the drain probe returned.
    pub probe: Seq<u8>,
    /// Whether the read drained the port.
    pub trustable: bool,
}

/// One read of a run.
pub open spec fn step(before: AssemblerView, read: Read) -> (AssemblerView, Seq<Emission>) {
    before.on_read(read.clocks, read.main, read.probe, read.trustable)
}

/// What an assembler holds, and what it has emitted, after `reads`.
pub open spec fn run(start: AssemblerView, reads: Seq<Read>) -> (AssemblerView, Seq<Emission>)
    decreases reads.len(),
{
    if reads.len() == 0 {
        (start, Seq::empty())
    } else {
        let (before, shown) = run(start, reads.drop_last());
        let (after, events) = step(before, reads.last());
        (after, shown + events)
    }
}

/// All the bytes of `reads`, in order.
pub open spec fn bytes_of(reads: Seq<Read>) -> Seq<u8>
    decreases reads.len(),
{
    if reads.len() == 0 {
        Seq::empty()
    } else {
        bytes_of(reads.drop_last()) + (reads.last().main + reads.last().probe)
    }
}

/// What `reads` decode to from the start.
pub open spec fn stream_of(reads: Seq<Read>) -> Seq<Measurement> {
    AccumulatorView::initial().decoded(bytes_of(reads)).samples
}

/// What is held once a read is parsed, before anything is emitted.
pub open spec fn held_at(before: AssemblerView, read: Read) -> AssemblerView {
    before.guarded(read.clocks).0.taken_in(read.main, read.probe, read.trustable)
}

/// What a read found held, and what its bytes decode to.
pub open spec fn found_at(before: AssemblerView, read: Read) -> Seq<Measurement> {
    before.guarded(read.clocks).0.pending + before.parser.decoded(read.main + read.probe).samples
}

/// How many samples are cut off the ring as a read is parsed.
pub open spec fn cut_at(before: AssemblerView, read: Read) -> int {
    let kept = before.guarded(read.clocks).0;
    if kept.anchored(read.main, read.trustable) && kept.pending.len() < kept.chunk {
        0
    } else {
        overflow(found_at(before, read))
    }
}

/// Capture time of the oldest sample held once a read is parsed, if the read places
/// what is held.
pub open spec fn block_at(before: AssemblerView, read: Read) -> Option<int> {
    before.guarded(read.clocks).0.block_start(read.clocks, read.main, read.probe, read.trustable)
}

/// How many samples the drain probe of a read delivered.
pub open spec fn probe_samples(before: AssemblerView, read: Read) -> nat {
    before.parser.fed(read.main).decoded(read.probe).samples.len()
}

/// Whether `e` is a measurement, with or without a match.
pub open spec fn is_data(e: Emission) -> bool {
    e is Match || e is NoMatch
}

/// The stamp of a measurement.
pub open spec fn stamp(e: Emission) -> int {
    match e {
        Emission::Match { read_at, .. } => read_at,
        Emission::NoMatch { read_at, .. } => read_at,
        Emission::Dropped { at, .. } => at,
        Emission::SeamOverlap { at, .. } => at,
    }
}

/// The guard keeps what holds of every assembler, and what it takes in.
pub proof fn lemma_guarded(held: AssemblerView, clocks: ReadClocks)
    requires
        held.wf(),
    ensures
        held.guarded(clocks).0.wf(),
        held.guarded(clocks).0.chunk == held.chunk,
        held.guarded(clocks).0.pins == held.pins,
        held.guarded(clocks).0.parser == held.parser,
        held.guarded(clocks).0.missed == held.missed,
{
}

/// Parsing a read appends what its bytes decode to, and cuts the oldest off where the
/// ring is full. If the read places what is held, its own last sample is dated by the
/// read.
pub proof fn lemma_held(before: AssemblerView, read: Read)
    requires
        before.wf(),
    ensures
        held_at(before, read).sound(),
        held_at(before, read).parser == before.parser.fed(read.main + read.probe),
        0 <= cut_at(before, read) <= found_at(before, read).len(),
        held_at(before, read) == (AssemblerView {
            parser: before.parser.fed(read.main + read.probe),
            pending: found_at(before, read).skip(cut_at(before, read)),
            missed: held_at(before, read).missed,
            dropped: clamp_u64(before.guarded(read.clocks).0.dropped + cut_at(before, read)),
            ..before.guarded(read.clocks).0
        }),
        block_at(before, read) matches Some(first) ==> {
            let ahead = held_at(before, read).pending.len() - 1 - probe_samples(before, read);
            &&& read.trustable
            &&& 0 <= first <= i128::MAX
            &&& first == after_samples(read.clocks.sys as int, -ahead)
        },
        block_at(before, read) is None ==> held_at(before, read).capped().pending == found_at(
            before,
            read,
        ).skip(overflow(found_at(before, read))),
{
    let kept = before.guarded(read.clocks).0;
    let all = kept.ingested(read.main).ingested(read.probe);
    let found = found_at(before, read);
    lemma_guarded(before, read.clocks);
    law_feeding_in_pieces(before.parser, read.main, read.probe);
    lemma_fed_wf(before.parser, read.main);
    lemma_fed_wf(before.parser.fed(read.main), read.probe);
    assert(all.pending =~= found);
    assert(found.skip(0) =~= found);
    assert(found.skip(overflow(found)).skip(0) =~= found.skip(overflow(found)));
}

/// Trimming a block takes samples off its front, and leaves it behind what was
/// delivered, unless the timeline is re-based or nothing is left.
pub proof fn lemma_trimmed(held: AssemblerView, first: int)
    requires
        held.sound(),
        first <= i128::MAX,
    ensures
        held.trimmed(first).sound(),
        held.trim(first) <= held.pending.len(),
        held.trimmed(first).pending.len() == held.pending.len() - held.trim(first),
        first <= after_samples(first, held.trim(first) as int) <= i128::MAX,
        held.trimmed(first).pending.len() > 0 ==> (held.trimmed(
            first,
        ).last_delivered matches Some(last) ==> after_samples(first, held.trim(first) as int)
            > last || after_samples(first, held.trim(first) as int) == i128::MAX),
        held.seam_events(first).len() == 0 ==> held.trim(first) == 0,
        held.seam_events(first).len() > 0 ==> {
            &&& held.seam_events(first) == seq![held.seam_events(first)[0]]
            &&& held.seam_events(first)[0] is SeamOverlap
            &&& held.trimmed(first) == (AssemblerView {
                pending: held.pending.skip(held.trim(first) as int),
                ..held
            })
        },
{
}

/// Emitting keeps what holds of every assembler, and leaves less than a chunk.
pub proof fn lemma_emitted(held: AssemblerView, first: int)
    requires
        held.sound(),
        first <= i128::MAX,
    ensures
        held.emitted(first).0.wf(),
        held.emitted(first).0.pending.len() < held.chunk,
        held.emitted(first).0.chunk == held.chunk,
        held.emitted(first).0.pins == held.pins,
        held.emitted(first).0.parser == held.parser,
{
    lemma_trimmed(held, first);
    lemma_chunk_remainder(held.trimmed(first).pending.len(), held.chunk);
}

/// A read keeps what holds of every assembler, and its bytes are parsed in order.
pub proof fn lemma_step(before: AssemblerView, read: Read)
    requires
        before.wf(),
    ensures
        step(before, read).0.wf(),
        step(before, read).0.chunk == before.chunk,
        step(before, read).0.pins == before.pins,
        step(before, read).0.parser == before.parser.fed(read.main + read.probe),
{
    lemma_held(before, read);
    match block_at(before, read) {
        None => {},
        Some(first) => {
            lemma_emitted(held_at(before, read), first);
        },
    }
}

/// A run keeps what holds of every assembler, and its bytes are parsed in order.
pub proof fn lemma_run(start: AssemblerView, reads: Seq<Read>)
    requires
        start.wf(),
    ensures
        run(start, reads).0.wf(),
        run(start, reads).0.chunk == start.chunk,
        run(start, reads).0.pins == start.pins,
        run(start, reads).0.parser == start.parser.fed(bytes_of(reads)),
    decreases reads.len(),
{
    if reads.len() == 0 {
        law_feeding_nothing(start.parser);
    } else {
        let init = reads.drop_last();
        lemma_run(start, init);
        lemma_step(run(start, init).0, reads.last());
        law_feeding_in_pieces(
            start.parser,
            bytes_of(init),
            reads.last().main + reads.last().probe,
        );
    }
}

} // verus!
