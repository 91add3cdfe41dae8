//! The bookkeeping of the signal path: the delay line of a filter, the gains
//! that the filters were made for, and the cutting of the sample stream into
//! blocks for the meters.
//!
//! Samples and filter coefficients are numbers of the caller's choice, which
//! this module keeps and orders. Gains are IEEE singles, by their bit patterns.

use vstd::prelude::*;
use vstd::arithmetic::power2::pow2;
use crate::equalizer::live_gain;
use crate::single::{
    distance, exponent, fraction, is_nearest, negative, single_of, strays, value, whole_single,
};

verus! {

/// The number of samples in a block.
pub const BLOCK: usize = 1024;

/// A second-order filter section: its coefficients, and the last two inputs and
/// outputs, of which the lower number is the later one.
pub struct Biquad<S> {
    pub a1: S,
    pub a2: S,
    pub b0: S,
    pub b1: S,
    pub b2: S,
    pub x1: S,
    pub x2: S,
    pub y1: S,
    pub y2: S,
}

impl<S: Copy> Biquad<S> {
    /// A section with the given coefficients that has seen nothing but `rest`.
    pub fn at_rest(b0: S, b1: S, b2: S, a1: S, a2: S, rest: S) -> (section: Biquad<S>)
        ensures
            section == (Biquad { a1, a2, b0, b1, b2, x1: rest, x2: rest, y1: rest, y2: rest }),
    {
        Biquad { a1, a2, b0, b1, b2, x1: rest, x2: rest, y1: rest, y2: rest }
    }

    /// The section after it turned the input `x` into the output `y`.
    pub open spec fn recorded(self, x: S, y: S) -> Biquad<S> {
        Biquad { x1: x, x2: self.x1, y1: y, y2: self.y1, ..self }
    }

    /// Notes that the input `x` was turned into the output `y`.
    pub fn record(&mut self, x: S, y: S)
        ensures
            *final(self) == old(self).recorded(x, y),
    {
        self.x2 = self.x1;
        self.x1 = x;
        self.y2 = self.y1;
        self.y1 = y;
    }
}

/// What the signal path remembers from sample to sample: the gains, as singles,
/// that its filters were made for, and the block that is being filled.
pub struct DspEngine<S> {
    pub last_eq: [u32; 10],
    pub window: Vec<S>,
}

/// The filter of a band was made for a gain that lies more than a tenth of a
/// decibel away from the one that its slider's level stands for.
pub open spec fn moved(last: u32, level: u32) -> bool {
    crate::single::is_off(crate::equalizer::heard_gain(level), last)
}

/// What the filter of a band is to be made for: its slider's gain where that has
/// moved, and what it was made for before where not.
pub open spec fn follows(before: u32, level: u32, after: u32) -> bool {
    if moved(before, level) {
        crate::single::stands_for(after, crate::equalizer::heard_gain(level))
    } else {
        after == before
    }
}

/// Every band follows its level, and `changed` tells whether one has moved.
pub open spec fn retuned(
    before: [u32; 10],
    levels: [u32; 10],
    after: [u32; 10],
    changed: bool,
) -> bool {
    &&& forall|i: int| 0 <= i < 10 ==> follows(before[i], #[trigger] levels[i], after[i])
    &&& changed == exists|i: int| 0 <= i < 10 && moved(before[i], #[trigger] levels[i])
}

/// What a sample does to the block that is being filled: the block, where the
/// sample completes it, and what is being filled then.
pub open spec fn taken<S>(window: Seq<S>, sample: S) -> (Option<Seq<S>>, Seq<S>) {
    let filled = window.push(sample);
    if filled.len() >= BLOCK {
        (Some(filled), Seq::empty())
    } else {
        (None, filled)
    }
}

impl<S> DspEngine<S> {
    /// The block that is being filled is not full.
    pub open spec fn wf(self) -> bool {
        self.window@.len() < BLOCK
    }

    /// A signal path whose filters were made for the given gains.
    pub fn new(gains: [u32; 10]) -> (engine: DspEngine<S>)
        ensures
            engine.wf(),
            engine.last_eq == gains,
            engine.window@ == Seq::<S>::empty(),
    {
        DspEngine { last_eq: gains, window: Vec::new() }
    }

    /// Follows the sliders: takes over the gains that have moved, and says
    /// whether one has, so that the filters have to be made anew.
    pub fn retune(&mut self, levels: &[u32; 10]) -> (changed: bool)
        requires
            forall|i: int| 0 <= i < 10 ==> crate::equalizer::is_level(#[trigger] levels[i]),
        ensures
            changed == exists|i: int|
                0 <= i < 10 && moved(old(self).last_eq[i], #[trigger] levels[i]),
            forall|i: int|
                0 <= i < 10 ==> follows(
                    old(self).last_eq[i],
                    #[trigger] levels[i],
                    final(self).last_eq[i],
                ),
            retuned(old(self).last_eq, *levels, final(self).last_eq, changed),
            final(self).window == old(self).window,
    {
        let mut changed: bool = false;
        let mut i: usize = 0;
        while i < 10
            invariant
                i <= 10,
                self.window == old(self).window,
                forall|k: int| 0 <= k < 10 ==> crate::equalizer::is_level(#[trigger] levels[k]),
                forall|k: int|
                    0 <= k < i ==> follows(
                        old(self).last_eq[k],
                        #[trigger] levels[k],
                        self.last_eq[k],
                    ),
                forall|k: int| i <= k < 10 ==> #[trigger] self.last_eq[k] == old(self).last_eq[k],
                changed == exists|k: int|
                    0 <= k < i && moved(old(self).last_eq[k], #[trigger] levels[k]),
            decreases 10 - i,
        {
            assert(crate::equalizer::is_level(levels[i as int]));
            let gain: i32 = live_gain(levels[i]);
            if strays(whole_single(gain as i64), self.last_eq[i]) {
                self.last_eq[i] = single_of(gain as i64);
                changed = true;
            }
            i = i + 1;
        }
        changed
    }

    /// Takes a sample in. Where it completes a block, the block is handed out
    /// and another one is begun.
    pub fn push(&mut self, sample: S) -> (block: Option<Vec<S>>)
        requires
            old(self).wf(),
        ensures
            final(self).wf(),
            final(self).last_eq == old(self).last_eq,
            taken(old(self).window@, sample) == (
                match block {
                    Some(full) => Some(full@),
                    None => None,
                },
                final(self).window@,
            ),
    {
        self.window.push(sample);
        if self.window.len() >= BLOCK {
            let mut full: Vec<S> = Vec::new();
            std::mem::swap(&mut full, &mut self.window);
            Some(full)
        } else {
            None
        }
    }
}

/// What a stream of samples makes of a block that is being filled: the blocks
/// that it completes, and what is being filled in the end.
pub open spec fn cut<S>(window: Seq<S>, stream: Seq<S>) -> (Seq<Seq<S>>, Seq<S>)
    decreases stream.len(),
{
    if stream.len() == 0 {
        (Seq::empty(), window)
    } else {
        let (blocks, rest) = cut(window, stream.drop_last());
        let (block, filling) = taken(rest, stream.last());
        match block {
            Some(full) => (blocks.push(full), filling),
            None => (blocks, filling),
        }
    }
}

/// A stream is cut without loss: its blocks are its successive stretches of the
/// block length, and what is left over is being filled.
pub proof fn law_stream_is_cut_without_loss<S>(stream: Seq<S>)
    ensures
        ({
            let (blocks, rest) = cut(Seq::<S>::empty(), stream);
            let whole = stream.len() / (BLOCK as nat);
            &&& blocks.len() == whole
            &&& forall|k: int|
                0 <= k < whole ==> #[trigger] blocks[k] == stream.subrange(
                    BLOCK * k,
                    BLOCK * k + BLOCK,
                )
            &&& rest == stream.skip(BLOCK * whole)
        }),
    decreases stream.len(),
{
    let (blocks, rest) = cut(Seq::<S>::empty(), stream);
    let whole = stream.len() / (BLOCK as nat);
    if stream.len() == 0 {
        assert(rest == stream.skip(0));
    } else {
        let before = stream.drop_last();
        law_stream_is_cut_without_loss(before);
        let (blocks0, rest0) = cut(Seq::<S>::empty(), before);
        let whole0 = before.len() / (BLOCK as nat);
        assert(rest0.push(stream.last()) == stream.skip(BLOCK * whole0));
        assert forall|k: int| 0 <= k < whole implies #[trigger] blocks[k] == stream.subrange(
            BLOCK * k,
            BLOCK * k + BLOCK,
        ) by {
            if k < whole0 {
                assert(blocks[k] == blocks0[k]);
                assert(before.subrange(BLOCK * k, BLOCK * k + BLOCK) == stream.subrange(
                    BLOCK * k,
                    BLOCK * k + BLOCK,
                ));
            } else {
                assert(stream.skip(BLOCK * whole0) == stream.subrange(
                    BLOCK * k,
                    BLOCK * k + BLOCK,
                ));
            }
        }
        if whole > whole0 {
            assert(stream.skip(BLOCK * whole) == Seq::<S>::empty());
        }
    }
}

/// Every block has the block length.
pub proof fn law_blocks_are_full<S>(window: Seq<S>, stream: Seq<S>)
    requires
        window.len() < BLOCK,
    ensures
        forall|k: int|
            0 <= k < cut(window, stream).0.len() ==> (#[trigger] cut(window, stream).0[k]).len()
                == BLOCK,
        cut(window, stream).1.len() < BLOCK,
    decreases stream.len(),
{
    if stream.len() > 0 {
        law_blocks_are_full(window, stream.drop_last());
        let (blocks, rest) = cut(window, stream.drop_last());
        assert forall|k: int| 0 <= k < cut(window, stream).0.len() implies (
        #[trigger] cut(window, stream).0[k]).len() == BLOCK by {
            if k < blocks.len() {
                assert(cut(window, stream).0[k] == blocks[k]);
            }
        }
    }
}

/// Gains that were taken over are not taken over again while the sliders rest:
/// after a band followed its level, that level no longer counts as moved, nor
/// does any other that stands for the same gain; every other does.
pub proof fn law_only_moved_sliders_count(before: u32, level: u32, after: u32, later: u32)
    requires
        follows(before, level, after),
    ensures
        !moved(after, level),
        moved(before, level) ==> (moved(after, later) <==> crate::equalizer::heard_gain(later)
            != crate::equalizer::heard_gain(level)),
{
    if moved(before, level) {
        crate::single::law_singles_tell_whole_numbers_apart(
            after,
            crate::equalizer::heard_gain(level),
            crate::equalizer::heard_gain(later),
        );
    }
}

/// A section keeps the last two inputs and outputs, in order, and its
/// coefficients whatever it is fed.
pub proof fn law_section_remembers_two<S: Copy>(
    section: Biquad<S>,
    x: S,
    y: S,
    next_x: S,
    next_y: S,
)
    ensures
        ({
            let after = section.recorded(x, y).recorded(next_x, next_y);
            &&& (after.x1, after.x2) == (next_x, x)
            &&& (after.y1, after.y2) == (next_y, y)
            &&& (after.b0, after.b1, after.b2) == (section.b0, section.b1, section.b2)
            &&& (after.a1, after.a2) == (section.a1, section.a2)
        }),
{
}

/// A section at rest has the coefficients it was given, and has seen nothing but rest.
pub proof fn law_section_starts_at_rest<S: Copy>(
    b0: S,
    b1: S,
    b2: S,
    a1: S,
    a2: S,
    rest: S,
    section: Biquad<S>,
)
    requires
        call_ensures(Biquad::<S>::at_rest, (b0, b1, b2, a1, a2, rest), section),
    ensures
        section.b0 == b0,
        section.b1 == b1,
        section.b2 == b2,
        section.a1 == a1,
        section.a2 == a2,
        section.x1 == rest,
        section.x2 == rest,
        section.y1 == rest,
        section.y2 == rest,
{
}

/// Recording puts the new input and output first, moves the former first ones to second
/// place, and keeps the coefficients.
pub proof fn law_recording_shifts_the_line<S: Copy>(section: &mut Biquad<S>, x: S, y: S)
    requires
        call_ensures(Biquad::<S>::record, (section, x, y), ()),
    ensures
        final(section).x1 == x,
        final(section).x2 == old(section).x1,
        final(section).y1 == y,
        final(section).y2 == old(section).y1,
        final(section).b0 == old(section).b0,
        final(section).b1 == old(section).b1,
        final(section).b2 == old(section).b2,
        final(section).a1 == old(section).a1,
        final(section).a2 == old(section).a2,
{
}

/// A signal path starts with the gains it was given and no samples.
pub proof fn law_signal_path_starts_empty<S>(gains: [u32; 10], engine: DspEngine<S>)
    requires
        call_ensures(DspEngine::<S>::new, (gains,), engine),
    ensures
        engine.last_eq == gains,
        engine.window@.len() == 0,
{
}

/// A sample is put behind those that are being gathered. When it is the 1024th they are
/// handed out, all of them and in order, and gathering begins anew; before that nothing
/// is handed out. The gains stay.
pub proof fn law_samples_are_gathered_by_1024<S>(
    engine: &mut DspEngine<S>,
    sample: S,
    block: Option<Vec<S>>,
)
    requires
        old(engine).window@.len() < 1024,
        call_ensures(DspEngine::<S>::push, (engine, sample), block),
    ensures
        old(engine).window@.len() < 1023 ==> block is None && final(engine).window@
            == old(engine).window@.push(sample),
        old(engine).window@.len() == 1023 ==> block is Some && block->0@
            == old(engine).window@.push(sample) && final(engine).window@.len() == 0,
        final(engine).last_eq == old(engine).last_eq,
{
}

/// What a stream is cut into, block by block, is its stretches of 1024 samples.
pub proof fn law_blocks_are_stretches_of_1024<S>(stream: Seq<S>, k: int)
    ensures
        cut(Seq::<S>::empty(), stream).0.len() == stream.len() / 1024,
        0 <= k < stream.len() / 1024 ==> cut(Seq::<S>::empty(), stream).0[k] == stream.subrange(
            1024 * k,
            1024 * k + 1024,
        ),
        cut(Seq::<S>::empty(), stream).1 == stream.skip(1024 * (stream.len() / 1024) as int),
{
    law_stream_is_cut_without_loss(stream);
}

/// A level, read as a signed number of 32 bits, less twenty, in steps.
spec fn gain_of(level: u32) -> int {
    (if level < 0x8000_0000 {
        level - 20
    } else {
        level - 20 - 0x1_0000_0000
    }) * pow2(149)
}

/// The single that a level's gain is taken for.
proof fn lemma_heard(level: u32) -> (near: u32)
    ensures
        is_nearest(near, gain_of(level)),
        value(near) == crate::equalizer::heard_gain(level) * pow2(149),
{
    crate::single::lemma_whole_is_nearest(crate::equalizer::signed(level) - 20)
}

/// A band follows its slider when, and only when, the slider's gain lies more than a tenth
/// of a decibel away from the gain that the band's filter was made for: then it takes over
/// the slider's gain, to the nearest single, and else it keeps its own. A gain that is no
/// number is kept, and one that is infinite is not.
pub proof fn law_band_follows_its_slider<S>(
    engine: &mut DspEngine<S>,
    levels: [u32; 10],
    changed: bool,
    band: int,
) -> (near: u32)
    requires
        0 <= band < 10,
        call_ensures(DspEngine::<S>::retune, (engine, &levels), changed),
    ensures
        is_nearest(
            near,
            (if levels[band] < 0x8000_0000 {
                levels[band] - 20
            } else {
                levels[band] - 20 - 0x1_0000_0000
            }) * pow2(149),
        ),
        ({
            let before = old(engine).last_eq[band];
            let after = final(engine).last_eq[band];
            let far = if exponent(before) == 0xff {
                fraction(before) == 0
            } else {
                distance(value(near), value(before)) > 13421773 * pow2(122)
            };
            &&& far ==> exponent(after) < 0xff && value(after) == value(near) && changed
            &&& far ==> (negative(after) <==> value(after) < 0)
            &&& !far ==> after == before
        }),
        final(engine).window == old(engine).window,
{
    crate::single::lemma_tenth();
    let heard = crate::equalizer::heard_gain(levels[band]);
    let unit = pow2(149) as int;
    assert(heard < 0 <==> heard * unit < 0) by (nonlinear_arith)
        requires
            unit > 0,
    ;
    assert(retuned(old(engine).last_eq, levels, final(engine).last_eq, changed));
    assert(follows(old(engine).last_eq[band], levels[band], final(engine).last_eq[band]));
    lemma_heard(levels[band])
}

/// The filters are made anew only where a band has followed its slider: while none lies
/// more than a tenth of a decibel off, no gain changes.
pub proof fn law_filters_rest_with_the_sliders<S>(
    engine: &mut DspEngine<S>,
    levels: [u32; 10],
    changed: bool,
) -> (band: int)
    requires
        call_ensures(DspEngine::<S>::retune, (engine, &levels), changed),
    ensures
        changed ==> 0 <= band < 10 && final(engine).last_eq[band] != old(engine).last_eq[band],
        !changed ==> final(engine).last_eq@ == old(engine).last_eq@,
{
    assert(retuned(old(engine).last_eq, levels, final(engine).last_eq, changed));
    if changed {
        let band = choose|i: int|
            0 <= i < 10 && moved(old(engine).last_eq[i], #[trigger] levels[i]);
        assert(follows(old(engine).last_eq[band], levels[band], final(engine).last_eq[band]));
        law_only_moved_sliders_count(
            old(engine).last_eq[band],
            levels[band],
            final(engine).last_eq[band],
            levels[band],
        );
        band
    } else {
        assert forall|i: int| 0 <= i < 10 implies final(engine).last_eq@[i] == old(
            engine,
        ).last_eq@[i] by {
            assert(follows(old(engine).last_eq[i], levels[i], final(engine).last_eq[i]));
        }
        assert(final(engine).last_eq@ =~= old(engine).last_eq@);
        0
    }
}

} // verus!
