//! The equaliser: its bands, and how the gains of its sliders are shared with
//! the signal path.

use vstd::prelude::*;
use vstd::string::*;
use crate::player::AppState;
use crate::settings::Settings;
use crate::single::raised_by_twenty;
use crate::text::decimal_string;

verus! {

/// The centre frequencies of the bands, in hertz.
pub const EQ_FREQS: [u32; 10] = [31, 62, 125, 250, 500, 1000, 2000, 4000, 8000, 16000];

/// What a slider's position is raised by before it is shared as a level.
pub const LEVEL_OFFSET: i32 = 20;

/// How a band is labelled: its frequency, in kilohertz from a thousand hertz on.
pub open spec fn labelled_as(freq: nat) -> Seq<char> {
    if freq >= 1000 {
        crate::text::decimal(freq / 1000) + "k"@
    } else {
        crate::text::decimal(freq)
    }
}

/// Writes the label of a band.
pub fn band_label(band: usize) -> (label: String)
    requires
        band < 10,
    ensures
        label@ == labelled_as(EQ_FREQS[band as int] as nat),
{
    let freq: usize = EQ_FREQS[band] as usize;
    if freq >= 1000 {
        let mut label = decimal_string(freq / 1000);
        label.append("k");
        label
    } else {
        decimal_string(freq)
    }
}

/// A 32-bit pattern read as a signed number.
pub open spec fn signed(level: u32) -> int {
    if level <= i32::MAX {
        level as int
    } else {
        level - 0x1_0000_0000
    }
}

/// The level stands for a gain of 32 bits.
pub open spec fn is_level(level: u32) -> bool {
    signed(level) - LEVEL_OFFSET >= i32::MIN
}

/// The gain that a shared level stands for, in whole decibels.
pub fn live_gain(level: u32) -> (gain: i32)
    requires
        is_level(level),
    ensures
        gain == signed(level) - LEVEL_OFFSET,
{
    let value: i64 = if level <= 0x7fff_ffff {
        level as i64
    } else {
        level as i64 - 0x1_0000_0000
    };
    (value - LEVEL_OFFSET as i64) as i32
}

/// The level as which the gain of a slider is shared: the gain, raised and cut
/// to a whole number.
pub fn shared_level(gain: u32) -> (level: u32)
    ensures
        level == crate::single::cut_sum(gain, LEVEL_OFFSET as int),
{
    raised_by_twenty(gain)
}

/// The gain that a shared level stands for, as a single.
pub open spec fn heard_gain(level: u32) -> int {
    crate::single::as_single(signed(level) - LEVEL_OFFSET)
}

/// What a slider reports for one frame.
pub enum Slide {
    Gain { changed: bool, released: bool },
    Volume { changed: bool },
}

/// The report has the settings saved.
pub open spec fn saves(slide: Slide) -> bool {
    match slide {
        Slide::Gain { released, .. } => released,
        Slide::Volume { changed } => changed,
    }
}

/// How often the reports of a run have the settings saved.
pub open spec fn saved(slides: Seq<Slide>) -> nat
    decreases slides.len(),
{
    if slides.len() == 0 {
        0
    } else if saves(slides.last()) {
        saved(slides.drop_last()) + 1
    } else {
        saved(slides.drop_last())
    }
}

impl AppState {
    /// Takes over what a gain slider shows, whether it has moved or not. Gives the
    /// level to share, where the slider has changed, and says whether the settings
    /// are to be saved: when the slider is let go.
    pub fn slide_gain(
        &mut self,
        band: usize,
        gain: u32,
        changed: bool,
        released: bool,
    ) -> (out: (Option<u32>, bool))
        requires
            band < 10,
        ensures
            final(self).settings.eq_gains@ == old(self).settings.eq_gains@.update(
                band as int,
                gain,
            ),
            *final(self) == (AppState {
                settings: Settings {
                    eq_gains: final(self).settings.eq_gains,
                    ..old(self).settings
                },
                ..*old(self)
            }),
            match out.0 {
                Some(level) => changed && level == crate::single::cut_sum(
                    gain,
                    LEVEL_OFFSET as int,
                ),
                None => !changed,
            },
            out.1 == saves((Slide::Gain { changed, released })),
    {
        self.settings.eq_gains[band] = gain;
        let level: Option<u32> = if changed {
            Some(shared_level(gain))
        } else {
            None
        };
        (level, released)
    }

    /// Takes over what the volume slider shows, whether it has moved or not. Says
    /// whether the settings are to be saved: when the slider has changed.
    pub fn slide_volume(&mut self, vol: u32, changed: bool) -> (save: bool)
        ensures
            *final(self) == (AppState {
                settings: Settings { vol, ..old(self).settings },
                ..*old(self)
            }),
            save == saves((Slide::Volume { changed })),
    {
        self.settings.vol = vol;
        changed
    }
}

/// Labels in kilohertz lose nothing: from a thousand hertz on, a band's
/// frequency is a whole number of kilohertz.
pub proof fn law_kilohertz_are_whole(band: int)
    requires
        0 <= band < 10,
        EQ_FREQS[band] >= 1000,
    ensures
        EQ_FREQS[band] % 1000 == 0,
{
}

/// A whole gain comes back from the level that it is shared as, down to the
/// offset, and a filter that was made for it is left alone.
pub proof fn law_whole_gains_are_heard(gain: u32, whole: int, level: u32)
    requires
        crate::single::stands_for(gain, whole),
        -LEVEL_OFFSET <= whole < 0x80_0000,
        level == crate::single::cut_sum(gain, LEVEL_OFFSET as int),
    ensures
        signed(level) - LEVEL_OFFSET == whole,
        !crate::single::is_off(heard_gain(level), gain),
{
    crate::single::law_whole_numbers_are_raised_exactly(gain, whole);
    crate::single::law_small_whole_numbers_are_singles(whole);
    crate::single::law_singles_tell_whole_numbers_apart(gain, whole, whole);
}

/// In any run of reports, the settings are saved if and only if a gain slider
/// was let go or the volume changed.
pub proof fn law_saved_on_release_or_volume(slides: Seq<Slide>)
    ensures
        saved(slides) > 0 <==> exists|i: int|
            0 <= i < slides.len() && match #[trigger] slides[i] {
                Slide::Gain { released, .. } => released,
                Slide::Volume { changed } => changed,
            },
    decreases slides.len(),
{
    if slides.len() > 0 {
        let before = slides.drop_last();
        law_saved_on_release_or_volume(before);
        if saved(before) > 0 {
            let i = choose|i: int|
                0 <= i < before.len() && match #[trigger] before[i] {
                    Slide::Gain { released, .. } => released,
                    Slide::Volume { changed } => changed,
                };
            assert(slides[i] == before[i]);
        }
        if saves(slides.last()) {
            assert(slides[slides.len() - 1] == slides.last());
        }
        assert forall|i: int|
            0 <= i < slides.len() && saved(slides) == 0 implies !saves(
            #[trigger] slides[i],
        ) by {
            if i < before.len() {
                assert(before[i] == slides[i]);
            }
        }
    }
}

/// The bands stand at these ten frequencies.
pub proof fn law_bands_stand_an_octave_apart(band: int)
    requires
        0 <= band < 10,
    ensures
        EQ_FREQS@ == seq![31u32, 62, 125, 250, 500, 1000, 2000, 4000, 8000, 16000],
        band < 9 ==> 2 * EQ_FREQS[band] <= EQ_FREQS[band + 1] <= 2 * EQ_FREQS[band] + 1,
{
    assert(EQ_FREQS@ =~= seq![31u32, 62, 125, 250, 500, 1000, 2000, 4000, 8000, 16000]);
}

/// A band's label reads as its frequency: in hertz, or in kilohertz with a k behind, from a
/// thousand hertz on.
pub proof fn law_labels_read_as_frequencies(band: usize, label: String)
    requires
        band < 10,
        call_ensures(band_label, (band,), label),
    ensures
        EQ_FREQS[band as int] < 1000 ==> {
            &&& crate::text::all_digits(label@)
            &&& crate::text::number(label@) == EQ_FREQS[band as int]
            &&& label@[0] != '0'
        },
        EQ_FREQS[band as int] >= 1000 ==> {
            &&& label@.len() > 1
            &&& label@.last() == 'k'
            &&& crate::text::all_digits(label@.drop_last())
            &&& crate::text::number(label@.drop_last()) * 1000 == EQ_FREQS[band as int]
            &&& label@[0] != '0'
        },
{
    reveal_strlit("k");
    let freq = EQ_FREQS[band as int] as nat;
    lemma_frequencies(band as int);
    let shown = if freq >= 1000 {
        freq / 1000
    } else {
        freq
    };
    crate::text::law_decimal_reads_back(shown);
    crate::text::lemma_decimal_is_plain(shown);
    if freq >= 1000 {
        assert(label@.drop_last() =~= crate::text::decimal(shown));
    }
}

/// A frequency is not zero, and from a thousand on a whole number of thousands.
proof fn lemma_frequencies(band: int)
    requires
        0 <= band < 10,
    ensures
        EQ_FREQS[band] > 0,
        EQ_FREQS[band] >= 1000 ==> EQ_FREQS[band] % 1000 == 0,
{
}

/// The gain that a level stands for is the level less twenty, where the level is read as
/// a signed number of 32 bits.
pub proof fn law_live_gain_is_twenty_below(level: u32, gain: i32)
    requires
        is_level(level),
        call_ensures(live_gain, (level,), gain),
    ensures
        level < 0x8000_0000 ==> gain + 20 == level,
        level >= 0x8000_0000 ==> gain + 20 + 0x1_0000_0000 == level,
{
}

/// Every level that is a number of 31 bits has a gain.
pub proof fn law_ordinary_levels_have_gains(level: u32)
    requires
        level < 0x8000_0000 || level >= 0x8000_0014,
    ensures
        is_level(level),
{
}

/// The level that is shared is twenty above the gain, as singles are added, and cut to a
/// whole number.
pub proof fn law_shared_level_is_twenty_above(gain: u32, level: u32)
    requires
        call_ensures(shared_level, (gain,), level),
    ensures
        crate::single::is_twenty_above(level as int, gain),
{
    crate::single::lemma_cut_sum(gain);
}

/// A gain slider sets its own band's gain and nothing else; its level is shared if and only
/// if it has changed, and the settings are saved if and only if it was let go.
pub proof fn law_gain_slider_sets_its_band(
    s: &mut AppState,
    band: usize,
    gain: u32,
    changed: bool,
    released: bool,
    out: (Option<u32>, bool),
    other: int,
)
    requires
        band < 10,
        0 <= other < 10,
        call_ensures(AppState::slide_gain, (s, band, gain, changed, released), out),
    ensures
        final(s).settings.eq_gains[band as int] == gain,
        other != band ==> final(s).settings.eq_gains[other] == old(s).settings.eq_gains[other],
        out.0 is Some <==> changed,
        changed ==> crate::single::is_twenty_above(out.0->0 as int, gain),
        out.1 <==> released,
        final(s).settings.vol == old(s).settings.vol,
        final(s).settings.cur_idx == old(s).settings.cur_idx,
        final(s).settings.music_folder == old(s).settings.music_folder,
        final(s).playing == old(s).playing,
        final(s).track_list == old(s).track_list,
        final(s).elapsed_time == old(s).elapsed_time,
        final(s).total_time == old(s).total_time,
        final(s).start_instant == old(s).start_instant,
        final(s).should_skip == old(s).should_skip,
        final(s).seek_request == old(s).seek_request,
{
    crate::single::lemma_cut_sum(gain);
}

/// The volume slider sets the volume and nothing else, and the settings are saved if and
/// only if it has changed.
pub proof fn law_volume_slider_sets_the_volume(
    s: &mut AppState,
    vol: u32,
    changed: bool,
    save: bool,
)
    requires
        call_ensures(AppState::slide_volume, (s, vol, changed), save),
    ensures
        final(s).settings.vol == vol,
        save <==> changed,
        final(s).settings.cur_idx == old(s).settings.cur_idx,
        final(s).settings.music_folder == old(s).settings.music_folder,
        final(s).settings.eq_gains == old(s).settings.eq_gains,
        final(s).playing == old(s).playing,
        final(s).track_list == old(s).track_list,
        final(s).elapsed_time == old(s).elapsed_time,
        final(s).total_time == old(s).total_time,
        final(s).start_instant == old(s).start_instant,
        final(s).should_skip == old(s).should_skip,
        final(s).seek_request == old(s).seek_request,
{
}

/// A volume that the slider sets is the volume of the next snapshot, and so of the sink.
pub proof fn law_volume_is_heard_at_once(
    s: &mut AppState,
    vol: u32,
    changed: bool,
    save: bool,
    cmd: crate::worker::Command,
    worker: crate::worker::Worker,
    a: crate::worker::Answers,
)
    requires
        call_ensures(AppState::slide_volume, (s, vol, changed), save),
        call_ensures(AppState::command, (final(s),), cmd),
    ensures
        cmd.vol == vol,
        worker.round(cmd, *final(s), a).volume == vol,
{
}

} // verus!
