//! The settings that outlive a session.

use vstd::prelude::*;
use vstd::arithmetic::power2::{lemma2_to64, lemma_pow2_adds, lemma_pow2_unfold, pow2};
use crate::single::{exponent, fraction, negative, value};

verus! {

/// The number of equaliser bands.
pub const BANDS: usize = 10;

/// The volume of a fresh installation, one half, as an IEEE single.
pub const DEFAULT_VOL: u32 = 0x3f00_0000;

/// What is kept between sessions.
///
/// Volume and band gains are IEEE singles, carried by their bit patterns. The
/// volume is only stored and handed on.
pub struct Settings {
    pub vol: u32,
    pub cur_idx: usize,
    pub music_folder: String,
    pub eq_gains: [u32; 10],
}

impl Settings {
    /// These are the settings of a fresh installation: half volume, the first
    /// track, the stock music folder, a flat equaliser.
    pub open spec fn is_initial(self) -> bool {
        &&& self.vol == DEFAULT_VOL
        &&& self.cur_idx == 0
        &&& self.music_folder@ == "C:/Users/delowar/Music"@
        &&& forall|i: int| 0 <= i < BANDS ==> self.eq_gains[i] == 0
    }
}

impl Clone for Settings {
    fn clone(&self) -> (copy: Self)
        ensures
            copy == *self,
    {
        Settings {
            vol: self.vol,
            cur_idx: self.cur_idx,
            music_folder: self.music_folder.clone(),
            eq_gains: self.eq_gains,
        }
    }
}

/// The settings to start with: those that were read from disk, or the initial
/// ones where none could be read.
pub fn load_settings(stored: Option<Settings>) -> (settings: Settings)
    ensures
        match stored {
            Some(kept) => settings == kept,
            None => settings.is_initial(),
        },
{
    match stored {
        Some(kept) => kept,
        None => Settings {
            vol: DEFAULT_VOL,
            cur_idx: 0,
            music_folder: "C:/Users/delowar/Music".to_owned(),
            eq_gains: [0; 10],
        },
    }
}

/// Settings that were stored are used as they are.
pub proof fn law_stored_settings_are_kept(kept: Settings, settings: Settings)
    requires
        call_ensures(load_settings, (Some(kept),), settings),
    ensures
        settings.vol == kept.vol,
        settings.cur_idx == kept.cur_idx,
        settings.music_folder@ == kept.music_folder@,
        settings.eq_gains == kept.eq_gains,
{
}

/// Without stored settings the volume is one half, the first track is current, the music
/// is looked for in the stock folder, and every band's gain is zero.
pub proof fn law_fresh_settings_are_plain(settings: Settings, band: int)
    requires
        call_ensures(load_settings, (None,), settings),
        0 <= band < 10,
    ensures
        2 * value(settings.vol) == pow2(149),
        settings.cur_idx == 0,
        settings.music_folder@ == "C:/Users/delowar/Music"@,
        value(settings.eq_gains[band]) == 0,
        !negative(settings.eq_gains[band]),
{
    lemma2_to64();
    lemma_pow2_unfold(149);
    lemma_pow2_adds(23, 125);
    assert(exponent(0x3f00_0000) == 126 && fraction(0x3f00_0000) == 0);
    assert(exponent(0) == 0 && fraction(0) == 0);
}

/// A copy of the settings is the same settings.
pub proof fn law_copied_settings_are_the_same(settings: Settings, copy: Settings)
    requires
        call_ensures(Settings::clone, (&settings,), copy),
    ensures
        copy.vol == settings.vol,
        copy.cur_idx == settings.cur_idx,
        copy.music_folder@ == settings.music_folder@,
        copy.eq_gains == settings.eq_gains,
{
}

} // verus!
