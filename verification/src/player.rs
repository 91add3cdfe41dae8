//! The state of the player and what its controls do to it.

use vstd::prelude::*;
use vstd::arithmetic::power2::pow2;
use crate::position::{ten_earlier, ten_later, SECOND};
use crate::settings::Settings;
use crate::single::{is_nearest, negative, value};

verus! {

/// What the front panel and the playback worker share.
///
/// Times are in nanoseconds; `start_instant` is a reading of the worker's clock.
/// `seek_request` is in seconds, as an IEEE single by its bit pattern.
pub struct AppState {
    pub settings: Settings,
    pub playing: bool,
    pub track_list: Vec<String>,
    pub elapsed_time: u128,
    pub total_time: u128,
    pub start_instant: Option<i128>,
    pub should_skip: bool,
    pub seek_request: Option<u32>,
}

/// A control of the front panel. Places are in seconds, as IEEE singles by their bit
/// patterns.
#[derive(Clone, Copy)]
pub enum Control {
    /// A row of the track list.
    Select(usize),
    Prev,
    /// Rewind, from the place that the panel showed.
    Rewind(u32),
    PlayPause,
    Stop,
    /// Fast-forward, from the place that the panel showed.
    Forward(u32),
    Next,
}

/// The index that comes after `idx` on a list of `len` tracks, where the first
/// track follows the last.
pub open spec fn following(idx: usize, len: nat) -> usize
    recommends
        len > 0,
{
    ((idx + 1) % (len as int)) as usize
}

impl AppState {
    /// The same state with another track selected.
    pub open spec fn at(self, idx: usize) -> AppState {
        AppState { settings: Settings { cur_idx: idx, ..self.settings }, ..self }
    }

    /// The current index names a track.
    pub open spec fn in_range(self) -> bool {
        self.settings.cur_idx < self.track_list@.len()
    }

    /// The control can be operated: a place is one that a clock can show, and an
    /// index that is to move on fits its type.
    pub open spec fn admits(self, control: Control) -> bool {
        match control {
            Control::Rewind(place) => crate::position::is_position(place),
            Control::Forward(place) => crate::position::is_position(place),
            Control::Next => self.track_list@.len() > 0 ==> self.settings.cur_idx < usize::MAX,
            _ => true,
        }
    }

    /// The state after a control was operated.
    pub open spec fn after(self, control: Control) -> AppState {
        match control {
            Control::Select(idx) => AppState { playing: true, should_skip: true, ..self.at(idx) },
            Control::Prev => if self.settings.cur_idx > 0 {
                AppState { should_skip: true, ..self.at((self.settings.cur_idx - 1) as usize) }
            } else {
                self
            },
            Control::Rewind(place) => AppState {
                seek_request: Some(crate::position::earlier(place)),
                ..self
            },
            Control::PlayPause => AppState { playing: !self.playing, ..self },
            Control::Stop => AppState {
                playing: false,
                should_skip: true,
                elapsed_time: 0,
                ..self
            },
            Control::Forward(place) => AppState {
                seek_request: Some(crate::position::later(place)),
                ..self
            },
            Control::Next => if self.track_list@.len() > 0 {
                AppState {
                    should_skip: true,
                    ..self.at(following(self.settings.cur_idx, self.track_list@.len()))
                }
            } else {
                self
            },
        }
    }

    /// The state at start-up: stopped, nothing queued, a nominal second of
    /// length until a track has been opened.
    pub fn new(settings: Settings, track_list: Vec<String>) -> (state: AppState)
        ensures
            state == (AppState {
                settings,
                playing: false,
                track_list,
                elapsed_time: 0,
                total_time: SECOND,
                start_instant: None,
                should_skip: false,
                seek_request: None,
            }),
    {
        AppState {
            settings,
            playing: false,
            track_list,
            elapsed_time: 0,
            total_time: SECOND,
            start_instant: None,
            should_skip: false,
            seek_request: None,
        }
    }

    /// Operates a control.
    pub fn press(&mut self, control: Control)
        requires
            old(self).admits(control),
        ensures
            *final(self) == old(self).after(control),
    {
        match control {
            Control::Select(idx) => {
                self.settings.cur_idx = idx;
                self.playing = true;
                self.should_skip = true;
            },
            Control::Prev => {
                if self.settings.cur_idx > 0 {
                    self.settings.cur_idx = self.settings.cur_idx - 1;
                    self.should_skip = true;
                }
            },
            Control::Rewind(place) => {
                self.seek_request = Some(ten_earlier(place));
            },
            Control::PlayPause => {
                self.playing = !self.playing;
            },
            Control::Stop => {
                self.playing = false;
                self.should_skip = true;
                self.elapsed_time = 0;
            },
            Control::Forward(place) => {
                self.seek_request = Some(ten_later(place));
            },
            Control::Next => {
                let count: usize = self.track_list.len();
                if count > 0 {
                    self.settings.cur_idx = (self.settings.cur_idx + 1) % count;
                    self.should_skip = true;
                }
            },
        }
    }
}

/// A control leaves the track list, the stored settings other than the index,
/// the shown length and the clock as they were.
pub proof fn law_controls_keep_the_rest(s: AppState, control: Control)
    ensures
        ({
            let t = s.after(control);
            &&& t.track_list == s.track_list
            &&& t.settings.vol == s.settings.vol
            &&& t.settings.music_folder == s.settings.music_folder
            &&& t.settings.eq_gains == s.settings.eq_gains
            &&& t.total_time == s.total_time
            &&& t.start_instant == s.start_instant
        }),
{
}

/// An index that names a track still names one after any control, a row of the
/// list being one of its rows.
pub proof fn law_controls_keep_index_in_range(s: AppState, control: Control)
    requires
        s.in_range(),
        control matches Control::Select(row) ==> row < s.track_list@.len(),
    ensures
        s.after(control).in_range(),
{
    let len = s.track_list@.len() as int;
    assert(0 <= (s.settings.cur_idx + 1) % len < len);
}

/// On a list that is not empty, next makes any index name a track.
pub proof fn law_next_repairs_index(s: AppState)
    requires
        s.track_list@.len() > 0,
        s.track_list@.len() <= usize::MAX,
    ensures
        s.after(Control::Next).in_range(),
{
    let len = s.track_list@.len() as int;
    assert(0 <= (s.settings.cur_idx + 1) % len < len);
}

/// Before the last track, previous undoes next.
pub proof fn law_prev_undoes_next(s: AppState)
    requires
        s.settings.cur_idx + 1 < s.track_list@.len(),
        s.track_list@.len() <= usize::MAX,
    ensures
        s.after(Control::Next).after(Control::Prev).settings == s.settings,
{
    let len = s.track_list@.len() as int;
    assert((s.settings.cur_idx + 1) % len == s.settings.cur_idx + 1) by {
        vstd::arithmetic::div_mod::lemma_small_mod((s.settings.cur_idx + 1) as nat, len as nat);
    }
}

/// Behind the first track, next undoes previous.
pub proof fn law_next_undoes_prev(s: AppState)
    requires
        s.in_range(),
        s.settings.cur_idx > 0,
    ensures
        s.after(Control::Prev).after(Control::Next).settings == s.settings,
{
    let len = s.track_list@.len() as int;
    assert((s.settings.cur_idx as int) % len == s.settings.cur_idx) by {
        vstd::arithmetic::div_mod::lemma_small_mod(s.settings.cur_idx as nat, len as nat);
    }
}

/// The state after next was pressed `n` times.
pub open spec fn after_nexts(s: AppState, n: nat) -> AppState
    decreases n,
{
    if n == 0 {
        s
    } else {
        after_nexts(s, (n - 1) as nat).after(Control::Next)
    }
}

/// Next walks the list in a circle: `n` presses lead `n` tracks on.
pub proof fn law_next_walks_in_a_circle(s: AppState, n: nat)
    requires
        s.in_range(),
        s.track_list@.len() <= usize::MAX,
    ensures
        after_nexts(s, n).settings.cur_idx == (s.settings.cur_idx + n) % (
        s.track_list@.len() as int),
        after_nexts(s, n).track_list == s.track_list,
    decreases n,
{
    let len = s.track_list@.len() as int;
    let idx = s.settings.cur_idx as int;
    if n == 0 {
        vstd::arithmetic::div_mod::lemma_small_mod(idx as nat, len as nat);
    } else {
        law_next_walks_in_a_circle(s, (n - 1) as nat);
        lemma_step_mod(idx + n - 1, len);
    }
}

/// As many presses of next as there are tracks lead back to where one was.
pub proof fn law_full_circle(s: AppState)
    requires
        s.in_range(),
        s.track_list@.len() <= usize::MAX,
    ensures
        after_nexts(s, s.track_list@.len()).settings.cur_idx == s.settings.cur_idx,
{
    let len = s.track_list@.len() as int;
    let idx = s.settings.cur_idx as int;
    law_next_walks_in_a_circle(s, s.track_list@.len());
    vstd::arithmetic::div_mod::lemma_mod_add_multiples_vanish(idx, len);
    vstd::arithmetic::div_mod::lemma_small_mod(idx as nat, len as nat);
}

/// One step on from a reduced index is the same as reducing one step on.
pub(crate) proof fn lemma_step_mod(x: int, len: int)
    requires
        len > 0,
    ensures
        (x % len + 1) % len == (x + 1) % len,
        0 <= (x + 1) % len < len,
{
    vstd::arithmetic::div_mod::lemma_add_mod_noop_right(1, x, len);
}

/// Play pressed twice changes nothing.
pub proof fn law_play_pause_twice(s: AppState)
    ensures
        s.after(Control::PlayPause).after(Control::PlayPause) == s,
{
}

/// A player starts stopped, at the start of a track a second long, with nothing
/// queued, nothing asked for, and the settings and tracks it was given.
pub proof fn law_player_starts_at_rest(settings: Settings, list: Vec<String>, s: AppState)
    requires
        call_ensures(AppState::new, (settings, list), s),
    ensures
        s.settings == settings,
        s.track_list == list,
        !s.playing,
        !s.should_skip,
        s.seek_request is None,
        s.start_instant is None,
        s.elapsed_time == 0,
        s.total_time == 1_000_000_000,
{
}

/// No control touches the track list, the volume, the folder, the gains, the shown
/// length or the clock.
pub proof fn law_press_keeps_the_rest(s: &mut AppState, control: Control)
    requires
        call_ensures(AppState::press, (s, control), ()),
    ensures
        final(s).track_list == old(s).track_list,
        final(s).settings.vol == old(s).settings.vol,
        final(s).settings.music_folder == old(s).settings.music_folder,
        final(s).settings.eq_gains == old(s).settings.eq_gains,
        final(s).total_time == old(s).total_time,
        final(s).start_instant == old(s).start_instant,
{
}

/// Selecting a row makes it current, starts the player and asks for the track.
pub proof fn law_select_starts_the_row(s: &mut AppState, row: usize)
    requires
        call_ensures(AppState::press, (s, Control::Select(row)), ()),
    ensures
        final(s).settings.cur_idx == row,
        final(s).playing,
        final(s).should_skip,
        final(s).seek_request == old(s).seek_request,
        final(s).elapsed_time == old(s).elapsed_time,
{
}

/// Previous asks for the track before the current one, and does nothing on the first.
/// It neither starts nor stops the player.
pub proof fn law_prev_steps_back(s: &mut AppState)
    requires
        call_ensures(AppState::press, (s, Control::Prev), ()),
    ensures
        old(s).settings.cur_idx == 0 ==> *final(s) == *old(s),
        old(s).settings.cur_idx > 0 ==> final(s).settings.cur_idx + 1 == old(s).settings.cur_idx
            && final(s).should_skip,
        final(s).playing == old(s).playing,
        final(s).seek_request == old(s).seek_request,
        final(s).elapsed_time == old(s).elapsed_time,
{
}

/// Next asks for the track behind the current one, the first being behind the last,
/// and does nothing on an empty list. It neither starts nor stops the player.
pub proof fn law_next_steps_on(s: &mut AppState)
    requires
        old(s).track_list@.len() <= usize::MAX,
        call_ensures(AppState::press, (s, Control::Next), ()),
    ensures
        old(s).track_list@.len() == 0 ==> *final(s) == *old(s),
        old(s).track_list@.len() > 0 ==> {
            let len = old(s).track_list@.len() as int;
            &&& final(s).should_skip
            &&& 0 <= final(s).settings.cur_idx < len
            &&& old(s).settings.cur_idx + 1 < len ==> final(s).settings.cur_idx
                == old(s).settings.cur_idx + 1
            &&& old(s).settings.cur_idx + 1 == len ==> final(s).settings.cur_idx == 0
            &&& exists|turns: int|
                old(s).settings.cur_idx + 1 == final(s).settings.cur_idx + #[trigger] (len * turns)
        },
        final(s).playing == old(s).playing,
        final(s).seek_request == old(s).seek_request,
        final(s).elapsed_time == old(s).elapsed_time,
{
    let len = old(s).track_list@.len() as int;
    let next = old(s).settings.cur_idx + 1;
    if len > 0 {
        vstd::arithmetic::div_mod::lemma_fundamental_div_mod(next, len);
        vstd::arithmetic::div_mod::lemma_mod_bound(next, len);
        assert(next == next % len + len * (next / len));
        if next < len {
            vstd::arithmetic::div_mod::lemma_small_mod(next as nat, len as nat);
        }
        if next == len {
            vstd::arithmetic::div_mod::lemma_mod_self_0(len);
        }
    }
}

/// The play button starts a stopped player and stops a running one, and changes
/// nothing else: no track is asked for anew.
pub proof fn law_play_pause_toggles(s: &mut AppState)
    requires
        call_ensures(AppState::press, (s, Control::PlayPause), ()),
    ensures
        final(s).playing != old(s).playing,
        final(s).settings.cur_idx == old(s).settings.cur_idx,
        final(s).should_skip == old(s).should_skip,
        final(s).seek_request == old(s).seek_request,
        final(s).elapsed_time == old(s).elapsed_time,
{
}

/// Stop stops the player, shows the start and asks for the current track anew.
pub proof fn law_stop_goes_to_the_start(s: &mut AppState)
    requires
        call_ensures(AppState::press, (s, Control::Stop), ()),
    ensures
        !final(s).playing,
        final(s).elapsed_time == 0,
        final(s).should_skip,
        final(s).settings.cur_idx == old(s).settings.cur_idx,
        final(s).seek_request == old(s).seek_request,
{
}

/// Whatever the state, fast-forward asks for the place ten seconds after the one
/// that was shown, to the nearest single, and changes nothing else.
pub proof fn law_forward_asks_for_ten_seconds_on(s: &mut AppState, place: u32)
    requires
        crate::position::is_position(place),
        call_ensures(AppState::press, (s, Control::Forward(place)), ()),
    ensures
        final(s).seek_request is Some,
        !negative(final(s).seek_request->0),
        is_nearest(final(s).seek_request->0, value(place) + 10 * pow2(149)),
        final(s).settings.cur_idx == old(s).settings.cur_idx,
        final(s).playing == old(s).playing,
        final(s).should_skip == old(s).should_skip,
        final(s).elapsed_time == old(s).elapsed_time,
{
    crate::position::lemma_later_is_nearest(place);
}

/// Whatever the state, rewind asks for the place ten seconds before the one that was
/// shown, to the nearest single, or for the start; and changes nothing else.
pub proof fn law_rewind_asks_for_ten_seconds_back(s: &mut AppState, place: u32)
    requires
        crate::position::is_position(place),
        call_ensures(AppState::press, (s, Control::Rewind(place)), ()),
    ensures
        final(s).seek_request is Some,
        !negative(final(s).seek_request->0),
        is_nearest(
            final(s).seek_request->0,
            if value(place) > 10 * pow2(149) {
                value(place) - 10 * pow2(149)
            } else {
                0
            },
        ),
        final(s).settings.cur_idx == old(s).settings.cur_idx,
        final(s).playing == old(s).playing,
        final(s).should_skip == old(s).should_skip,
        final(s).elapsed_time == old(s).elapsed_time,
{
    crate::position::lemma_earlier_is_nearest(place);
}

/// What fast-forward and rewind ask for depends on the place that was shown alone.
pub proof fn law_seeking_depends_on_the_place_alone(
    s: &mut AppState,
    t: &mut AppState,
    control: Control,
)
    requires
        control is Forward || control is Rewind,
        call_ensures(AppState::press, (s, control), ()),
        call_ensures(AppState::press, (t, control), ()),
    ensures
        final(s).seek_request == final(t).seek_request,
{
}

} // verus!
