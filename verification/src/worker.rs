//! The playback worker: what it decides on each of its rounds.
//!
//! A round takes a snapshot of the shared state, asks whether another track has
//! to be opened, opens it if so, starts or pauses the sink, and then reports
//! progress. The sink, the files and the clock are the caller's; what they answered
//! comes in as arguments. `Worker::round` puts the steps together.

use vstd::prelude::*;
use vstd::arithmetic::power2::pow2;
use crate::player::{AppState, Control};
use crate::position::{nanoseconds, SPAN_END};
use crate::settings::Settings;
use crate::single::{distance, negative, value};

verus! {

/// The index that the worker takes for its last one before its first round.
pub const NO_INDEX: usize = 99999;

/// The length shown for a track whose decoder does not know it, in nanoseconds.
pub const UNKNOWN_LENGTH: u128 = 300_000_000_000;

/// What a round reads of the shared state at its start.
pub struct Command {
    pub playing: bool,
    pub cur_idx: usize,
    pub music_folder: String,
    pub vol: u32,
    pub should_skip: bool,
    pub seek_request: Option<u32>,
    pub eq_gains: [u32; 10],
}

/// What came of opening a track: its length in nanoseconds, where the decoder
/// knows it, and the clock's reading once it was queued.
#[derive(Clone, Copy)]
pub struct Opened {
    pub length: Option<u128>,
    pub now: i128,
}

/// What a round's end means for the displays.
#[derive(Clone, Copy, Debug, PartialEq, Eq, Structural)]
pub enum Observed {
    /// A track is sounding: the reels turn.
    Running,
    /// Nothing is sounding: the spectrum falls to zero.
    Silent,
    /// Neither.
    Unchanged,
}

/// What the worker itself remembers from round to round.
pub struct Worker {
    pub last_idx: usize,
}

/// What the sink and the clock say at the end of a round.
pub struct Ending {
    pub sink_empty: bool,
    pub sink_paused: bool,
    pub now: i128,
}

/// What comes back from the sink, the files and the clock in the course of a round.
pub struct Answers {
    /// The sink is empty as the round begins.
    pub sink_empty: bool,
    /// The sink is empty after it was told to stop.
    pub after_stop: bool,
    /// What came of opening the track that the round tried.
    pub opened: Option<Opened>,
    /// The round's end, unless the state was in use and it was passed over.
    pub ending: Option<Ending>,
}

/// What a round does.
pub struct Outcome {
    pub worker: Worker,
    pub state: AppState,
    /// The volume that the sink is set to.
    pub volume: u32,
    /// The sink is told to stop, for another track to be opened.
    pub stops: bool,
    /// The name of the track that is tried.
    pub tried: Option<Seq<char>>,
    /// The sink is told to play; else it is told to pause.
    pub plays: bool,
    /// What the displays are to show, unless the end was passed over.
    pub seen: Option<Observed>,
}

/// What a round asks of the sink, the files and the displays.
pub struct Report {
    pub volume: u32,
    pub stops: bool,
    pub tried: Option<String>,
    pub plays: bool,
    pub seen: Option<Observed>,
}

impl Command {
    /// The place asked for, if one is, is a span of 64-bit seconds.
    pub open spec fn has_place(self) -> bool {
        match self.seek_request {
            Some(place) => crate::position::is_span(place),
            None => true,
        }
    }

    /// Where in the track playback is to begin, in nanoseconds.
    pub open spec fn begin_at(self) -> int {
        match self.seek_request {
            Some(place) => crate::position::nanos(place),
            None => 0,
        }
    }

    /// Where in the track playback is to begin, in nanoseconds: the place asked
    /// for, or the start.
    pub fn target(&self) -> (at: u128)
        requires
            self.has_place(),
        ensures
            at == self.begin_at(),
            at <= i128::MAX,
    {
        match self.seek_request {
            Some(place) => nanoseconds(place),
            None => 0,
        }
    }

    /// Whether the place asked for, if one is, is a span of 64-bit seconds.
    pub fn place_is_span(&self) -> (fits: bool)
        ensures
            fits == self.has_place(),
    {
        match self.seek_request {
            Some(place) => place < SPAN_END,
            None => true,
        }
    }

    /// Whether the sink is to play; else it is to pause.
    pub fn plays(&self) -> (on: bool)
        ensures
            on == self.playing,
    {
        self.playing
    }
}

/// The time from `start` to `now`, or zero where the clock stands before `start`.
pub open spec fn since(start: i128, now: i128) -> u128 {
    if now >= start {
        (now - start) as u128
    } else {
        0
    }
}

/// A track is sounding.
pub open spec fn sounding(cmd: Command, sink_empty: bool, sink_paused: bool) -> bool {
    cmd.playing && !sink_empty && !sink_paused
}

/// What a round's end means for the displays.
pub open spec fn seen(cmd: Command, sink_empty: bool, sink_paused: bool) -> Observed {
    if sounding(cmd, sink_empty, sink_paused) {
        Observed::Running
    } else if sink_paused || sink_empty {
        Observed::Silent
    } else {
        Observed::Unchanged
    }
}

impl AppState {
    /// What a round reads of this state.
    pub open spec fn snapshot(self) -> Command {
        Command {
            playing: self.playing,
            cur_idx: self.settings.cur_idx,
            music_folder: self.settings.music_folder,
            vol: self.settings.vol,
            should_skip: self.should_skip,
            seek_request: self.seek_request,
            eq_gains: self.settings.eq_gains,
        }
    }

    /// The track list moves on by itself: the player is running, nobody asked
    /// for a particular track, and the sink has run dry.
    pub open spec fn moves_on(self, cmd: Command, sink_empty: bool) -> bool {
        sink_empty && !cmd.should_skip && cmd.playing && self.track_list@.len() > 0
    }

    /// The state once the track to open has been settled.
    pub open spec fn chosen(self, cmd: Command, sink_empty: bool) -> AppState {
        if self.moves_on(cmd, sink_empty) {
            self.at(crate::player::following(self.settings.cur_idx, self.track_list@.len()))
        } else {
            self
        }
    }

    /// The name of the current track, where the index names one.
    pub open spec fn current(self) -> Option<Seq<char>> {
        if self.in_range() {
            Some(self.track_list@[self.settings.cur_idx as int]@)
        } else {
            None
        }
    }

    /// The state after the track that `cmd` led to was queued: its length is
    /// known, the clock is set so that it shows the place asked for, and the
    /// requests are settled.
    pub open spec fn queued(self, cmd: Command, opened: Opened) -> AppState {
        AppState {
            total_time: match opened.length {
                Some(length) => length,
                None => UNKNOWN_LENGTH,
            },
            elapsed_time: cmd.begin_at() as u128,
            start_instant: Some((opened.now - cmd.begin_at()) as i128),
            should_skip: false,
            seek_request: None,
            ..self
        }
    }

    /// The state after a track was tried: as it was, unless it was queued.
    pub open spec fn tried(self, cmd: Command, opened: Option<Opened>) -> AppState {
        match opened {
            Some(track) => self.queued(cmd, track),
            None => self,
        }
    }

    /// The state after a round's end: while a track sounds, the elapsed time is
    /// up to date.
    pub open spec fn observed(
        self,
        cmd: Command,
        sink_empty: bool,
        sink_paused: bool,
        now: i128,
    ) -> AppState {
        if sounding(cmd, sink_empty, sink_paused) {
            AppState { elapsed_time: since(self.start_instant->0, now), ..self }
        } else {
            self
        }
    }

    /// Takes the snapshot that a round works from.
    pub fn command(&self) -> (cmd: Command)
        ensures
            cmd == self.snapshot(),
    {
        Command {
            playing: self.playing,
            cur_idx: self.settings.cur_idx,
            music_folder: self.settings.music_folder.clone(),
            vol: self.settings.vol,
            should_skip: self.should_skip,
            seek_request: self.seek_request,
            eq_gains: self.settings.eq_gains,
        }
    }

    /// Settles which track to open, moving on where the sink ran dry, and gives
    /// its name. `sink_empty` is the sink's answer after it was told to stop.
    pub fn choose_track(&mut self, cmd: &Command, sink_empty: bool) -> (name: Option<String>)
        requires
            old(self).moves_on(*cmd, sink_empty) ==> old(self).settings.cur_idx < usize::MAX,
        ensures
            *final(self) == old(self).chosen(*cmd, sink_empty),
            match name {
                Some(track) => final(self).current() == Some(track@),
                None => final(self).current() is None,
            },
    {
        let count: usize = self.track_list.len();
        if sink_empty && !cmd.should_skip && cmd.playing && count > 0 {
            self.settings.cur_idx = (self.settings.cur_idx + 1) % count;
        }
        if self.settings.cur_idx < count {
            Some(self.track_list[self.settings.cur_idx].clone())
        } else {
            None
        }
    }

    /// Brings the elapsed time up to date at the end of a round, and says what
    /// the displays are to show.
    pub fn observe(
        &mut self,
        cmd: &Command,
        sink_empty: bool,
        sink_paused: bool,
        now: i128,
    ) -> (shown: Observed)
        requires
            sounding(*cmd, sink_empty, sink_paused) ==> {
                &&& old(self).start_instant is Some
                &&& now - old(self).start_instant->0 <= i128::MAX
            },
        ensures
            *final(self) == old(self).observed(*cmd, sink_empty, sink_paused, now),
            shown == seen(*cmd, sink_empty, sink_paused),
    {
        if cmd.playing && !sink_empty && !sink_paused {
            let start: i128 = self.start_instant.unwrap();
            self.elapsed_time = if now >= start {
                (now - start) as u128
            } else {
                0
            };
            Observed::Running
        } else if sink_paused || sink_empty {
            Observed::Silent
        } else {
            Observed::Unchanged
        }
    }
}

impl Worker {
    /// A track has to be opened: one was asked for, or a place in one, or the
    /// player is running and the track has changed or ended.
    pub open spec fn reload_due(self, cmd: Command, sink_empty: bool) -> bool {
        ||| cmd.should_skip
        ||| cmd.seek_request is Some
        ||| cmd.playing && (cmd.cur_idx != self.last_idx || sink_empty)
    }

    /// A whole round on the snapshot `cmd`, from the state `s`. A track is chosen
    /// and tried where a reload is due, and only there; what was opened counts only
    /// where there was a track to try.
    pub open spec fn round(self, cmd: Command, s: AppState, a: Answers) -> Outcome {
        let due = self.reload_due(cmd, a.sink_empty);
        let chosen = s.chosen(cmd, a.after_stop);
        let name = if due {
            chosen.current()
        } else {
            None
        };
        let reloaded = if !due {
            s
        } else if name is Some {
            chosen.tried(cmd, a.opened)
        } else {
            chosen
        };
        Outcome {
            worker: if due {
                Worker { last_idx: chosen.settings.cur_idx }
            } else {
                self
            },
            state: match a.ending {
                Some(end) => reloaded.observed(cmd, end.sink_empty, end.sink_paused, end.now),
                None => reloaded,
            },
            volume: cmd.vol,
            stops: due,
            tried: name,
            plays: cmd.playing,
            seen: match a.ending {
                Some(end) => Some(seen(cmd, end.sink_empty, end.sink_paused)),
                None => None,
            },
        }
    }

    /// The round stays within the machine's numbers: an index that moves on, and
    /// the times between the clock's readings. The place asked for is a span, and a
    /// track that sounds was queued.
    pub open spec fn bears(self, cmd: Command, s: AppState, a: Answers) -> bool {
        let reloaded = self.round(cmd, s, (Answers { ending: None, ..a })).state;
        &&& self.reload_due(cmd, a.sink_empty) && s.moves_on(cmd, a.after_stop)
            ==> s.settings.cur_idx < usize::MAX
        &&& self.queues(cmd, s, a) ==> {
            &&& cmd.has_place()
            &&& a.opened->0.now - cmd.begin_at() >= i128::MIN
        }
        &&& a.ending is Some && sounding(cmd, a.ending->0.sink_empty, a.ending->0.sink_paused)
            ==> {
            &&& reloaded.start_instant is Some
            &&& a.ending->0.now - reloaded.start_instant->0 <= i128::MAX
        }
    }

    /// The round queues a track.
    pub open spec fn queues(self, cmd: Command, s: AppState, a: Answers) -> bool {
        self.round(cmd, s, a).tried is Some && a.opened is Some
    }

    /// A worker that has not played anything yet.
    pub fn new() -> (worker: Worker)
        ensures
            worker.last_idx == NO_INDEX,
    {
        Worker { last_idx: NO_INDEX }
    }

    /// Decides whether a track has to be opened in this round.
    pub fn must_reload(&self, cmd: &Command, sink_empty: bool) -> (due: bool)
        ensures
            due == self.reload_due(*cmd, sink_empty),
    {
        cmd.should_skip || cmd.seek_request.is_some() || (cmd.playing && (cmd.cur_idx
            != self.last_idx || sink_empty))
    }

    /// Ends the opening of a track. Requests are settled only where the track
    /// could be opened; the index counts as visited either way.
    pub fn conclude(&mut self, state: &mut AppState, cmd: &Command, opened: Option<Opened>)
        requires
            opened is Some ==> {
                &&& cmd.has_place()
                &&& opened->0.now - cmd.begin_at() >= i128::MIN
            },
        ensures
            *final(state) == old(state).tried(*cmd, opened),
            *final(self) == (Worker { last_idx: old(state).settings.cur_idx }),
    {
        if let Some(track) = opened {
            let target: u128 = cmd.target();
            state.total_time = match track.length {
                Some(length) => length,
                None => UNKNOWN_LENGTH,
            };
            state.elapsed_time = target;
            state.start_instant = Some(track.now - (target as i128));
            state.should_skip = false;
            state.seek_request = None;
        }
        self.last_idx = state.settings.cur_idx;
    }

    /// Goes through a whole round on answers that are known beforehand, with the
    /// state left to it from the snapshot to the end. The steps, each on the same
    /// snapshot, make up the round.
    pub fn replay(&mut self, state: &mut AppState, answers: &Answers) -> (report: Report)
        requires
            old(self).bears(old(state).snapshot(), *old(state), *answers),
        ensures
            ({
                let r = old(self).round(old(state).snapshot(), *old(state), *answers);
                &&& *final(self) == r.worker
                &&& *final(state) == r.state
                &&& report.volume == r.volume
                &&& report.stops == r.stops
                &&& match report.tried {
                    Some(name) => r.tried == Some(name@),
                    None => r.tried is None,
                }
                &&& report.plays == r.plays
                &&& report.seen == r.seen
            }),
    {
        let cmd = state.command();
        let stops = self.must_reload(&cmd, answers.sink_empty);
        let mut tried: Option<String> = None;
        if stops {
            tried = state.choose_track(&cmd, answers.after_stop);
            let opened = if tried.is_some() {
                answers.opened
            } else {
                None
            };
            self.conclude(state, &cmd, opened);
        }
        let seen = match &answers.ending {
            Some(end) => Some(state.observe(&cmd, end.sink_empty, end.sink_paused, end.now)),
            None => None,
        };
        Report { volume: cmd.vol, stops, tried, plays: cmd.plays(), seen }
    }
}

/// A track that was asked for is the one that is opened, whatever the sink
/// answers, and whichever index the worker visited last.
pub proof fn law_selected_track_is_opened(
    s: AppState,
    row: usize,
    worker: Worker,
    sink_empty: bool,
    after_stop: bool,
)
    requires
        row < s.track_list@.len(),
    ensures
        ({
            let t = s.after(Control::Select(row));
            &&& worker.reload_due(t.snapshot(), sink_empty)
            &&& t.chosen(t.snapshot(), after_stop) == t
            &&& t.chosen(t.snapshot(), after_stop).current() == Some(s.track_list@[row as int]@)
        }),
{
}

/// A running player that was not asked for a particular track plays the list in
/// a circle: when a track has ended, the one that follows it is opened, the first
/// following the last.
pub proof fn law_list_plays_on(s: AppState, worker: Worker)
    requires
        s.in_range(),
        s.track_list@.len() <= usize::MAX,
        s.playing,
        !s.should_skip,
    ensures
        worker.reload_due(s.snapshot(), true),
        s.chosen(s.snapshot(), true).current() == Some(
            s.track_list@[(s.settings.cur_idx + 1) % (s.track_list@.len() as int)]@,
        ),
{
    let len = s.track_list@.len() as int;
    assert(0 <= (s.settings.cur_idx + 1) % len < len);
}

/// A request stays open until a track could be queued: while none could, every
/// round tries again.
pub proof fn law_requests_wait_for_a_track(
    s: AppState,
    worker: Worker,
    sink_empty: bool,
    after_stop: bool,
)
    requires
        s.should_skip || s.seek_request is Some,
    ensures
        worker.reload_due(s.snapshot(), sink_empty),
        ({
            let t = s.chosen(s.snapshot(), after_stop);
            &&& t.should_skip == s.should_skip
            &&& t.seek_request == s.seek_request
            &&& forall|w: Worker, empty: bool| #[trigger] w.reload_due(t.snapshot(), empty)
        }),
{
}

/// Once a track was queued and while the sink has it, the worker opens nothing
/// further of its own accord.
pub proof fn law_queued_track_is_left_alone(
    s: AppState,
    cmd: Command,
    opened: Opened,
    worker: Worker,
)
    requires
        worker.last_idx == s.settings.cur_idx,
    ensures
        !worker.reload_due(s.queued(cmd, opened).snapshot(), false),
{
}

/// A player that is stopped and has no request open stays as it is, whatever
/// the sink answers.
pub proof fn law_stopped_player_rests(s: AppState, worker: Worker, sink_empty: bool)
    requires
        !s.playing,
        !s.should_skip,
        s.seek_request is None,
    ensures
        !worker.reload_due(s.snapshot(), sink_empty),
{
}

/// Stop cues the current track from its start, and the player then rests.
pub proof fn law_stop_cues_the_current_track(
    s: AppState,
    opened: Opened,
    worker: Worker,
    sink_empty: bool,
    after_stop: bool,
)
    requires
        s.seek_request is None,
    ensures
        ({
            let t = s.after(Control::Stop);
            let u = t.chosen(t.snapshot(), after_stop);
            let v = u.queued(t.snapshot(), opened);
            &&& worker.reload_due(t.snapshot(), sink_empty)
            &&& u.current() == s.current()
            &&& v.elapsed_time == 0
            &&& !v.playing
            &&& forall|w: Worker, empty: bool| !#[trigger] w.reload_due(v.snapshot(), empty)
        }),
{
}

/// The place that rewind or fast-forward asked for is the place that shows once
/// the track was queued, and the request is settled.
pub proof fn law_sought_place_is_shown(s: AppState, control: Control, opened: Opened)
    requires
        control is Rewind || control is Forward,
        s.admits(control),
        s.after(control).snapshot().has_place(),
    ensures
        ({
            let t = s.after(control);
            let u = t.queued(t.snapshot(), opened);
            &&& t.seek_request is Some
            &&& u.elapsed_time == crate::position::nanos(t.seek_request->0)
            &&& u.seek_request is None
        }),
{
    crate::position::lemma_nanos_size(s.after(control).seek_request->0);
}

/// While a queued track sounds, the elapsed time is the place it began at and
/// the time that has passed since.
pub proof fn law_elapsed_time_follows_the_clock(
    s: AppState,
    cmd: Command,
    opened: Opened,
    now: i128,
)
    requires
        now >= opened.now,
        cmd.has_place(),
        opened.now - cmd.begin_at() >= i128::MIN,
    ensures
        s.queued(cmd, opened).start_instant is Some,
        since(s.queued(cmd, opened).start_instant->0, now) == cmd.begin_at() + (now - opened.now),
        s.queued(cmd, opened).elapsed_time == cmd.begin_at(),
{
    if cmd.seek_request is Some {
        crate::position::lemma_nanos_size(cmd.seek_request->0);
    }
}

/// The clock, once set, stays set: no control, no choice of a track and no
/// track that is queued unsets it.
pub proof fn law_clock_stays_set(
    s: AppState,
    control: Control,
    cmd: Command,
    sink_empty: bool,
    opened: Opened,
)
    ensures
        s.queued(cmd, opened).start_instant is Some,
        s.start_instant is Some ==> {
            &&& s.after(control).start_instant is Some
            &&& s.chosen(cmd, sink_empty).start_instant is Some
        },
{
}

/// An index that names a track still names one after a track was chosen and queued.
pub proof fn law_rounds_keep_index_in_range(
    s: AppState,
    cmd: Command,
    sink_empty: bool,
    opened: Opened,
)
    requires
        s.in_range(),
    ensures
        s.chosen(cmd, sink_empty).in_range(),
        s.chosen(cmd, sink_empty).queued(cmd, opened).in_range(),
{
    crate::player::law_controls_keep_index_in_range(s, Control::Next);
}

/// The state after `n` rounds in which the sink was dry and no track could be opened.
pub open spec fn fruitless(s: AppState, n: nat) -> AppState
    decreases n,
{
    if n == 0 {
        s
    } else {
        let t = fruitless(s, (n - 1) as nat);
        t.chosen(t.snapshot(), true)
    }
}

/// A running player passes over tracks that cannot be opened, one a round.
pub proof fn law_unplayable_tracks_are_passed_over(s: AppState, n: nat)
    requires
        s.in_range(),
        s.playing,
        !s.should_skip,
        s.track_list@.len() <= usize::MAX,
    ensures
        fruitless(s, n) == s.at(
            ((s.settings.cur_idx + n) % (s.track_list@.len() as int)) as usize,
        ),
    decreases n,
{
    let len = s.track_list@.len() as int;
    let idx = s.settings.cur_idx as int;
    if n == 0 {
        vstd::arithmetic::div_mod::lemma_small_mod(idx as nat, len as nat);
    } else {
        law_unplayable_tracks_are_passed_over(s, (n - 1) as nat);
        crate::player::lemma_step_mod(idx + n - 1, len);
        crate::player::lemma_step_mod(idx + n - 2, len);
    }
}

/// No track is left out: whichever it is, a running player comes to it within
/// as many fruitless rounds as there are tracks.
pub proof fn law_every_track_gets_its_turn(s: AppState, row: usize) -> (n: nat)
    requires
        s.in_range(),
        s.playing,
        !s.should_skip,
        s.track_list@.len() <= usize::MAX,
        row < s.track_list@.len(),
    ensures
        1 <= n <= s.track_list@.len(),
        fruitless(s, n).settings.cur_idx == row,
{
    let len = s.track_list@.len() as int;
    let idx = s.settings.cur_idx as int;
    let n: nat = if row > idx {
        (row - idx) as nat
    } else {
        (row + len - idx) as nat
    };
    law_unplayable_tracks_are_passed_over(s, n);
    vstd::arithmetic::div_mod::lemma_small_mod(row as nat, len as nat);
    vstd::arithmetic::div_mod::lemma_mod_add_multiples_vanish(row as int, len);
    n
}

/// Where no reload is due, a round opens nothing, and changes nothing but the
/// elapsed time.
pub proof fn law_round_without_reload_leaves_all_but_the_time(
    worker: Worker,
    cmd: Command,
    s: AppState,
    a: Answers,
)
    requires
        !worker.reload_due(cmd, a.sink_empty),
    ensures
        ({
            let r = worker.round(cmd, s, a);
            &&& !r.stops
            &&& r.tried is None
            &&& r.worker == worker
            &&& r.state == AppState { elapsed_time: r.state.elapsed_time, ..s }
        }),
{
}

/// The sink plays at a round's end if and only if the player was running when the
/// snapshot was taken, at the volume of that time; and a round does not itself
/// start or stop the player.
pub proof fn law_sink_plays_as_the_snapshot_says(
    worker: Worker,
    cmd: Command,
    s: AppState,
    a: Answers,
)
    ensures
        worker.round(cmd, s, a).plays <==> cmd.playing,
        worker.round(cmd, s, a).volume == cmd.vol,
        worker.round(cmd, s, a).state.playing == s.playing,
{
}

/// One snapshot serves the whole round: whatever else changes in the state
/// once the snapshot was taken, the round treats the sink, the files and the displays
/// alike as long as the same track is current.
pub proof fn law_one_snapshot_serves_the_round(
    worker: Worker,
    cmd: Command,
    s: AppState,
    t: AppState,
    a: Answers,
)
    requires
        s.track_list@ == t.track_list@,
        s.settings.cur_idx == t.settings.cur_idx,
    ensures
        ({
            let r = worker.round(cmd, s, a);
            let q = worker.round(cmd, t, a);
            &&& r.worker == q.worker
            &&& r.volume == q.volume
            &&& r.stops == q.stops
            &&& r.tried == q.tried
            &&& r.plays == q.plays
            &&& r.seen == q.seen
            &&& r.state.settings.cur_idx == q.state.settings.cur_idx
        }),
{
}

/// A round leaves the track list and every setting but the current track alone.
pub proof fn law_round_keeps_the_rest(worker: Worker, cmd: Command, s: AppState, a: Answers)
    ensures
        ({
            let u = worker.round(cmd, s, a).state;
            &&& u.track_list == s.track_list
            &&& u.settings == Settings {
                cur_idx: u.settings.cur_idx,
                ..s.settings
            }
        }),
{
}

/// An index that names a track still names one after a round.
pub proof fn law_round_keeps_index_in_range(worker: Worker, cmd: Command, s: AppState, a: Answers)
    requires
        s.in_range(),
    ensures
        worker.round(cmd, s, a).state.in_range(),
{
    crate::player::law_controls_keep_index_in_range(s, Control::Next);
}

/// A round settles the requests if it queues a track, and else leaves them open.
pub proof fn law_round_settles_requests_with_a_track(
    worker: Worker,
    cmd: Command,
    s: AppState,
    a: Answers,
)
    ensures
        ({
            let u = worker.round(cmd, s, a).state;
            if worker.queues(cmd, s, a) {
                !u.should_skip && u.seek_request is None
            } else {
                u.should_skip == s.should_skip && u.seek_request == s.seek_request
            }
        }),
{
}

/// The round after one that queued a track opens nothing, as long as the sink has
/// the track and no control was pressed.
pub proof fn law_round_lets_a_queued_track_play(
    worker: Worker,
    cmd: Command,
    s: AppState,
    a: Answers,
    b: Answers,
)
    requires
        worker.queues(cmd, s, a),
        !b.sink_empty,
    ensures
        ({
            let r = worker.round(cmd, s, a);
            let next = r.worker.round(r.state.snapshot(), r.state, b);
            &&& !next.stops
            &&& next.worker == r.worker
            &&& next.state == AppState { elapsed_time: next.state.elapsed_time, ..r.state }
        }),
{
}

/// On a player that is stopped and has no request open, a round changes nothing at
/// all: it keeps the sink paused and the reels still.
pub proof fn law_stopped_round_changes_nothing(worker: Worker, s: AppState, a: Answers)
    requires
        !s.playing,
        !s.should_skip,
        s.seek_request is None,
    ensures
        ({
            let r = worker.round(s.snapshot(), s, a);
            &&& r.worker == worker
            &&& r.state == s
            &&& !r.stops
            &&& !r.plays
            &&& r.seen != Some(Observed::Running)
        }),
{
}

/// The round after a track was selected tries that track and no other, and lets
/// the sink play; if the track opens, the request is settled.
pub proof fn law_selected_track_is_tried_next(worker: Worker, s: AppState, row: usize, a: Answers)
    requires
        row < s.track_list@.len(),
    ensures
        ({
            let t = s.after(Control::Select(row));
            let r = worker.round(t.snapshot(), t, a);
            &&& r.stops
            &&& r.tried == Some(s.track_list@[row as int]@)
            &&& r.plays
            &&& r.state.settings.cur_idx == row
            &&& a.opened is Some ==> !r.state.should_skip
        }),
{
}

/// A round that queues a track and then finds it sounding shows the place it began
/// at and the time that has passed since.
pub proof fn law_round_shows_the_queued_place(
    worker: Worker,
    cmd: Command,
    s: AppState,
    a: Answers,
)
    requires
        worker.queues(cmd, s, a),
        cmd.has_place(),
        a.opened->0.now - cmd.begin_at() >= i128::MIN,
        a.ending is Some,
        sounding(cmd, a.ending->0.sink_empty, a.ending->0.sink_paused),
        a.ending->0.now >= a.opened->0.now,
    ensures
        worker.round(cmd, s, a).state.elapsed_time == cmd.begin_at() + (a.ending->0.now
            - a.opened->0.now),
        worker.round(cmd, s, a).seen == Some(Observed::Running),
{
    law_elapsed_time_follows_the_clock(
        s.chosen(cmd, a.after_stop),
        cmd,
        a.opened->0,
        a.ending->0.now,
    );
}

/// Whenever the sink has a track, the clock is set: if it was so before a round,
/// and what the sink has at the end was there at the start or was queued by the
/// round, then it is so before the end is looked at, and after.
pub proof fn law_clock_is_set_while_the_sink_has_a_track(
    worker: Worker,
    cmd: Command,
    s: AppState,
    a: Answers,
)
    requires
        !a.sink_empty ==> s.start_instant is Some,
        a.ending is Some,
        !a.ending->0.sink_empty ==> !a.sink_empty || worker.queues(cmd, s, a),
    ensures
        !a.ending->0.sink_empty ==> {
            &&& worker.round(
                cmd,
                s,
                Answers { ending: None, ..a },
            ).state.start_instant is Some
            &&& worker.round(cmd, s, a).state.start_instant is Some
        },
{
}

/// On a running player that was not asked for a particular track, a round with a
/// dry sink moves on to the track that follows, and if that cannot be opened does
/// no more: so the player comes through one fruitless round after the other.
pub proof fn law_dry_round_moves_on(worker: Worker, s: AppState, n: nat, a: Answers)
    requires
        s.playing,
        !s.should_skip,
        a.sink_empty,
        a.after_stop,
        a.opened is None,
        a.ending is Some ==> a.ending->0.sink_empty,
    ensures
        ({
            let t = fruitless(s, n);
            let r = worker.round(t.snapshot(), t, a);
            &&& r.stops
            &&& r.state == fruitless(s, n + 1)
            &&& r.worker.last_idx == r.state.settings.cur_idx
        }),
{
    lemma_fruitless_keeps_running(s, n);
}

/// Fruitless rounds neither stop the player nor ask it for a track.
proof fn lemma_fruitless_keeps_running(s: AppState, n: nat)
    ensures
        fruitless(s, n).playing == s.playing,
        fruitless(s, n).should_skip == s.should_skip,
    decreases n,
{
    if n > 0 {
        lemma_fruitless_keeps_running(s, (n - 1) as nat);
    }
}

/// The snapshot is of the state as it stands, field by field, whatever has been
/// queued or asked for.
pub proof fn law_snapshot_is_of_the_state(s: AppState, cmd: Command)
    requires
        call_ensures(AppState::command, (&s,), cmd),
    ensures
        cmd.playing == s.playing,
        cmd.cur_idx == s.settings.cur_idx,
        cmd.music_folder@ == s.settings.music_folder@,
        cmd.vol == s.settings.vol,
        cmd.should_skip == s.should_skip,
        cmd.seek_request == s.seek_request,
        cmd.eq_gains == s.settings.eq_gains,
{
}

/// A round on a fresh snapshot sets the sink to the volume in the settings, and lets it
/// play if and only if the player is running.
pub proof fn law_round_heeds_volume_and_play(worker: Worker, s: AppState, a: Answers)
    ensures
        worker.round(s.snapshot(), s, a).volume == s.settings.vol,
        worker.round(s.snapshot(), s, a).plays == s.playing,
        s.snapshot().music_folder@ == s.settings.music_folder@,
        s.snapshot().eq_gains == s.settings.eq_gains,
{
}

/// Playback begins at the place asked for, to the nearest nanosecond, or at the start.
pub proof fn law_target_is_the_place_asked_for(cmd: Command, at: u128)
    requires
        call_ensures(Command::target, (&cmd,), at),
    ensures
        match cmd.seek_request {
            Some(place) => 2 * distance(at * pow2(149), value(place) * 1_000_000_000) <= pow2(149)
                && (2 * distance(at * pow2(149), value(place) * 1_000_000_000) == pow2(149) ==> at
                % 2 == 0),
            None => at == 0,
        },
{
    if cmd.seek_request is Some {
        crate::position::lemma_nanos_are_nearest(cmd.seek_request->0);
    }
}

/// A place passes the test if and only if its seconds are not below zero and can be
/// counted by 64 bits; where none is asked for there is nothing to test.
pub proof fn law_place_is_tested_for_its_size(cmd: Command, fits: bool)
    requires
        call_ensures(Command::place_is_span, (&cmd,), fits),
    ensures
        match cmd.seek_request {
            Some(place) => fits <==> !negative(place) && value(place) < pow2(64) * pow2(149),
            None => fits,
        },
{
    if cmd.seek_request is Some {
        crate::position::law_spans_are_counted_by_64_bits(cmd.seek_request->0);
    }
}

/// The sink is to play if and only if the player was running.
pub proof fn law_sink_follows_the_player(cmd: Command, on: bool)
    requires
        call_ensures(Command::plays, (&cmd,), on),
    ensures
        on <==> cmd.playing,
{
}

/// A new worker takes the current track for another than its last, so that starting the
/// player opens one, but for the one index that stands for none.
pub proof fn law_first_play_opens_a_track(worker: Worker, s: AppState, a: Answers)
    requires
        call_ensures(Worker::new, (), worker),
        s.playing,
        s.settings.cur_idx != 99999,
    ensures
        worker.last_idx == 99999,
        worker.round(s.snapshot(), s, a).stops,
{
}

/// Each of four things has a track opened: a track was asked for; a place was; the
/// player runs and another track is current than the last one opened; the player runs
/// and the sink is dry. Nothing else has.
pub proof fn law_reload_has_four_reasons(
    worker: Worker,
    cmd: Command,
    sink_empty: bool,
    due: bool,
)
    requires
        call_ensures(Worker::must_reload, (&worker, &cmd, sink_empty), due),
    ensures
        cmd.should_skip ==> due,
        cmd.seek_request is Some ==> due,
        cmd.playing && cmd.cur_idx != worker.last_idx ==> due,
        cmd.playing && sink_empty ==> due,
        due && !cmd.playing ==> cmd.should_skip || cmd.seek_request is Some,
        due && !cmd.should_skip && cmd.cur_idx == worker.last_idx && !sink_empty
            ==> cmd.seek_request is Some,
{
}

/// A round tells the sink to stop for those four reasons and no other.
pub proof fn law_round_stops_for_four_reasons(
    worker: Worker,
    cmd: Command,
    s: AppState,
    a: Answers,
)
    ensures
        ({
            let stops = worker.round(cmd, s, a).stops;
            &&& cmd.should_skip ==> stops
            &&& cmd.seek_request is Some ==> stops
            &&& cmd.playing && cmd.cur_idx != worker.last_idx ==> stops
            &&& cmd.playing && a.sink_empty ==> stops
            &&& stops && !cmd.playing ==> cmd.should_skip || cmd.seek_request is Some
            &&& stops && !cmd.should_skip && cmd.cur_idx == worker.last_idx && !a.sink_empty
                ==> cmd.seek_request is Some
        }),
{
}

/// The choice of a track keeps the current one unless the sink is dry, the player was
/// running and no track was asked for: whether a place was asked for makes no difference.
pub proof fn law_choice_stays_on_the_track(
    s: &mut AppState,
    cmd: Command,
    sink_empty: bool,
    name: Option<String>,
)
    requires
        call_ensures(AppState::choose_track, (s, &cmd, sink_empty), name),
        !sink_empty || cmd.should_skip || !cmd.playing,
    ensures
        *final(s) == *old(s),
        match name {
            Some(track) => old(s).settings.cur_idx < old(s).track_list@.len() && track@
                == old(s).track_list@[old(s).settings.cur_idx as int]@,
            None => old(s).settings.cur_idx >= old(s).track_list@.len(),
        },
{
}

/// With a dry sink, a running player and no track asked for, the choice falls on the track
/// behind the current one, the first being behind the last; nothing but the index changes.
pub proof fn law_choice_moves_on_when_dry(
    s: &mut AppState,
    cmd: Command,
    name: Option<String>,
)
    requires
        call_ensures(AppState::choose_track, (s, &cmd, true), name),
        !cmd.should_skip,
        cmd.playing,
        old(s).settings.cur_idx < old(s).track_list@.len() <= usize::MAX,
    ensures
        final(s).settings.cur_idx == if old(s).settings.cur_idx + 1 == old(s).track_list@.len() {
            0
        } else {
            old(s).settings.cur_idx + 1
        },
        name is Some,
        name->0@ == old(s).track_list@[final(s).settings.cur_idx as int]@,
        final(s).track_list == old(s).track_list,
        final(s).settings.vol == old(s).settings.vol,
        final(s).settings.music_folder == old(s).settings.music_folder,
        final(s).settings.eq_gains == old(s).settings.eq_gains,
        final(s).playing == old(s).playing,
        final(s).elapsed_time == old(s).elapsed_time,
        final(s).total_time == old(s).total_time,
        final(s).start_instant == old(s).start_instant,
        final(s).should_skip == old(s).should_skip,
        final(s).seek_request == old(s).seek_request,
{
    let len = old(s).track_list@.len() as int;
    let next = old(s).settings.cur_idx + 1;
    if next < len {
        vstd::arithmetic::div_mod::lemma_small_mod(next as nat, len as nat);
    } else {
        vstd::arithmetic::div_mod::lemma_mod_self_0(len);
    }
}

/// Whatever the choice, the name is that of the track that is current then, and there is
/// none only where the index names no track; and nothing but the index ever changes.
pub proof fn law_choice_gives_the_current_name(
    s: &mut AppState,
    cmd: Command,
    sink_empty: bool,
    name: Option<String>,
)
    requires
        call_ensures(AppState::choose_track, (s, &cmd, sink_empty), name),
    ensures
        match name {
            Some(track) => final(s).settings.cur_idx < old(s).track_list@.len() && track@
                == old(s).track_list@[final(s).settings.cur_idx as int]@,
            None => final(s).settings.cur_idx >= old(s).track_list@.len(),
        },
        *final(s) == (AppState {
            settings: Settings { cur_idx: final(s).settings.cur_idx, ..old(s).settings },
            ..*old(s)
        }),
{
}

/// When the choice moves on, any index is brought onto a list that is not empty, one step
/// behind in the circle; on an empty list there is nothing to choose, and nothing changes.
pub proof fn law_choice_repairs_the_index(
    s: &mut AppState,
    cmd: Command,
    sink_empty: bool,
    name: Option<String>,
)
    requires
        call_ensures(AppState::choose_track, (s, &cmd, sink_empty), name),
        old(s).track_list@.len() <= usize::MAX,
    ensures
        old(s).track_list@.len() == 0 ==> name is None && *final(s) == *old(s),
        sink_empty && !cmd.should_skip && cmd.playing && old(s).track_list@.len() > 0 ==> {
            let len = old(s).track_list@.len() as int;
            &&& name is Some
            &&& final(s).settings.cur_idx < len
            &&& exists|turns: int|
                old(s).settings.cur_idx + 1 == final(s).settings.cur_idx + #[trigger] (len * turns)
        },
{
    lemma_turns(old(s).settings.cur_idx + 1, old(s).track_list@.len() as int);
}

/// A remainder is whole turns away from the number.
proof fn lemma_turns(next: int, len: int)
    ensures
        len > 0 ==> 0 <= next % len < len && exists|turns: int|
            next == next % len + #[trigger] (len * turns),
{
    if len > 0 {
        vstd::arithmetic::div_mod::lemma_fundamental_div_mod(next, len);
        vstd::arithmetic::div_mod::lemma_mod_bound(next, len);
        assert(next == next % len + len * (next / len));
    }
}

/// A round whose sink is not dry after it was stopped leaves the current track as it
/// was, whatever is asked for; so a round that serves a seek tries the track that was
/// current. The same holds of a stopped player, and where a track was asked for.
pub proof fn law_seek_stays_on_the_track(worker: Worker, cmd: Command, s: AppState, a: Answers)
    requires
        !a.after_stop || cmd.should_skip || !cmd.playing,
    ensures
        ({
            let r = worker.round(cmd, s, a);
            &&& r.state.settings.cur_idx == s.settings.cur_idx
            &&& r.stops ==> r.tried == if s.settings.cur_idx < s.track_list@.len() {
                Some(s.track_list@[s.settings.cur_idx as int]@)
            } else {
                None
            }
            &&& cmd.seek_request is Some ==> r.stops
        }),
{
}

/// A round that is due on a running player whose sink is dry, with no track asked for,
/// tries the track behind the current one, the first being behind the last.
pub proof fn law_dry_sink_brings_the_track_behind(
    worker: Worker,
    cmd: Command,
    s: AppState,
    a: Answers,
)
    requires
        worker.round(cmd, s, a).stops,
        a.after_stop,
        cmd.playing,
        !cmd.should_skip,
        s.settings.cur_idx < s.track_list@.len() <= usize::MAX,
    ensures
        ({
            let r = worker.round(cmd, s, a);
            let next = if s.settings.cur_idx + 1 == s.track_list@.len() {
                0
            } else {
                s.settings.cur_idx + 1
            };
            &&& r.state.settings.cur_idx == next
            &&& r.tried == Some(s.track_list@[next]@)
        }),
{
    let len = s.track_list@.len() as int;
    let next = s.settings.cur_idx + 1;
    if next < len {
        vstd::arithmetic::div_mod::lemma_small_mod(next as nat, len as nat);
    } else {
        vstd::arithmetic::div_mod::lemma_mod_self_0(len);
    }
}

/// In such a round any index is brought onto a list that is not empty, one step behind in
/// the circle, and that track is tried; an empty list has no track to try.
pub proof fn law_dry_round_repairs_the_index(
    worker: Worker,
    cmd: Command,
    s: AppState,
    a: Answers,
)
    requires
        worker.round(cmd, s, a).stops,
        a.after_stop,
        cmd.playing,
        !cmd.should_skip,
        s.track_list@.len() <= usize::MAX,
    ensures
        ({
            let r = worker.round(cmd, s, a);
            let len = s.track_list@.len() as int;
            let idx = r.state.settings.cur_idx;
            &&& len == 0 ==> idx == s.settings.cur_idx && r.tried is None
            &&& len > 0 ==> {
                &&& idx < len
                &&& exists|turns: int| s.settings.cur_idx + 1 == idx + #[trigger] (len * turns)
                &&& r.tried == Some(s.track_list@[idx as int]@)
            }
        }),
{
    lemma_turns(s.settings.cur_idx + 1, s.track_list@.len() as int);
}

/// The last index that the worker visited is the current one after every round that
/// was due, and stays as it was after every other.
pub proof fn law_worker_remembers_the_track(
    worker: Worker,
    cmd: Command,
    s: AppState,
    a: Answers,
)
    ensures
        ({
            let r = worker.round(cmd, s, a);
            r.worker.last_idx == if r.stops {
                r.state.settings.cur_idx
            } else {
                worker.last_idx
            }
        }),
{
}

/// After a track was opened its length shows, or five minutes where that is unknown;
/// the place asked for shows, to the nearest nanosecond, or the start; the clock is set
/// back by it; and nothing is asked for any more. Nothing else changes.
pub proof fn law_opened_track_is_shown(
    worker: &mut Worker,
    s: &mut AppState,
    cmd: Command,
    opened: Opened,
)
    requires
        call_ensures(Worker::conclude, (worker, s, &cmd, Some(opened)), ()),
        cmd.has_place(),
        opened.now - cmd.begin_at() >= i128::MIN,
    ensures
        final(s).total_time == match opened.length {
            Some(length) => length,
            None => 300_000_000_000,
        },
        match cmd.seek_request {
            Some(place) => 2 * distance(
                final(s).elapsed_time * pow2(149),
                value(place) * 1_000_000_000,
            ) <= pow2(149),
            None => final(s).elapsed_time == 0,
        },
        final(s).start_instant is Some,
        final(s).start_instant->0 + final(s).elapsed_time == opened.now,
        !final(s).should_skip,
        final(s).seek_request is None,
        final(s).settings == old(s).settings,
        final(s).playing == old(s).playing,
        final(s).track_list == old(s).track_list,
        final(worker).last_idx == old(s).settings.cur_idx,
{
    if cmd.seek_request is Some {
        crate::position::lemma_nanos_size(cmd.seek_request->0);
        crate::position::lemma_nanos_are_nearest(cmd.seek_request->0);
    }
}

/// A track that could not be opened leaves the state as it was; its index counts as
/// visited all the same.
pub proof fn law_unopened_track_changes_nothing(
    worker: &mut Worker,
    s: &mut AppState,
    cmd: Command,
)
    requires
        call_ensures(Worker::conclude, (worker, s, &cmd, None), ()),
    ensures
        *final(s) == *old(s),
        final(worker).last_idx == old(s).settings.cur_idx,
{
}

/// A round that queues a track shows its length, or five minutes; any other keeps the
/// length that was shown, and the clock.
pub proof fn law_round_shows_the_length(worker: Worker, cmd: Command, s: AppState, a: Answers)
    ensures
        ({
            let r = worker.round(cmd, s, a);
            if r.stops && r.tried is Some && a.opened is Some {
                r.state.total_time == match a.opened->0.length {
                    Some(length) => length,
                    None => 300_000_000_000,
                }
            } else {
                r.state.total_time == s.total_time && r.state.start_instant == s.start_instant
            }
        }),
{
}

/// While a track sounds, the elapsed time becomes what the clock shows since the track's
/// start, whatever it was before; else it stays. Nothing else ever changes.
pub proof fn law_time_follows_the_clock(
    s: &mut AppState,
    cmd: Command,
    sink_empty: bool,
    sink_paused: bool,
    now: i128,
    shown: Observed,
)
    requires
        call_ensures(AppState::observe, (s, &cmd, sink_empty, sink_paused, now), shown),
        old(s).start_instant is Some ==> now - old(s).start_instant->0 <= i128::MAX,
    ensures
        cmd.playing && !sink_empty && !sink_paused && old(s).start_instant is Some ==> {
            let start = old(s).start_instant->0;
            final(s).elapsed_time == if now >= start {
                now - start
            } else {
                0
            }
        },
        !cmd.playing || sink_empty || sink_paused ==> final(s).elapsed_time
            == old(s).elapsed_time,
        final(s).settings == old(s).settings,
        final(s).playing == old(s).playing,
        final(s).track_list == old(s).track_list,
        final(s).total_time == old(s).total_time,
        final(s).start_instant == old(s).start_instant,
        final(s).should_skip == old(s).should_skip,
        final(s).seek_request == old(s).seek_request,
{
}

/// The reels turn if and only if the player was running and the sink plays a track; else
/// the spectrum falls if and only if the sink is paused or dry.
pub proof fn law_displays_follow_the_sink(
    s: &mut AppState,
    cmd: Command,
    sink_empty: bool,
    sink_paused: bool,
    now: i128,
    shown: Observed,
)
    requires
        call_ensures(AppState::observe, (s, &cmd, sink_empty, sink_paused, now), shown),
    ensures
        shown == Observed::Running <==> cmd.playing && !sink_empty && !sink_paused,
        shown == Observed::Silent <==> sink_empty || sink_paused,
        shown == Observed::Unchanged <==> !cmd.playing && !sink_empty && !sink_paused,
{
}

/// In every round that finds a track sounding, also in one that opens nothing, the
/// elapsed time afterwards is the clock's reading less the track's start, whatever it was
/// before; the start is as it was, unless the round queued a track.
pub proof fn law_round_follows_the_clock(worker: Worker, cmd: Command, s: AppState, a: Answers)
    requires
        a.ending is Some,
        cmd.playing,
        !a.ending->0.sink_empty,
        !a.ending->0.sink_paused,
    ensures
        ({
            let r = worker.round(cmd, s, a);
            let now = a.ending->0.now;
            &&& r.seen == Some(Observed::Running)
            &&& r.state.start_instant is Some && 0 <= now - r.state.start_instant->0 <= i128::MAX
                ==> r.state.elapsed_time == now - r.state.start_instant->0
            &&& r.state.start_instant is Some && now < r.state.start_instant->0
                ==> r.state.elapsed_time == 0
            &&& !(r.stops && r.tried is Some && a.opened is Some) ==> r.state.start_instant
                == s.start_instant
        }),
{
}

/// In a round that finds none sounding, the elapsed time stays as it was, unless the
/// round queues a track.
pub proof fn law_time_stands_in_silence(worker: Worker, cmd: Command, s: AppState, a: Answers)
    requires
        a.ending is Some ==> !cmd.playing || a.ending->0.sink_empty || a.ending->0.sink_paused,
    ensures
        ({
            let r = worker.round(cmd, s, a);
            &&& !(r.stops && r.tried is Some && a.opened is Some) ==> r.state.elapsed_time
                == s.elapsed_time
            &&& r.seen is None <==> a.ending is None
            &&& r.seen != Some(Observed::Running)
            &&& r.seen == Some(Observed::Silent) <==> a.ending is Some && (a.ending->0.sink_empty
                || a.ending->0.sink_paused)
        }),
{
}

/// A round that queues a track sets the clock back from the reading at which it was queued
/// by the place asked for, to the nearest nanosecond, or not at all; and where it does not
/// hear the track yet, it shows that place.
pub proof fn law_round_begins_at_the_place(worker: Worker, cmd: Command, s: AppState, a: Answers)
    requires
        worker.round(cmd, s, a).tried is Some,
        a.opened is Some,
        cmd.has_place(),
        a.opened->0.now - cmd.begin_at() >= i128::MIN,
    ensures
        ({
            let t = worker.round(cmd, s, a).state;
            let back = a.opened->0.now - t.start_instant->0;
            &&& t.start_instant is Some
            &&& match cmd.seek_request {
                Some(place) => 2 * distance(back * pow2(149), value(place) * 1_000_000_000)
                    <= pow2(149),
                None => back == 0,
            }
            &&& (a.ending is Some ==> !cmd.playing || a.ending->0.sink_empty
                || a.ending->0.sink_paused) ==> t.elapsed_time == back
        }),
{
    if cmd.seek_request is Some {
        crate::position::lemma_nanos_size(cmd.seek_request->0);
        crate::position::lemma_nanos_are_nearest(cmd.seek_request->0);
    }
}

/// What is replayed is a round on a snapshot of the state.
pub proof fn law_replay_is_a_round(
    worker: &mut Worker,
    s: &mut AppState,
    a: Answers,
    report: Report,
)
    requires
        call_ensures(Worker::replay, (worker, s, &a), report),
    ensures
        ({
            let r = old(worker).round(old(s).snapshot(), *old(s), a);
            &&& final(worker).last_idx == r.worker.last_idx
            &&& *final(s) == r.state
            &&& report.stops == r.stops
            &&& report.tried is Some <==> r.tried is Some
            &&& report.tried is Some ==> report.tried->0@ == r.tried->0
            &&& report.seen == r.seen
        }),
{
}

/// What is replayed is a round: it asks for the volume of the settings, lets the sink play
/// as the player runs, and where the sink goes on with the track and nothing is asked for,
/// moves nothing but the time.
pub proof fn law_replay_heeds_the_state(
    worker: &mut Worker,
    s: &mut AppState,
    a: Answers,
    report: Report,
)
    requires
        call_ensures(Worker::replay, (worker, s, &a), report),
    ensures
        report.volume == old(s).settings.vol,
        report.plays == old(s).playing,
        report.stops <==> old(s).should_skip || old(s).seek_request is Some || old(s).playing && (
        old(s).settings.cur_idx != old(worker).last_idx || a.sink_empty),
        report.tried is Some ==> final(s).settings.cur_idx < final(s).track_list@.len()
            && report.tried->0@ == final(s).track_list@[final(s).settings.cur_idx as int]@,
        !report.stops ==> report.tried is None && *final(worker) == *old(worker) && *final(s) == (
        AppState { elapsed_time: final(s).elapsed_time, ..*old(s) }),
        report.stops ==> final(worker).last_idx == final(s).settings.cur_idx,
        !a.after_stop ==> final(s).settings.cur_idx == old(s).settings.cur_idx,
        final(s).track_list == old(s).track_list,
        final(s).playing == old(s).playing,
{
}

} // verus!
