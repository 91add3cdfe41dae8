//! What the front panel shows.

use vstd::prelude::*;
use vstd::string::*;
use crate::player::AppState;
use crate::position::SECOND;
use crate::text::two_digit_string;

verus! {

/// What `str::to_uppercase` returns for a text.
pub uninterp spec fn uppercase_of(text: Seq<char>) -> Seq<char>;

/// The upper-case form of an ASCII character.
pub open spec fn ascii_upper(c: char) -> char {
    if 'a' <= c <= 'z' {
        (c as int - 32) as char
    } else {
        c
    }
}

/// `str::to_uppercase` depends on nothing but the text. Of a text that is all
/// ASCII it maps `a` to `z` to `A` to `Z` and keeps every other character; what
/// it makes of other texts is left to the Unicode tables of the standard library.
pub assume_specification[ str::to_uppercase ](text: &str) -> (upper: String)
    ensures
        upper@ == uppercase_of(text@),
        crate::tracks::is_ascii_text(text@) ==> upper@ == text@.map_values(
            |c: char| ascii_upper(c),
        ),
;

/// A text in upper case: character by character where it is all ASCII, and as
/// the standard library has it otherwise.
pub open spec fn upper_case(text: Seq<char>) -> Seq<char> {
    if crate::tracks::is_ascii_text(text) {
        text.map_values(|c: char| ascii_upper(c))
    } else {
        uppercase_of(text)
    }
}

/// A row of the track list.
pub struct Row {
    pub label: String,
    pub selected: bool,
}

/// How the track with index `i` is listed: its number from one on, and its name.
pub open spec fn listed_as(i: int, name: Seq<char>) -> Seq<char> {
    crate::text::two_digits((i + 1) as nat) + ". "@ + name
}

/// Writes how the track with index `i` is listed.
pub fn track_label(i: usize, name: &str) -> (label: String)
    requires
        i < usize::MAX,
    ensures
        label@ == listed_as(i as int, name@),
{
    let mut label = two_digit_string(i + 1);
    label.append(". ");
    label.append(name);
    label
}

/// The title line for the current track's name in upper case, where there is one.
pub open spec fn title_for(upper: Option<Seq<char>>) -> Seq<char> {
    match upper {
        Some(name) => name,
        None => "NO TRACK"@,
    }
}

/// Writes the title line for the current track's name in upper case.
pub fn title_line(upper: Option<String>) -> (title: String)
    ensures
        title@ == title_for(
            match upper {
                Some(name) => Some(name@),
                None => None,
            },
        ),
{
    match upper {
        Some(name) => name,
        None => "NO TRACK".to_owned(),
    }
}

impl AppState {
    /// The row of the track with index `i`, marked where it is the current one.
    pub fn row(&self, i: usize) -> (row: Row)
        requires
            i < self.track_list@.len(),
        ensures
            row.label@ == listed_as(i as int, self.track_list@[i as int]@),
            row.selected == (self.settings.cur_idx == i),
    {
        let count: usize = self.track_list.len();
        assert(i < count);
        Row {
            label: track_label(i, self.track_list[i].as_str()),
            selected: self.settings.cur_idx == i,
        }
    }

    /// The title line: the current track in upper case.
    pub fn title(&self) -> (title: String)
        ensures
            title@ == title_for(
                match self.current() {
                    Some(name) => Some(upper_case(name)),
                    None => None,
                },
            ),
    {
        if self.settings.cur_idx < self.track_list.len() {
            let name: &String = &self.track_list[self.settings.cur_idx];
            title_line(Some(name.as_str().to_uppercase()))
        } else {
            title_line(None)
        }
    }

    /// The caption of the play button: what pressing it would do.
    pub fn play_caption(&self) -> (caption: &'static str)
        ensures
            caption@ == if self.playing {
                "PAUSE"@
            } else {
                "PLAY"@
            },
    {
        if self.playing {
            "PAUSE"
        } else {
            "PLAY"
        }
    }

    /// The length that the progress bar spans, in nanoseconds: that of the track,
    /// and a second at least.
    pub fn shown_total(&self) -> (total: u128)
        ensures
            total == if self.total_time > SECOND {
                self.total_time
            } else {
                SECOND
            },
    {
        if self.total_time > SECOND {
            self.total_time
        } else {
            SECOND
        }
    }
}

/// The label is a number in two digits at least, a dot, a space and the name.
pub open spec fn is_numbered(label: Seq<char>, n: int, name: Seq<char>) -> bool {
    let digits = label.len() - name.len() - 2;
    &&& digits >= 2
    &&& crate::text::is_padded(label.take(digits), n)
    &&& label[digits] == '.'
    &&& label[digits + 1] == ' '
    &&& label.skip(digits + 2) == name
}

/// A listed track is numbered.
proof fn lemma_listed(i: int, name: Seq<char>)
    requires
        i >= 0,
    ensures
        is_numbered(listed_as(i, name), i + 1, name),
{
    reveal_strlit(". ");
    let label = listed_as(i, name);
    let number = crate::text::two_digits((i + 1) as nat);
    crate::text::lemma_two_digits_are_padded((i + 1) as nat);
    assert(label.take(number.len() as int) =~= number);
    assert(label.skip((number.len() + 2) as int) =~= name);
}

/// A track's label numbers it from one on and gives its name.
pub proof fn law_tracks_are_numbered_from_one(i: usize, name: &str, label: String)
    requires
        call_ensures(track_label, (i, name), label),
    ensures
        is_numbered(label@, i + 1, name@),
{
    lemma_listed(i as int, name@);
}

/// A row shows the track of that row, and is marked if and only if that is the current one.
pub proof fn law_row_shows_its_track(s: AppState, i: usize, row: Row)
    requires
        i < s.track_list@.len(),
        call_ensures(AppState::row, (&s, i), row),
    ensures
        is_numbered(row.label@, i + 1, s.track_list@[i as int]@),
        row.selected <==> i == s.settings.cur_idx,
{
    lemma_listed(i as int, s.track_list@[i as int]@);
}

/// The words that stand where there is no track.
proof fn lemma_no_track()
    ensures
        "NO TRACK"@ == seq!['N', 'O', ' ', 'T', 'R', 'A', 'C', 'K'],
{
    reveal_strlit("NO TRACK");
    assert("NO TRACK"@ =~= seq!['N', 'O', ' ', 'T', 'R', 'A', 'C', 'K']);
}

/// The title line is the name that it is given, or says that there is no track.
pub proof fn law_title_line_gives_the_name(upper: Option<String>, title: String)
    requires
        call_ensures(title_line, (upper,), title),
    ensures
        match upper {
            Some(name) => title@ == name@,
            None => title@ == seq!['N', 'O', ' ', 'T', 'R', 'A', 'C', 'K'],
        },
{
    lemma_no_track();
}

/// The title is the current track's name, its small ASCII letters made capital and every
/// other character kept, where the name is all ASCII; by the standard library's tables where
/// it is not; and says that there is no track where the index names none.
pub proof fn law_title_is_the_current_track(s: AppState, title: String, i: int)
    requires
        call_ensures(AppState::title, (&s,), title),
    ensures
        s.settings.cur_idx >= s.track_list@.len() ==> title@ == seq![
            'N',
            'O',
            ' ',
            'T',
            'R',
            'A',
            'C',
            'K',
        ],
        s.settings.cur_idx < s.track_list@.len() ==> {
            let name = s.track_list@[s.settings.cur_idx as int]@;
            if forall|k: int| 0 <= k < name.len() ==> (#[trigger] name[k] as int) < 128 {
                &&& title@.len() == name.len()
                &&& 0 <= i < name.len() ==> if 97 <= name[i] as int <= 122 {
                    title@[i] as int + 32 == name[i] as int
                } else {
                    title@[i] == name[i]
                }
            } else {
                title@ == uppercase_of(name)
            }
        },
{
    lemma_no_track();
}

/// The play button says what pressing it does.
pub proof fn law_play_button_says_what_it_does(s: AppState, caption: &'static str)
    requires
        call_ensures(AppState::play_caption, (&s,), caption),
    ensures
        s.playing ==> caption@ == seq!['P', 'A', 'U', 'S', 'E'],
        !s.playing ==> caption@ == seq!['P', 'L', 'A', 'Y'],
{
    reveal_strlit("PAUSE");
    reveal_strlit("PLAY");
    assert("PAUSE"@ =~= seq!['P', 'A', 'U', 'S', 'E']);
    assert("PLAY"@ =~= seq!['P', 'L', 'A', 'Y']);
}

/// The length that is shown is the track's, or a second where that is more.
pub proof fn law_shown_length_is_a_second_at_least(s: AppState, total: u128)
    requires
        call_ensures(AppState::shown_total, (&s,), total),
    ensures
        total >= 1_000_000_000,
        total >= s.total_time,
        total == 1_000_000_000 || total == s.total_time,
{
}

} // verus!
