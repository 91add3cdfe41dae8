//! Which files of the music folder are tracks.

use vstd::prelude::*;
use vstd::string::*;

verus! {

/// What `str::to_lowercase` returns for a text.
pub uninterp spec fn lowercase_of(text: Seq<char>) -> Seq<char>;

/// All characters of the text are ASCII.
pub open spec fn is_ascii_text(text: Seq<char>) -> bool {
    forall|i: int| 0 <= i < text.len() ==> (#[trigger] text[i] as int) < 128
}

/// The lower-case form of an ASCII character.
pub open spec fn ascii_lower(c: char) -> char {
    if 'A' <= c <= 'Z' {
        (c as int + 32) as char
    } else {
        c
    }
}

/// `str::to_lowercase` depends on nothing but the text. Of a text that is all
/// ASCII it maps `A` to `Z` to `a` to `z` and keeps every other character; what
/// it makes of other texts is left to the Unicode tables of the standard library.
pub assume_specification[ str::to_lowercase ](text: &str) -> (lower: String)
    ensures
        lower@ == lowercase_of(text@),
        is_ascii_text(text@) ==> lower@ == text@.map_values(|c: char| ascii_lower(c)),
;

/// A text in lower case: character by character where it is all ASCII, and as
/// the standard library has it otherwise.
pub open spec fn lower_case(text: Seq<char>) -> Seq<char> {
    if is_ascii_text(text) {
        text.map_values(|c: char| ascii_lower(c))
    } else {
        lowercase_of(text)
    }
}

/// `ext` is the extension of the file name: what stands behind its last dot,
/// where something stands before that dot and the name is not that of the
/// parent folder.
pub open spec fn has_extension(name: Seq<char>, ext: Seq<char>) -> bool {
    &&& name.len() > ext.len() + 1
    &&& name[name.len() - ext.len() - 1] == '.'
    &&& name.skip(name.len() - ext.len()) == ext
    &&& !ext.contains('.')
    &&& name != ".."@
}

/// The file name has no extension.
pub open spec fn lacks_extension(name: Seq<char>) -> bool {
    forall|ext: Seq<char>| !has_extension(name, ext)
}

/// The extensions of the formats that can be played.
pub open spec fn is_audio(lowered: Seq<char>) -> bool {
    lowered == "mp3"@ || lowered == "wav"@ || lowered == "flac"@
}

/// The file is a track: its extension, in lower case, is that of a format that
/// can be played.
pub open spec fn is_track_name(name: Seq<char>) -> bool {
    exists|ext: Seq<char>| #[trigger] has_extension(name, ext) && is_audio(lower_case(ext))
}

/// What an entry of the folder contributes to the track list.
pub open spec fn track_of(entry: Option<Seq<char>>) -> Option<Seq<char>> {
    match entry {
        Some(name) => if is_track_name(name) {
            Some(name)
        } else {
            None
        },
        None => None,
    }
}

/// The tracks among the entries of a folder, in the order of the entries.
pub open spec fn tracks_of(entries: Seq<Option<Seq<char>>>) -> Seq<Seq<char>> {
    entries.filter_map(|entry: Option<Seq<char>>| track_of(entry))
}

/// Finds the extension of a file name. `name` is the entry's own name, without
/// the folders that lead to it.
pub fn extension(name: &str) -> (ext: Option<String>)
    ensures
        match ext {
            Some(found) => has_extension(name@, found@),
            None => forall|e: Seq<char>| !has_extension(name@, e),
        },
        ext is None ==> lacks_extension(name@),
{
    let count: usize = name.unicode_len();
    let mut at: usize = count;
    while at > 0
        invariant
            at <= count,
            count == name@.len(),
            forall|j: int| at <= j < count ==> name@[j] != '.',
        decreases at,
    {
        let before: usize = at - 1;
        if name.get_char(before) == '.' {
            if before == 0 || is_parent(name) {
                assert forall|e: Seq<char>| !has_extension(name@, e) by {
                    if has_extension(name@, e) {
                        assert(name@.skip(count - e.len())[before - (count - e.len())] == '.');
                    }
                }
                return None;
            }
            let ext: &str = name.substring_char(at, count);
            return Some(ext.to_owned());
        }
        at = before;
    }
    None
}

/// The name is that of the parent folder.
fn is_parent(name: &str) -> (yes: bool)
    ensures
        yes == (name@ == ".."@),
{
    name.to_owned() == "..".to_owned()
}

/// Whether an extension in lower case is that of a format that can be played.
pub fn is_audio_extension(lowered: &String) -> (yes: bool)
    ensures
        yes == is_audio(lowered@),
{
    *lowered == "mp3".to_owned() || *lowered == "wav".to_owned() || *lowered == "flac".to_owned()
}

/// A name has one extension at most.
proof fn lemma_one_extension(name: Seq<char>, a: Seq<char>, b: Seq<char>)
    requires
        has_extension(name, a),
        has_extension(name, b),
    ensures
        a == b,
{
    if a.len() < b.len() {
        assert(b[b.len() - a.len() - 1] == '.');
    } else if b.len() < a.len() {
        assert(a[a.len() - b.len() - 1] == '.');
    }
}

/// Whether a file is a track, by its name.
pub fn is_track(name: &str) -> (yes: bool)
    ensures
        yes == is_track_name(name@),
{
    match extension(name) {
        Some(ext) => {
            let lowered: String = ext.as_str().to_lowercase();
            let yes: bool = is_audio_extension(&lowered);
            proof {
                if is_track_name(name@) {
                    let other = choose|e: Seq<char>| #[trigger]
                        has_extension(name@, e) && is_audio(lower_case(e));
                    lemma_one_extension(name@, ext@, other);
                }
            }
            yes
        },
        None => false,
    }
}

/// The track list of a folder. `listing` is what reading the folder gave:
/// nothing where it could not be read, and for each entry its name, or nothing
/// where the entry could not be read or its name is not text.
pub fn get_tracks(listing: &Option<Vec<Option<String>>>) -> (tracks: Vec<String>)
    ensures
        tracks.deep_view() == match listing {
            Some(entries) => tracks_of(entries.deep_view()),
            None => Seq::empty(),
        },
{
    let mut tracks: Vec<String> = Vec::new();
    if let Some(entries) = listing {
        let ghost seen = entries.deep_view();
        let ghost pick = |entry: Option<Seq<char>>| track_of(entry);
        assert(seen.take(0) == Seq::<Option<Seq<char>>>::empty());
        let mut i: usize = 0;
        while i < entries.len()
            invariant
                i <= entries.len(),
                seen == entries.deep_view(),
                pick == |entry: Option<Seq<char>>| track_of(entry),
                tracks.deep_view() == seen.take(i as int).filter_map(pick),
            decreases entries.len() - i,
        {
            let ghost before = tracks.deep_view();
            proof {
                seen.lemma_filter_map_take_succ(pick, i as int);
                assert(seen[i as int] == entries@[i as int].deep_view());
            }
            if let Some(name) = &entries[i] {
                if is_track(name.as_str()) {
                    tracks.push(name.clone());
                    assert(tracks.deep_view() == before.push(name@));
                }
            }
            i = i + 1;
        }
        assert(seen.take(seen.len() as int) == seen);
    }
    tracks
}

/// A stem that is not empty, a dot and a text without dots make a name with
/// that text for its extension, and with no other.
proof fn lemma_composed_name(stem: Seq<char>, ext: Seq<char>)
    requires
        stem.len() > 0,
        !ext.contains('.'),
        stem + "."@ + ext != ".."@,
    ensures
        has_extension(stem + "."@ + ext, ext),
        is_track_name(stem + "."@ + ext) == is_audio(lower_case(ext)),
{
    reveal_strlit(".");
    let name = stem + "."@ + ext;
    assert(name.skip(name.len() - ext.len()) == ext);
    assert(has_extension(name, ext));
    if is_track_name(name) {
        let other = choose|e: Seq<char>| #[trigger]
            has_extension(name, e) && is_audio(lower_case(e));
        lemma_one_extension(name, ext, other);
    }
}

/// A file whose name has no dot behind its first character is not a track.
pub proof fn law_track_needs_an_extension(name: Seq<char>)
    requires
        forall|i: int| 1 <= i < name.len() ==> name[i] != '.',
    ensures
        !is_track_name(name),
{
    if is_track_name(name) {
        let ext = choose|e: Seq<char>| #[trigger]
            has_extension(name, e) && is_audio(lower_case(e));
        assert(name[name.len() - ext.len() - 1] == '.');
    }
}

/// Any stem makes a track with the extension of a playable format.
pub proof fn law_playable_formats_are_tracks(stem: Seq<char>)
    requires
        stem.len() > 0,
    ensures
        is_track_name(stem + "."@ + "mp3"@),
        is_track_name(stem + "."@ + "wav"@),
        is_track_name(stem + "."@ + "flac"@),
{
    reveal_strlit(".");
    reveal_strlit("..");
    reveal_strlit("mp3");
    reveal_strlit("wav");
    reveal_strlit("flac");
    assert("mp3"@.map_values(|c: char| ascii_lower(c)) == "mp3"@);
    assert("wav"@.map_values(|c: char| ascii_lower(c)) == "wav"@);
    assert("flac"@.map_values(|c: char| ascii_lower(c)) == "flac"@);
    assert((stem + "."@ + "mp3"@).len() > 2);
    assert((stem + "."@ + "wav"@).len() > 2);
    assert((stem + "."@ + "flac"@).len() > 2);
    lemma_composed_name(stem, "mp3"@);
    lemma_composed_name(stem, "wav"@);
    lemma_composed_name(stem, "flac"@);
}

/// The letter case of an ASCII extension does not matter.
pub proof fn law_letter_case_does_not_matter(stem: Seq<char>, a: Seq<char>, b: Seq<char>)
    requires
        stem.len() > 0,
        is_ascii_text(a),
        is_ascii_text(b),
        lower_case(a) == lower_case(b),
        !a.contains('.'),
    ensures
        is_track_name(stem + "."@ + a) == is_track_name(stem + "."@ + b),
{
    reveal_strlit(".");
    reveal_strlit("..");
    assert(lower_case(a).len() == a.len());
    assert(lower_case(b).len() == b.len());
    assert(!b.contains('.')) by {
        if b.contains('.') {
            let k = b.index_of('.');
            assert(lower_case(b)[k] == ascii_lower(b[k]));
            assert(lower_case(a)[k] == ascii_lower(a[k]));
            assert(a[k] == '.');
        }
    }
    if a.len() == 0 {
        assert(a == b);
    } else {
        assert((stem + "."@ + a).len() > 2);
        assert((stem + "."@ + b).len() > 2);
        lemma_composed_name(stem, a);
        lemma_composed_name(stem, b);
    }
}

/// The track list holds the names of the entries that are tracks, and no others.
pub proof fn law_track_list_is_the_tracks(entries: Seq<Option<Seq<char>>>, name: Seq<char>)
    ensures
        tracks_of(entries).contains(name) <==> entries.contains(Some(name)) && is_track_name(name),
    decreases entries.len(),
{
    let pick = |entry: Option<Seq<char>>| track_of(entry);
    if tracks_of(entries).contains(name) {
        entries.lemma_filter_map_contains(pick, name);
        let entry = choose|entry: Option<Seq<char>>| #[trigger]
            entries.contains(entry) && pick(entry) == Some(name);
        assert(entry == Some(name));
    }
    if entries.contains(Some(name)) && is_track_name(name) {
        let rest = entries.drop_last();
        if entries.last() == Some(name) {
            assert(tracks_of(entries).last() == name);
        } else {
            let k = entries.index_of(Some(name));
            assert(rest[k] == Some(name));
            law_track_list_is_the_tracks(rest, name);
            let j = tracks_of(rest).index_of(name);
            assert(tracks_of(entries)[j] == name);
        }
    }
}

/// Entries found later are listed later.
pub proof fn law_track_list_keeps_the_order(
    first: Seq<Option<Seq<char>>>,
    later: Seq<Option<Seq<char>>>,
)
    ensures
        tracks_of(first + later) == tracks_of(first) + tracks_of(later),
    decreases later.len(),
{
    let pick = |entry: Option<Seq<char>>| track_of(entry);
    if later.len() == 0 {
        assert(first + later == first);
    } else {
        assert((first + later).drop_last() == first + later.drop_last());
        law_track_list_keeps_the_order(first, later.drop_last());
    }
}

/// The text is one of the three extensions of playable formats, in any mixture of
/// upper and lower case.
pub open spec fn spells_a_format(ext: Seq<char>) -> bool {
    ||| ext.len() == 3 && (ext[0] == 'm' || ext[0] == 'M') && (ext[1] == 'p' || ext[1] == 'P')
        && ext[2] == '3'
    ||| ext.len() == 3 && (ext[0] == 'w' || ext[0] == 'W') && (ext[1] == 'a' || ext[1] == 'A') && (
    ext[2] == 'v' || ext[2] == 'V')
    ||| ext.len() == 4 && (ext[0] == 'f' || ext[0] == 'F') && (ext[1] == 'l' || ext[1] == 'L') && (
    ext[2] == 'a' || ext[2] == 'A') && (ext[3] == 'c' || ext[3] == 'C')
}

/// In lower case, an ASCII text is a playable format's extension if and only if it
/// spells one.
proof fn lemma_spelling(ext: Seq<char>)
    requires
        is_ascii_text(ext),
    ensures
        is_audio(lower_case(ext)) <==> spells_a_format(ext),
{
    reveal_strlit("mp3");
    reveal_strlit("wav");
    reveal_strlit("flac");
    let low = lower_case(ext);
    assert(low.len() == ext.len());
    assert(forall|i: int| 0 <= i < ext.len() ==> #[trigger] low[i] == ascii_lower(ext[i]));
    if spells_a_format(ext) {
        assert(low =~= "mp3"@ || low =~= "wav"@ || low =~= "flac"@);
    }
    if is_audio(low) {
        assert(low[0] == ascii_lower(ext[0]));
        assert(low[1] == ascii_lower(ext[1]));
        assert(low[2] == ascii_lower(ext[2]));
        if low.len() == 4 {
            assert(low[3] == ascii_lower(ext[3]));
        }
    }
}

/// A name that ends in a dot and an ASCII text without dots, with something before the
/// dot, is a track's if and only if that text is mp3, wav or flac in any letter case.
pub proof fn law_tracks_are_mp3_wav_or_flac(stem: Seq<char>, ext: Seq<char>, name: &str, yes: bool)
    requires
        name@ == stem + seq!['.'] + ext,
        stem.len() > 0,
        forall|i: int| 0 <= i < ext.len() ==> #[trigger] ext[i] != '.' && (ext[i] as int) < 128,
        call_ensures(is_track, (name,), yes),
    ensures
        yes <==> spells_a_format(ext),
{
    law_track_names_end_in_mp3_wav_or_flac(stem, ext);
}

/// Of the names in a folder that end in a dot and an ASCII text without dots, with something
/// before the dot, a track list takes those where the text is mp3, wav or flac in any letter
/// case, and no others.
pub proof fn law_track_names_end_in_mp3_wav_or_flac(stem: Seq<char>, ext: Seq<char>)
    requires
        stem.len() > 0,
        forall|i: int| 0 <= i < ext.len() ==> #[trigger] ext[i] != '.' && (ext[i] as int) < 128,
    ensures
        is_track_name(stem + seq!['.'] + ext) <==> spells_a_format(ext),
{
    reveal_strlit(".");
    reveal_strlit("..");
    assert("."@ =~= seq!['.']);
    assert(!ext.contains('.'));
    let name = stem + seq!['.'] + ext;
    if name == ".."@ {
        assert(name.len() == 2);
        assert(ext.len() == 0);
    } else {
        lemma_composed_name(stem, ext);
        lemma_spelling(ext);
    }
}

/// Where the text behind the last dot is not all ASCII, its lower-case form by the
/// standard library has to be one of the three.
pub proof fn law_other_extensions_are_lowered(stem: Seq<char>, ext: Seq<char>, name: &str, yes: bool)
    requires
        name@ == stem + seq!['.'] + ext,
        stem.len() > 0,
        !ext.contains('.'),
        exists|i: int| 0 <= i < ext.len() && (#[trigger] ext[i] as int) >= 128,
        call_ensures(is_track, (name,), yes),
    ensures
        yes <==> lowercase_of(ext) == seq!['m', 'p', '3'] || lowercase_of(ext) == seq![
            'w',
            'a',
            'v',
        ] || lowercase_of(ext) == seq!['f', 'l', 'a', 'c'],
{
    reveal_strlit(".");
    reveal_strlit("..");
    reveal_strlit("mp3");
    reveal_strlit("wav");
    reveal_strlit("flac");
    assert("."@ =~= seq!['.']);
    assert("mp3"@ =~= seq!['m', 'p', '3']);
    assert("wav"@ =~= seq!['w', 'a', 'v']);
    assert("flac"@ =~= seq!['f', 'l', 'a', 'c']);
    if name@ == ".."@ {
        let i = choose|i: int| 0 <= i < ext.len() && (#[trigger] ext[i] as int) >= 128;
        assert(name@[name@.len() - ext.len() + i] == ext[i]);
    } else {
        lemma_composed_name(stem, ext);
    }
}

/// A file whose name has no dot behind its first character is not taken for a track.
pub proof fn law_no_track_without_a_dot(name: &str, yes: bool)
    requires
        forall|i: int| 1 <= i < name@.len() ==> name@[i] != '.',
        call_ensures(is_track, (name,), yes),
    ensures
        !yes,
{
    law_track_needs_an_extension(name@);
}

/// Three texts are extensions of playable formats, and no other is.
pub proof fn law_three_formats(lowered: String, yes: bool)
    requires
        call_ensures(is_audio_extension, (&lowered,), yes),
    ensures
        yes <==> lowered@ == seq!['m', 'p', '3'] || lowered@ == seq!['w', 'a', 'v'] || lowered@
            == seq!['f', 'l', 'a', 'c'],
{
    reveal_strlit("mp3");
    reveal_strlit("wav");
    reveal_strlit("flac");
    assert("mp3"@ =~= seq!['m', 'p', '3']);
    assert("wav"@ =~= seq!['w', 'a', 'v']);
    assert("flac"@ =~= seq!['f', 'l', 'a', 'c']);
}

/// The extension is what stands behind the last dot, where something stands before it
/// and the name is not that of the parent folder.
pub proof fn law_extension_is_behind_the_last_dot(
    stem: Seq<char>,
    ext: Seq<char>,
    name: &str,
    found: Option<String>,
)
    requires
        name@ == stem + seq!['.'] + ext,
        stem.len() > 0,
        !ext.contains('.'),
        name@ != seq!['.', '.'],
        call_ensures(extension, (name,), found),
    ensures
        found is Some,
        found->0@ == ext,
{
    reveal_strlit(".");
    reveal_strlit("..");
    assert("."@ =~= seq!['.']);
    assert(".."@ =~= seq!['.', '.']);
    lemma_composed_name(stem, ext);
    assert(stem + "."@ + ext =~= name@);
    assert(has_extension(name@, ext));
    match found {
        Some(other) => {
            lemma_one_extension(name@, ext, other@);
        },
        None => {
            assert(lacks_extension(name@));
        },
    }
}

/// A name without a dot behind its first character has no extension, nor has that of
/// the parent folder.
pub proof fn law_some_names_have_no_extension(name: &str, found: Option<String>)
    requires
        name@ == seq!['.', '.'] || forall|i: int| 1 <= i < name@.len() ==> name@[i] != '.',
        call_ensures(extension, (name,), found),
    ensures
        found is None,
{
    reveal_strlit("..");
    assert(".."@ =~= seq!['.', '.']);
    if found is Some {
        assert(name@[name@.len() - found->0@.len() - 1] == '.');
    }
}

/// A folder that cannot be read has no tracks.
pub proof fn law_unread_folder_is_empty(tracks: Vec<String>)
    requires
        call_ensures(get_tracks, (&None,), tracks),
    ensures
        tracks@.len() == 0,
{
    assert(tracks.deep_view().len() == 0);
}

/// A folder of one entry has that entry for its track list where it is a track's, and
/// an empty list otherwise; an entry without a readable name is no track.
pub proof fn law_one_entry_is_listed_if_a_track(entries: Vec<Option<String>>, tracks: Vec<String>)
    requires
        entries@.len() == 1,
        call_ensures(get_tracks, (&Some(entries),), tracks),
    ensures
        match entries@[0] {
            Some(name) => if is_track_name(name@) {
                tracks@.len() == 1 && tracks@[0]@ == name@
            } else {
                tracks@.len() == 0
            },
            None => tracks@.len() == 0,
        },
{
    let seen = entries.deep_view();
    let pick = |entry: Option<Seq<char>>| track_of(entry);
    assert(seen.len() == 1);
    assert(seen[0] == entries@[0].deep_view());
    assert(seen.drop_last() =~= Seq::<Option<Seq<char>>>::empty());
    reveal_with_fuel(Seq::filter_map, 2);
    assert(tracks.deep_view().len() == tracks@.len());
    if tracks@.len() > 0 {
        assert(tracks.deep_view()[0] == tracks@[0]@);
    }
}

/// The track list of a folder is that of its first entries and then that of the others:
/// no track is lost, moved or listed twice.
pub proof fn law_listing_goes_entry_by_entry(
    first: Vec<Option<String>>,
    others: Vec<Option<String>>,
    all: Vec<Option<String>>,
    first_tracks: Vec<String>,
    other_tracks: Vec<String>,
    tracks: Vec<String>,
)
    requires
        all.deep_view() == first.deep_view() + others.deep_view(),
        call_ensures(get_tracks, (&Some(first),), first_tracks),
        call_ensures(get_tracks, (&Some(others),), other_tracks),
        call_ensures(get_tracks, (&Some(all),), tracks),
    ensures
        tracks.deep_view() == first_tracks.deep_view() + other_tracks.deep_view(),
{
    law_track_list_keeps_the_order(first.deep_view(), others.deep_view());
}

} // verus!
