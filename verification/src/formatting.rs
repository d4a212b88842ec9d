//! Expansion of the track-format tokens `%saved`, `%bpm` and `%sorted`.

use vstd::prelude::*;

use crate::bpm_scanner::BpmScanner;
#[allow(unused_imports)]
use crate::bpm_scanner::ScannerView;
#[allow(unused_imports)]
use crate::filters::{lemma_filter_picks, picked_from, picks};
use crate::model::{Playable, Playlist};
#[allow(unused_imports)]
use crate::model::{playlists_of, EpisodeView, PlayableView, PlaylistView, Track, TrackView};
use crate::sort::{SortState, SortStatus};
#[allow(unused_imports)]
use crate::sort::{law_status_lists_every_holding_playlist, status_of, SortStatusView};
use crate::text::{join_commas, replace_matches};
#[allow(unused_imports)]
use crate::text::{ascii_lower, comma_joined, lemma_replace_absent, occurs_in, replace_all, text_of};

verus! {

/// The known BPM of a playable; an episode has none.
pub open spec fn bpm_of(scanner: ScannerView, playable: PlayableView) -> Option<u32> {
    match playable {
        PlayableView::Track(track) => match track.id {
            Some(id) => if scanner.bpm.contains_key(id) {
                Some(scanner.bpm[id])
            } else {
                None
            },
            None => None,
        },
        PlayableView::Episode(_) => None,
    }
}

/// What `%bpm` stands for, given the text of the BPM.
pub open spec fn bpm_field(playable: PlayableView, bpm_text: Option<Seq<char>>) -> Seq<char> {
    match (playable, bpm_text) {
        (PlayableView::Track(_), Some(text)) => text,
        _ => Seq::empty(),
    }
}

/// What `%sorted` stands for: the keys of the bound playlists that hold the track.
pub open spec fn sorted_field(
    bound: Map<Seq<char>, Seq<char>>,
    playlists: Seq<PlaylistView>,
    playable: PlayableView,
) -> Seq<char> {
    match playable {
        PlayableView::Track(track) => match track.id {
            Some(id) => match status_of(bound, playlists, id) {
                SortStatusView::Sorted(keys) => comma_joined(keys),
                _ => Seq::empty(),
            },
            None => Seq::empty(),
        },
        PlayableView::Episode(_) => Seq::empty(),
    }
}

/// A format in which the three tokens have been replaced, one after the other.
pub open spec fn expanded(s: Seq<char>, bpm: Seq<char>, sorted: Seq<char>) -> Seq<char> {
    replace_all(replace_all(replace_all(s, "%saved"@, Seq::empty()), "%bpm"@, bpm), "%sorted"@, sorted)
}

/// The known BPM of a playable, as the bits of an IEEE 754 single-precision number.
pub fn current_bpm(playable: &Playable, scanner: &BpmScanner) -> (r: Option<u32>)
    ensures
        r == bpm_of(scanner@, playable@),
{
    match playable {
        Playable::Track(track) => match &track.id {
            Some(id) => scanner.bpm_for(id),
            None => None,
        },
        Playable::Episode(_) => None,
    }
}

/// Expand the tokens `%saved`, `%bpm` and `%sorted` in an already otherwise expanded format.
///
/// - `%saved`: whether a track is liked is not tracked any more; the token is kept so that existing
///   formats do not break, and renders empty.
/// - `%bpm`: the track's BPM (see [`current_bpm`]) rounded to a whole number, given as
///   `bpm_text`, or empty.
/// - `%sorted`: the keys of the key-bound playlists the track is filed into, comma-joined, or
///   empty.
pub fn expand_fork_tokens(
    s: String,
    playable: &Playable,
    bpm_text: &Option<String>,
    sort: &SortState,
    playlists: &Vec<Playlist>,
) -> (r: String)
    ensures
        r@ == expanded(
            s@,
            bpm_field(playable@, text_of(*bpm_text)),
            sorted_field(sort@.bound, playlists_of(playlists@), playable@),
        ),
{
    proof {
        reveal_strlit("%saved");
        reveal_strlit("%bpm");
        reveal_strlit("%sorted");
        reveal_strlit("");
    }
    let bpm = match (playable, bpm_text) {
        (Playable::Track(_), Some(text)) => text.clone(),
        _ => String::new(),
    };
    let sorted = match playable {
        Playable::Track(track) => match &track.id {
            Some(id) => match sort.sort_status(playlists, id) {
                SortStatus::Sorted(keys) => join_commas(&keys),
                _ => String::new(),
            },
            None => String::new(),
        },
        Playable::Episode(_) => String::new(),
    };
    assert(""@ =~= Seq::<char>::empty());
    let without_saved = replace_matches(s.as_str(), "%saved", "");
    let with_bpm = replace_matches(without_saved.as_str(), "%bpm", bpm.as_str());
    replace_matches(with_bpm.as_str(), "%sorted", sorted.as_str())
}

/// A format without any of the tokens is left as it is.
pub proof fn law_format_without_tokens_is_kept(s: Seq<char>, bpm: Seq<char>, sorted: Seq<char>)
    requires
        !occurs_in(s, "%saved"@),
        !occurs_in(s, "%bpm"@),
        !occurs_in(s, "%sorted"@),
    ensures
        expanded(s, bpm, sorted) == s,
{
    reveal_strlit("%saved");
    reveal_strlit("%bpm");
    reveal_strlit("%sorted");
    lemma_replace_absent(s, "%saved"@, Seq::empty());
    lemma_replace_absent(s, "%bpm"@, bpm);
    lemma_replace_absent(s, "%sorted"@, sorted);
}

/// An episode renders all three tokens empty, whatever is known of tracks.
pub proof fn law_episode_fields_are_empty(
    playable: PlayableView,
    bpm_text: Option<Seq<char>>,
    bound: Map<Seq<char>, Seq<char>>,
    playlists: Seq<PlaylistView>,
)
    requires
        playable is Episode,
    ensures
        bpm_field(playable, bpm_text) == Seq::<char>::empty(),
        sorted_field(bound, playlists, playable) == Seq::<char>::empty(),
{
}

/// A part of a format: plain text or one of the tokens.
pub enum FormatPart {
    Text(Seq<char>),
    Saved,
    Bpm,
    Sorted,
}

/// The parts one after the other, with these texts for the tokens.
pub open spec fn spelled(parts: Seq<FormatPart>, saved: Seq<char>, bpm: Seq<char>, sorted: Seq<char>) -> Seq<char>
    decreases parts.len(),
{
    if parts.len() == 0 {
        Seq::empty()
    } else {
        let rest = spelled(parts.skip(1), saved, bpm, sorted);
        match parts[0] {
            FormatPart::Text(text) => text + rest,
            FormatPart::Saved => saved + rest,
            FormatPart::Bpm => bpm + rest,
            FormatPart::Sorted => sorted + rest,
        }
    }
}

/// Whether a text has no percent sign.
pub open spec fn is_plain(s: Seq<char>) -> bool {
    forall|i: int| 0 <= i < s.len() ==> #[trigger] s[i] != '%'
}

/// Expanding a format, whatever its plain texts and tokens are and in whatever order they come, gives the
/// plain texts as they are, nothing for `%saved`, the BPM for `%bpm` and the keys for `%sorted`, every time
/// the token occurs.
pub proof fn law_every_token_is_expanded(parts: Seq<FormatPart>, bpm: Seq<char>, sorted: Seq<char>)
    requires
        forall|i: int| 0 <= i < parts.len() ==> (#[trigger] parts[i] matches FormatPart::Text(text) ==> is_plain(text)),
        is_plain(bpm),
    ensures
        expanded(spelled(parts, "%saved"@, "%bpm"@, "%sorted"@), bpm, sorted) == spelled(
            parts,
            Seq::empty(),
            bpm,
            sorted,
        ),
{
    reveal_strlit("%saved");
    reveal_strlit("%bpm");
    reveal_strlit("%sorted");
    let none = Seq::<char>::empty();
    lemma_apart("%bpm"@, "%saved"@, 1);
    lemma_apart("%sorted"@, "%saved"@, 2);
    lemma_apart("%sorted"@, "%bpm"@, 1);
    lemma_replace_in_parts(parts, "%saved"@, "%bpm"@, "%sorted"@, "%saved"@, none);
    lemma_replace_in_parts(parts, none, "%bpm"@, "%sorted"@, "%bpm"@, bpm);
    lemma_replace_in_parts(parts, none, bpm, "%sorted"@, "%sorted"@, sorted);
}

/// Whether a text is a token that can be told from the other at once: it starts with the only percent sign
/// in it, and the two differ at a place that both have.
spec fn stands_apart(piece: Seq<char>, from: Seq<char>) -> bool {
    &&& piece.len() > 0
    &&& is_plain(piece.skip(1))
    &&& exists|k: int| 0 <= k < piece.len() && k < from.len() && #[trigger] piece[k] != from[k]
}

proof fn lemma_apart(piece: Seq<char>, from: Seq<char>, k: int)
    requires
        0 < piece.len(),
        is_plain(piece.skip(1)),
        0 <= k < piece.len(),
        k < from.len(),
        piece[k] != from[k],
    ensures
        stands_apart(piece, from),
{
    assert(piece[k] != from[k]);
}

/// How a replacement treats a piece at the front: plain text and other tokens stay, the token is replaced.
proof fn lemma_replace_piece(piece: Seq<char>, rest: Seq<char>, from: Seq<char>, to: Seq<char>)
    requires
        from.len() > 0,
        from[0] == '%',
        is_plain(piece) || piece == from || stands_apart(piece, from),
    ensures
        replace_all(piece + rest, from, to) == (if piece == from {
            to
        } else {
            piece
        }) + replace_all(rest, from, to),
    decreases piece.len(),
{
    let s = piece + rest;
    if piece == from {
        assert(s.take(from.len() as int) =~= from);
        assert(s.skip(from.len() as int) =~= rest);
    } else if piece.len() == 0 {
        assert(s =~= rest);
        assert(piece + replace_all(rest, from, to) =~= replace_all(rest, from, to));
    } else {
        let tail = piece.skip(1);
        assert(is_plain(tail)) by {
            if is_plain(piece) {
                assert forall|i: int| 0 <= i < tail.len() implies #[trigger] tail[i] != '%' by {
                    assert(tail[i] == piece[i + 1]);
                }
            }
        }
        assert(tail != from) by {
            if tail == from {
                assert(tail[0] == '%');
            }
        }
        lemma_replace_piece(tail, rest, from, to);
        assert(s.skip(1) =~= tail + rest);
        assert(s[0] == piece[0]);
        if s.len() >= from.len() {
            assert(s.take(from.len() as int) != from) by {
                let start = s.take(from.len() as int);
                if is_plain(piece) {
                    assert(start[0] == piece[0]);
                } else {
                    let k = choose|k: int| 0 <= k < piece.len() && k < from.len() && #[trigger] piece[k] != from[k];
                    assert(start[k] == piece[k]);
                }
            }
        } else {
            assert((tail + rest).len() < from.len());
            assert(seq![s[0]] + (tail + rest) =~= s);
            assert(rest.len() < from.len());
        }
        assert(seq![s[0]] + (tail + replace_all(rest, from, to)) =~= piece + replace_all(rest, from, to));
    }
}

/// A replacement goes through the parts of a format one by one.
proof fn lemma_replace_in_parts(
    parts: Seq<FormatPart>,
    saved: Seq<char>,
    bpm: Seq<char>,
    sorted: Seq<char>,
    from: Seq<char>,
    to: Seq<char>,
)
    requires
        from.len() > 0,
        from[0] == '%',
        forall|i: int| 0 <= i < parts.len() ==> (#[trigger] parts[i] matches FormatPart::Text(text) ==> is_plain(text)),
        is_plain(saved) || saved == from || stands_apart(saved, from),
        is_plain(bpm) || bpm == from || stands_apart(bpm, from),
        is_plain(sorted) || sorted == from || stands_apart(sorted, from),
    ensures
        replace_all(spelled(parts, saved, bpm, sorted), from, to) == spelled(
            parts,
            if saved == from {
                to
            } else {
                saved
            },
            if bpm == from {
                to
            } else {
                bpm
            },
            if sorted == from {
                to
            } else {
                sorted
            },
        ),
    decreases parts.len(),
{
    if parts.len() > 0 {
        let tail = parts.skip(1);
        assert forall|i: int| 0 <= i < tail.len() implies (#[trigger] tail[i] matches FormatPart::Text(text)
            ==> is_plain(text)) by {
            assert(tail[i] == parts[i + 1]);
        }
        lemma_replace_in_parts(tail, saved, bpm, sorted, from, to);
        let rest = spelled(tail, saved, bpm, sorted);
        match parts[0] {
            FormatPart::Text(text) => {
                assert(parts[0] == FormatPart::Text(text));
                assert(is_plain(text));
                assert(text != from) by {
                    if text == from {
                        assert(text[0] == '%');
                    }
                }
                lemma_replace_piece(text, rest, from, to);
            },
            FormatPart::Saved => {
                lemma_replace_piece(saved, rest, from, to);
            },
            FormatPart::Bpm => {
                lemma_replace_piece(bpm, rest, from, to);
            },
            FormatPart::Sorted => {
                lemma_replace_piece(sorted, rest, from, to);
            },
        }
    }
}

/// The BPM of a track is the one that the scanner knows under the track's id, and there is none for a track
/// without an id or an episode; `%bpm` stands for its text.
pub proof fn law_bpm_belongs_to_the_id(
    scanner: ScannerView,
    track: TrackView,
    episode: EpisodeView,
    bpm: u32,
    text: Seq<char>,
)
    ensures
        bpm_of(scanner, PlayableView::Track(track)) == Some(bpm) <==> track.id is Some && scanner.bpm.contains_pair(
            track.id->0,
            bpm,
        ),
        bpm_of(scanner, PlayableView::Episode(episode)) is None,
        bpm_field(PlayableView::Track(track), Some(text)) == text,
        bpm_field(PlayableView::Track(track), None).len() == 0,
{
}

/// `%sorted` stands for the keys, joined by commas, of the playlists whose name has a key and that hold the
/// track, in the order of the playlists; without any such playlist, or without an id, for nothing.
pub proof fn law_sorted_field_joins_the_keys(
    bound: Map<Seq<char>, Seq<char>>,
    playlists: Seq<PlaylistView>,
    track: TrackView,
)
    ensures
        track.id is None ==> sorted_field(bound, playlists, PlayableView::Track(track)).len() == 0,
        track.id is Some ==> ({
            let holds = |p: PlaylistView| bound.contains_key(ascii_lower(p.name)) && p.has_track(track.id->0);
            exists|held: Seq<PlaylistView>| #[trigger]
                picked_from(playlists, holds, held) && sorted_field(bound, playlists, PlayableView::Track(track))
                    == comma_joined(held.map_values(|p: PlaylistView| bound[ascii_lower(p.name)]))
        }),
{
    if track.id is Some {
        let id = track.id->0;
        let holds = |p: PlaylistView| bound.contains_key(ascii_lower(p.name)) && p.has_track(track.id->0);
        let key = |p: PlaylistView| bound[ascii_lower(p.name)];
        law_status_lists_every_holding_playlist(bound, playlists, id);
        let at = lemma_filter_picks(playlists, holds);
        let none = playlists.filter(holds);
        match status_of(bound, playlists, id) {
            SortStatusView::Sorted(keys) => {
                let other = |p: PlaylistView| bound.contains_key(ascii_lower(p.name)) && p.has_track(id);
                assert(other =~= holds);
                let (places, held) = choose|places: Seq<int>, held: Seq<PlaylistView>| #[trigger]
                    picks(playlists, places, other, held) && keys == held.map_values(key);
                assert(picks(playlists, places, holds, held));
                assert(picked_from(playlists, holds, held));
            },
            _ => {
                assert(none.len() == 0) by {
                    if at.len() > 0 {
                        assert(holds(playlists[at[0]]));
                    }
                }
                assert(none.map_values(key) =~= Seq::<Seq<char>>::empty());
                assert(picked_from(playlists, holds, none));
            },
        }
    }
}

/// [`expand_fork_tokens`] writes, for a track, nothing for `%saved`, the given BPM text for `%bpm` and, for `%sorted`,
/// the keys joined by commas of the playlists whose name has a key and that hold the track, in their order; the
/// plain texts of the format stay as they are.
pub proof fn law_expand_fork_tokens(
    s: String,
    track: Track,
    bpm_text: &Option<String>,
    sort: &SortState,
    playlists: &Vec<Playlist>,
    r: String,
    parts: Seq<FormatPart>,
)
    requires
        call_ensures(expand_fork_tokens, (s, &Playable::Track(track), bpm_text, sort, playlists), r),
        s@ == spelled(parts, "%saved"@, "%bpm"@, "%sorted"@),
        forall|i: int| 0 <= i < parts.len() ==> (#[trigger] parts[i] matches FormatPart::Text(text) ==> is_plain(text)),
        bpm_text is Some ==> is_plain(bpm_text->0@),
        track.id is Some,
    ensures
        ({
            let all = playlists_of(playlists@);
            let holds = |p: PlaylistView| sort@.bound.contains_key(ascii_lower(p.name)) && p.has_track(track.id->0@);
            let bpm = if bpm_text is Some {
                bpm_text->0@
            } else {
                Seq::<char>::empty()
            };
            exists|held: Seq<PlaylistView>| #[trigger]
                picked_from(all, holds, held) && r@ == spelled(
                    parts,
                    Seq::empty(),
                    bpm,
                    comma_joined(held.map_values(|p: PlaylistView| sort@.bound[ascii_lower(p.name)])),
                )
        }),
{
    let all = playlists_of(playlists@);
    let item = PlayableView::Track(track@);
    let bpm = bpm_field(item, text_of(*bpm_text));
    let sorted = sorted_field(sort@.bound, all, item);
    law_every_token_is_expanded(parts, bpm, sorted);
    law_sorted_field_joins_the_keys(sort@.bound, all, track@);
    let mine = |p: PlaylistView| sort@.bound.contains_key(ascii_lower(p.name)) && p.has_track(track.id->0@);
    let holds = |p: PlaylistView| sort@.bound.contains_key(ascii_lower(p.name)) && p.has_track(track@.id->0);
    assert(mine =~= holds);
    let held = choose|held: Seq<PlaylistView>| #[trigger]
        picked_from(all, holds, held) && sorted == comma_joined(
            held.map_values(|p: PlaylistView| sort@.bound[ascii_lower(p.name)]),
        );
    assert(picked_from(all, mine, held));
}

/// [`current_bpm`] is what the scanner knows under the track's id; a track without one and an episode have none.
pub proof fn law_current_bpm(playable: &Playable, scanner: &BpmScanner, r: Option<u32>, bpm: u32)
    requires
        call_ensures(current_bpm, (playable, scanner), r),
    ensures
        r == Some(bpm) <==> playable is Track && playable->Track_0.id is Some && scanner@.bpm.contains_pair(
            playable->Track_0.id->0@,
            bpm,
        ),
{
}

} // verus!
