//! The "Tracks" library tab: the user's Liked Songs.
//!
//! The tab also drives sorting Liked Songs into playlists with one key per playlist. While the sort
//! filter is on, tracks already filed into a key-bound playlist are hidden. The view keeps a
//! filtered copy of the list and rebuilds it whenever the list changes.
//!
//! Selection, scrolling and drawing belong to the list widget around this view; which row is
//! selected and which is the last visible one is handed in.

use vstd::hash_set::StringHashSet;
use vstd::prelude::*;
use vstd::string::StringExecFns;

use crate::bpm_scanner::BpmScanner;
use crate::command::Command;
#[allow(unused_imports)]
use crate::filters::{lemma_filter_all, lemma_filter_none, lemma_filter_picks, lemma_filter_within, picked_from};
use crate::liked_songs::LikedSongs;
#[allow(unused_imports)]
use crate::liked_songs::LikedView;
#[allow(unused_imports)]
use crate::model::{
    holds_id, law_playlist_holds_what_is_in_it, playables_of, playlists_of, tracks_of, PlayableView, PlaylistView,
    TrackView,
};
use crate::model::{Playable, Playlist, Track};
use crate::sort::SortState;
#[allow(unused_imports)]
use crate::sort::{
    carried_out, delete_plan, distinct_lists, filed_keys, first_with_id, ids_of, is_bound, law_filing_then_unfiling,
    law_mutation_carried_out, law_removal_keeps_the_other_items, law_removal_reaches_every_named_playlist,
    law_removal_takes_every_copy, law_status_names_every_key, mutation_step, no_local_copies, occurrences_of, status_of, swept, with_track, without_track,
    DeletePlanView, MutationPhase, MutationStepView, MutationView, SortView,
};
use crate::text::{contains_text, same_text};
#[allow(unused_imports)]
use crate::text::{ascii_lower, text_of, texts_of};

verus! {

/// Keep the filtered list filled at least this far past the last visible row, so that scrolling
/// stays ahead of the page loader.
pub const LOOKAHEAD: usize = 100;

/// The Liked Songs tab.
pub struct SavedTracksView {
    /// The rows that are shown.
    content: Vec<Track>,
    /// Whether tracks that are already filed are hidden.
    hide_sorted: bool,
    /// The version of the list that the rows were last built from.
    seen_version: u64,
}

/// The contents of a [`SavedTracksView`].
#[verifier::ext_equal]
pub struct SavedView {
    pub content: Seq<TrackView>,
    pub hide_sorted: bool,
    pub seen_version: u64,
}

impl View for SavedTracksView {
    type V = SavedView;

    closed spec fn view(&self) -> SavedView {
        SavedView {
            content: tracks_of(self.content@),
            hide_sorted: self.hide_sorted,
            seen_version: self.seen_version,
        }
    }
}

/// What is left to do for a command.
pub enum CommandAction {
    /// Leave the command to the list, then see [`SavedTracksView::sync`].
    Pass,
    /// Nothing.
    Nothing,
    /// Go back to the previous track of the queue.
    GoBack,
    /// Select the first row, then see [`SavedTracksView::keep_ahead`], and show this message.
    Refiltered(String),
    /// The change of the playlist is queued.
    Filed {
        /// Whether playback has to go on to the next track.
        advance: bool,
        /// Whether the row has gone from the list: the selection has to be kept within it, and see
        /// [`SavedTracksView::keep_ahead`].
        row_gone: bool,
    },
    /// The removal from the playlists is queued.
    Unfiled,
}

// --- What is shown ---------------------------------------------------------------------------

/// Whether a key-bound playlist holds the track.
pub open spec fn is_filed(bound: Map<Seq<char>, Seq<char>>, playlists: Seq<PlaylistView>, id: Seq<char>) -> bool {
    exists|i: int|
        0 <= i < playlists.len() && is_bound(bound, #[trigger] playlists[i]) && playlists[i].has_track(id)
}

/// The rows to show: all of the list, or those that are not filed yet.
pub open spec fn shown(
    hide_sorted: bool,
    bound: Map<Seq<char>, Seq<char>>,
    playlists: Seq<PlaylistView>,
    tracks: Seq<TrackView>,
) -> Seq<TrackView> {
    if hide_sorted {
        tracks.filter(|t: TrackView| t.id is None || !is_filed(bound, playlists, t.id->0))
    } else {
        tracks
    }
}

/// The view after it has been rebuilt.
pub open spec fn rebuilt(v: SavedView, liked: LikedView, bound: Map<Seq<char>, Seq<char>>, playlists: Seq<PlaylistView>) -> SavedView {
    SavedView {
        content: shown(v.hide_sorted, bound, playlists, liked.tracks),
        hide_sorted: v.hide_sorted,
        seen_version: liked.version,
    }
}

/// How many rows of the list it takes to have `want` of them shown, going by the share of rows that
/// are shown now.
pub open spec fn raw_target(want: int, raw_len: int, content_len: int) -> int {
    if content_len == 0 {
        want
    } else if want * raw_len > usize::MAX {
        usize::MAX as int / content_len
    } else {
        want * raw_len / content_len
    }
}

/// The message after the filter has been switched.
pub open spec fn filter_message(hide_sorted: bool) -> Seq<char> {
    if hide_sorted {
        "Hiding already-sorted tracks: on"@
    } else {
        "Hiding already-sorted tracks: off"@
    }
}

/// The message if there is no playlist of the name.
pub open spec fn no_playlist_message(name: Seq<char>) -> Seq<char> {
    "No playlist named \""@ + name + "\""@
}

/// The first playlist of the name, whatever the case of its ASCII letters.
pub open spec fn first_named(playlists: Seq<PlaylistView>, name: Seq<char>) -> Option<PlaylistView>
    decreases playlists.len(),
{
    if playlists.len() == 0 {
        None
    } else if ascii_lower(playlists[0].name) == ascii_lower(name) {
        Some(playlists[0])
    } else {
        first_named(playlists.skip(1), name)
    }
}

/// The change that the key of a playlist asks for: out of it if the track is in it, into it
/// otherwise.
pub open spec fn toggling(playlist: PlaylistView, track: TrackView) -> MutationView {
    if track.id is Some && playlist.has_track(track.id->0) {
        MutationView { remove_from: seq![playlist.id], append_to: None, track }
    } else {
        MutationView { remove_from: Seq::empty(), append_to: Some(playlist.id), track }
    }
}

/// The key-bound playlists that hold the track.
pub open spec fn bound_holding(bound: Map<Seq<char>, Seq<char>>, playlists: Seq<PlaylistView>, id: Seq<char>) -> Seq<PlaylistView> {
    playlists.filter(|p: PlaylistView| is_bound(bound, p) && p.has_track(id))
}

/// The change that takes the track out of every key-bound playlist.
pub open spec fn unfiling(bound: Map<Seq<char>, Seq<char>>, playlists: Seq<PlaylistView>, track: TrackView) -> MutationView {
    MutationView {
        remove_from: match track.id {
            Some(id) => ids_of(bound_holding(bound, playlists, id)),
            None => Seq::empty(),
        },
        append_to: None,
        track,
    }
}

/// The rows other than those with the id.
pub open spec fn rows_without(rows: Seq<TrackView>, id: Seq<char>) -> Seq<TrackView> {
    rows.filter(|t: TrackView| t.id != Some(id))
}

// --- The view --------------------------------------------------------------------------------

impl SavedTracksView {
    /// A view of the whole list.
    pub fn new(liked: &LikedSongs, sort: &SortState, playlists: &Vec<Playlist>) -> (r: Self)
        requires
            sort.wf(),
        ensures
            r@ == (SavedView { content: liked@.tracks, hide_sorted: false, seen_version: liked@.version }),
    {
        let mut view = SavedTracksView { content: Vec::new(), hide_sorted: false, seen_version: u64::MAX };
        view.rebuild(liked, sort, playlists);
        view
    }

    /// The title of the tab.
    pub fn title(&self) -> (r: String)
        ensures
            r@ == "Tracks"@,
    {
        "Tracks".to_string()
    }

    /// The rows that are shown.
    pub fn content(&self) -> (r: &Vec<Track>)
        ensures
            tracks_of(r@) == self@.content,
    {
        &self.content
    }

    /// Ids of the tracks already filed into a key-bound playlist, hidden while the filter is on.
    fn hidden_ids(&self, sort: &SortState, playlists: &Vec<Playlist>) -> (r: StringHashSet)
        requires
            sort.wf(),
        ensures
            forall|id: Seq<char>| #[trigger]
                r@.contains(id) == (self@.hide_sorted && is_filed(sort@.bound, playlists_of(playlists@), id)),
    {
        let mut hidden = StringHashSet::new();
        if !self.hide_sorted {
            return hidden;
        }
        let ghost bound = sort@.bound;
        let ghost all = playlists_of(playlists@);
        let names = sort.bound_playlist_names();
        for i in 0..playlists.len()
            invariant
                bound == sort@.bound,
                all == playlists_of(playlists@),
                texts_of(names@).to_set() == bound.dom(),
                forall|id: Seq<char>| #[trigger] hidden@.contains(id) == is_filed(bound, all.take(i as int), id),
        {
            let p = &playlists[i];
            assert(all[i as int] == p@);
            let ghost before = hidden@;
            let lower = p.name.as_str().to_ascii_lowercase();
            let is_named = contains_text(&names, &lower);
            assert(is_named == is_bound(bound, p@)) by {
                assert(texts_of(names@).contains(lower@) == texts_of(names@).to_set().contains(lower@));
            }
            if is_named {
                if let Some(items) = &p.tracks {
                    collect_ids(items, &mut hidden);
                }
            }
            assert forall|id: Seq<char>| #[trigger] hidden@.contains(id) == is_filed(bound, all.take(i + 1), id) by {
                lemma_filed_in_more(bound, all, i as int, id);
                assert(before.contains(id) == is_filed(bound, all.take(i as int), id));
            }
        }
        assert(all.take(all.len() as int) =~= all);
        hidden
    }

    /// Recompute the rows from the list. With the filter off this copies the whole list unchanged.
    pub fn rebuild(&mut self, liked: &LikedSongs, sort: &SortState, playlists: &Vec<Playlist>)
        requires
            sort.wf(),
        ensures
            final(self)@ == rebuilt(old(self)@, liked@, sort@.bound, playlists_of(playlists@)),
    {
        let hidden = self.hidden_ids(sort, playlists);
        let tracks = liked.saved_tracks();
        let ghost all = tracks_of(tracks@);
        let ghost keep = |t: TrackView| t.id is None || !hidden@.contains(t.id->0);
        let mut rows: Vec<Track> = Vec::new();
        assert(all.take(0) =~= Seq::empty());
        assert(tracks_of(rows@) =~= all.take(0).filter(keep)) by {
            reveal(Seq::filter);
        }
        for i in 0..tracks.len()
            invariant
                all == tracks_of(tracks@),
                keep == (|t: TrackView| t.id is None || !hidden@.contains(t.id->0)),
                tracks_of(rows@) == all.take(i as int).filter(keep),
        {
            proof {
                assert(all.take(i + 1).drop_last() =~= all.take(i as int));
                assert(all.take(i + 1).last() == tracks@[i as int]@);
                reveal(Seq::filter);
            }
            let kept = match &tracks[i].id {
                Some(id) => !hidden.contains(id.as_str()),
                None => true,
            };
            if kept {
                let ghost before = rows@;
                rows.push(tracks[i].clone());
                assert(tracks_of(rows@) =~= tracks_of(before).push(tracks@[i as int]@));
            }
        }
        assert(all.take(all.len() as int) =~= all);
        proof {
            let bound = sort@.bound;
            let lists = playlists_of(playlists@);
            if self.hide_sorted {
                assert(keep =~= (|t: TrackView| t.id is None || !is_filed(bound, lists, t.id->0)));
            } else {
                lemma_filter_all(all, keep);
            }
        }
        self.content = rows;
        self.seen_version = liked.version();
    }

    /// Rebuild if the list has changed. Then see [`SavedTracksView::keep_ahead`].
    pub fn sync(&mut self, liked: &LikedSongs, sort: &SortState, playlists: &Vec<Playlist>)
        requires
            sort.wf(),
        ensures
            final(self)@ == (if liked@.version != old(self)@.seen_version {
                rebuilt(old(self)@, liked@, sort@.bound, playlists_of(playlists@))
            } else {
                old(self)@
            }),
    {
        if liked.version() != self.seen_version {
            self.rebuild(liked, sort, playlists);
        }
    }

    /// Tell the scanner which row the selection is on, so that its cursor can follow it once it has
    /// been rested on.
    pub fn notify_selected(&self, selected: usize, scanner: &mut BpmScanner, now: u64)
        ensures
            final(scanner)@ == (if selected < self@.content.len() {
                old(scanner)@.selected(self@.content[selected as int], now)
            } else {
                old(scanner)@
            }),
    {
        if selected < self.content.len() {
            scanner.note_track_selection(&self.content[selected], now);
        }
    }

    /// The key-bound playlists that currently hold the track.
    fn bound_playlists_containing(&self, track_id: &String, sort: &SortState, playlists: &Vec<Playlist>) -> (r: Vec<
        Playlist,
    >)
        requires
            sort.wf(),
        ensures
            playlists_of(r@) == bound_holding(sort@.bound, playlists_of(playlists@), track_id@),
    {
        let ghost bound = sort@.bound;
        let ghost all = playlists_of(playlists@);
        let ghost keep = |p: PlaylistView| is_bound(bound, p) && p.has_track(track_id@);
        let names = sort.bound_playlist_names();
        let mut found: Vec<Playlist> = Vec::new();
        assert(all.take(0) =~= Seq::empty());
        assert(playlists_of(found@) =~= all.take(0).filter(keep)) by {
            reveal(Seq::filter);
        }
        for i in 0..playlists.len()
            invariant
                bound == sort@.bound,
                all == playlists_of(playlists@),
                keep == (|p: PlaylistView| is_bound(bound, p) && p.has_track(track_id@)),
                texts_of(names@).to_set() == bound.dom(),
                playlists_of(found@) == all.take(i as int).filter(keep),
        {
            let p = &playlists[i];
            proof {
                assert(all.take(i + 1).drop_last() =~= all.take(i as int));
                assert(all.take(i + 1).last() == p@);
                reveal(Seq::filter);
            }
            let lower = p.name.as_str().to_ascii_lowercase();
            let is_named = contains_text(&names, &lower);
            assert(is_named == is_bound(bound, p@)) by {
                assert(texts_of(names@).contains(lower@) == texts_of(names@).to_set().contains(lower@));
            }
            if is_named && p.has_track(track_id) {
                let ghost before = found@;
                found.push(p.clone());
                assert(playlists_of(found@) =~= playlists_of(before).push(p@));
            }
        }
        assert(all.take(all.len() as int) =~= all);
        found
    }

    /// The row up to which the list has to be loaded so that the rows shown reach [`LOOKAHEAD`]
    /// past the last visible one, if they do not already. Rows are shown in some proportion to the
    /// list, so the target is translated into rows of the list by that proportion.
    pub fn keep_ahead(&self, last_visible: usize, liked: &LikedSongs) -> (r: Option<usize>)
        requires
            last_visible + LOOKAHEAD <= usize::MAX,
            self@.content.len() < last_visible + LOOKAHEAD ==> raw_target(
                last_visible + LOOKAHEAD,
                liked@.tracks.len() as int,
                self@.content.len() as int,
            ) + LOOKAHEAD <= usize::MAX,
        ensures
            r == (if self@.content.len() >= last_visible + LOOKAHEAD {
                None
            } else {
                Some(
                    (raw_target(
                        last_visible + LOOKAHEAD,
                        liked@.tracks.len() as int,
                        self@.content.len() as int,
                    ) + LOOKAHEAD) as usize,
                )
            }),
    {
        let want: usize = last_visible + LOOKAHEAD;
        let content_len: usize = self.content.len();
        if content_len >= want {
            return None;
        }
        let raw_len: usize = liked.saved_tracks().len();
        let product: usize = match want.checked_mul(raw_len) {
            Some(p) => p,
            None => usize::MAX,
        };
        let target: usize = if content_len == 0 {
            want
        } else {
            product / content_len
        };
        Some(target + LOOKAHEAD)
    }

    /// The number of rows to size the scrollbar for: the full number of liked songs while the list
    /// is still being loaded, but not while filtering, where fewer rows are genuinely shown. Zero
    /// means as many as there are.
    pub fn virtual_len(&self, liked: &LikedSongs) -> (r: usize)
        ensures
            r == (if self@.hide_sorted || liked@.meta.total is None {
                0
            } else {
                liked@.meta.total->0
            }),
    {
        if self.hide_sorted {
            return 0;
        }
        match liked.total() {
            Some(total) => total,
            None => 0,
        }
    }

    /// Whether the view has to be laid out again: also whenever the list has changed, so that newly
    /// loaded rows show.
    pub fn wrap_needs_relayout(&self, liked: &LikedSongs, list_needs_relayout: bool) -> (r: bool)
        ensures
            r == (liked@.version != self@.seen_version || list_needs_relayout),
    {
        liked.version() != self.seen_version || list_needs_relayout
    }

    /// React to a command. `selected` is the selected row, `current` the id of the item at the
    /// queue's position, and `playing` whether the player is playing.
    pub fn on_command(
        &mut self,
        cmd: &Command,
        selected: usize,
        current: &Option<String>,
        playing: bool,
        liked: &LikedSongs,
        playlists: &Vec<Playlist>,
        sort: &mut SortState,
    ) -> (r: Result<CommandAction, String>)
        requires
            old(sort).wf(),
        ensures
            final(sort).wf(),
            final(sort)@.bound == old(sort)@.bound,
            match *cmd {
                Command::Previous => {
                    &&& r == Ok::<CommandAction, String>(CommandAction::GoBack)
                    &&& final(self)@ == old(self)@
                    &&& final(sort)@ == old(sort)@
                },
                Command::ToggleSortFilter => {
                    &&& r matches Ok(CommandAction::Refiltered(message))
                    &&& message@ == filter_message(!old(self)@.hide_sorted)
                    &&& final(self)@ == rebuilt(
                        SavedView { hide_sorted: !old(self)@.hide_sorted, ..old(self)@ },
                        liked@,
                        old(sort)@.bound,
                        playlists_of(playlists@),
                    )
                    &&& final(sort)@ == old(sort)@
                },
                Command::AddToPlaylist(name) => if selected >= old(self)@.content.len() {
                    &&& r == Ok::<CommandAction, String>(CommandAction::Nothing)
                    &&& final(self)@ == old(self)@
                    &&& final(sort)@ == old(sort)@
                } else {
                    let track = old(self)@.content[selected as int];
                    match first_named(playlists_of(playlists@), name@) {
                        None => {
                            &&& r matches Err(message)
                            &&& message@ == no_playlist_message(name@)
                            &&& final(self)@ == old(self)@
                            &&& final(sort)@ == old(sort)@
                        },
                        Some(playlist) => {
                            let hides = old(self)@.hide_sorted && track.id is Some;
                            &&& r matches Ok(CommandAction::Filed { advance, row_gone })
                            &&& advance == (hides && playing && text_of(*current) == track.id)
                            &&& row_gone == hides
                            &&& final(self)@ == (SavedView {
                                content: if hides {
                                    rows_without(old(self)@.content, track.id->0)
                                } else {
                                    old(self)@.content
                                },
                                ..old(self)@
                            })
                            &&& final(sort)@ == (SortView {
                                queue: old(sort)@.queue.push(toggling(playlist, track)),
                                ..old(sort)@
                            })
                        },
                    }
                },
                Command::RemoveFromPlaylists => if selected >= old(self)@.content.len() {
                    &&& r == Ok::<CommandAction, String>(CommandAction::Nothing)
                    &&& final(self)@ == old(self)@
                    &&& final(sort)@ == old(sort)@
                } else {
                    &&& r == Ok::<CommandAction, String>(CommandAction::Unfiled)
                    &&& final(self)@ == old(self)@
                    &&& final(sort)@ == (SortView {
                        queue: old(sort)@.queue.push(
                            unfiling(
                                old(sort)@.bound,
                                playlists_of(playlists@),
                                old(self)@.content[selected as int],
                            ),
                        ),
                        ..old(sort)@
                    })
                },
                _ => {
                    &&& r == Ok::<CommandAction, String>(CommandAction::Pass)
                    &&& final(self)@ == old(self)@
                    &&& final(sort)@ == old(sort)@
                },
            },
    {
        match cmd {
            Command::Previous => Ok(CommandAction::GoBack),
            Command::ToggleSortFilter => {
                self.hide_sorted = !self.hide_sorted;
                self.rebuild(liked, sort, playlists);
                let message = if self.hide_sorted {
                    "Hiding already-sorted tracks: on".to_string()
                } else {
                    "Hiding already-sorted tracks: off".to_string()
                };
                Ok(CommandAction::Refiltered(message))
            },
            Command::AddToPlaylist(name) => {
                if selected >= self.content.len() {
                    return Ok(CommandAction::Nothing);
                }
                let track = self.content[selected].clone();
                match playlist_named(playlists, name) {
                    Some(playlist) => Ok(self.toggle_in(playlist, track, current, playing, sort)),
                    None => {
                        let mut message = "No playlist named \"".to_string();
                        message.append(name.as_str());
                        message.append("\"");
                        Err(message)
                    },
                }
            },
            Command::RemoveFromPlaylists => {
                if selected >= self.content.len() {
                    return Ok(CommandAction::Nothing);
                }
                let track = self.content[selected].clone();
                let holding = match &track.id {
                    Some(id) => self.bound_playlists_containing(id, sort, playlists),
                    None => {
                        let none: Vec<Playlist> = Vec::new();
                        assert(ids_of(playlists_of(none@)) =~= Seq::empty());
                        none
                    },
                };
                sort.queue_playlist_mutation(track, &holding, None);
                Ok(CommandAction::Unfiled)
            },
            _ => Ok(CommandAction::Pass),
        }
    }

    /// Toggle the track in the one playlist whose key was pressed.
    fn toggle_in(
        &mut self,
        playlist: Playlist,
        track: Track,
        current: &Option<String>,
        playing: bool,
        sort: &mut SortState,
    ) -> (r: CommandAction)
        requires
            old(sort).wf(),
        ensures
            final(sort).wf(),
            ({
                let hides = old(self)@.hide_sorted && track@.id is Some;
                &&& r matches CommandAction::Filed { advance, row_gone }
                &&& advance == (hides && playing && text_of(*current) == track@.id)
                &&& row_gone == hides
                &&& final(self)@ == (SavedView {
                    content: if hides {
                        rows_without(old(self)@.content, track@.id->0)
                    } else {
                        old(self)@.content
                    },
                    ..old(self)@
                })
                &&& final(sort)@ == (SortView {
                    queue: old(sort)@.queue.push(toggling(playlist@, track@)),
                    ..old(sort)@
                })
            }),
    {
        let hides = self.hide_sorted && track.id.is_some();
        let advance = hides && playing && same_text(current, &track.id);
        let filed = match &track.id {
            Some(id) => playlist.has_track(id),
            None => false,
        };
        let mut row_gone = false;
        if hides {
            if let Some(id) = &track.id {
                self.content = copy_rows_without(&self.content, id);
                row_gone = true;
            }
        }
        if filed {
            let holding: Vec<Playlist> = vec![playlist];
            assert(ids_of(playlists_of(holding@)) =~= seq![playlist@.id]);
            sort.queue_playlist_mutation(track, &holding, None);
        } else {
            let none: Vec<Playlist> = Vec::new();
            assert(ids_of(playlists_of(none@)) =~= Seq::empty());
            sort.queue_playlist_mutation(track, &none, Some(&playlist));
        }
        CommandAction::Filed { advance, row_gone }
    }
}

/// Put the ids of the items into the set.
fn collect_ids(items: &Vec<Playable>, ids: &mut StringHashSet)
    ensures
        forall|id: Seq<char>| #[trigger]
            final(ids)@.contains(id) == (old(ids)@.contains(id) || holds_id(playables_of(items@), id)),
{
    let ghost all = playables_of(items@);
    for i in 0..items.len()
        invariant
            all == playables_of(items@),
            forall|id: Seq<char>| #[trigger]
                ids@.contains(id) == (old(ids)@.contains(id) || holds_id(all.take(i as int), id)),
    {
        let ghost before = ids@;
        let own = items[i].id();
        assert(all[i as int] == items@[i as int]@);
        if let Some(id) = own {
            ids.insert(id);
        }
        assert forall|id: Seq<char>| #[trigger] ids@.contains(id) == (old(ids)@.contains(id) || holds_id(
            all.take(i + 1),
            id,
        )) by {
            assert(before.contains(id) == (old(ids)@.contains(id) || holds_id(all.take(i as int), id)));
            let less = all.take(i as int);
            let more = all.take(i + 1);
            if holds_id(less, id) {
                let j = choose|j: int| 0 <= j < less.len() && (#[trigger] less[j]).id() == Some(id);
                assert(more[j].id() == Some(id));
            }
            if holds_id(more, id) {
                let j = choose|j: int| 0 <= j < more.len() && (#[trigger] more[j]).id() == Some(id);
                if j < i {
                    assert(less[j].id() == Some(id));
                }
            }
            if all[i as int].id() == Some(id) {
                assert(more[i as int].id() == Some(id));
            }
        }
    }
    assert(all.take(all.len() as int) =~= all);
}

/// The first playlist of the name, whatever the case of its ASCII letters.
fn playlist_named(playlists: &Vec<Playlist>, name: &String) -> (r: Option<Playlist>)
    ensures
        match r {
            Some(p) => first_named(playlists_of(playlists@), name@) == Some(p@),
            None => first_named(playlists_of(playlists@), name@) is None,
        },
{
    let ghost all = playlists_of(playlists@);
    assert(all.skip(0) =~= all);
    for i in 0..playlists.len()
        invariant
            all == playlists_of(playlists@),
            first_named(all, name@) == first_named(all.skip(i as int), name@),
    {
        assert(all.skip(i as int)[0] == playlists@[i as int]@);
        assert(all.skip(i as int).skip(1) =~= all.skip(i + 1));
        if playlists[i].name.as_str().eq_ignore_ascii_case(name.as_str()) {
            return Some(playlists[i].clone());
        }
    }
    None
}

/// Copies of the rows other than those with the id.
fn copy_rows_without(rows: &Vec<Track>, id: &String) -> (r: Vec<Track>)
    ensures
        tracks_of(r@) == rows_without(tracks_of(rows@), id@),
{
    let ghost all = tracks_of(rows@);
    let ghost other = |t: TrackView| t.id != Some(id@);
    let mut kept: Vec<Track> = Vec::new();
    assert(all.take(0) =~= Seq::empty());
    assert(tracks_of(kept@) =~= all.take(0).filter(other)) by {
        reveal(Seq::filter);
    }
    for i in 0..rows.len()
        invariant
            all == tracks_of(rows@),
            other == (|t: TrackView| t.id != Some(id@)),
            tracks_of(kept@) == all.take(i as int).filter(other),
    {
        proof {
            assert(all.take(i + 1).drop_last() =~= all.take(i as int));
            assert(all.take(i + 1).last() == rows@[i as int]@);
            reveal(Seq::filter);
        }
        let same = match &rows[i].id {
            Some(own) => *own == *id,
            None => false,
        };
        if !same {
            let ghost before = kept@;
            kept.push(rows[i].clone());
            assert(tracks_of(kept@) =~= tracks_of(before).push(rows@[i as int]@));
        }
    }
    assert(all.take(all.len() as int) =~= all);
    kept
}

/// One more playlist hides the ids that it holds, if it is bound.
proof fn lemma_filed_in_more(bound: Map<Seq<char>, Seq<char>>, all: Seq<PlaylistView>, i: int, id: Seq<char>)
    requires
        0 <= i < all.len(),
    ensures
        is_filed(bound, all.take(i + 1), id) == (is_filed(bound, all.take(i), id) || is_bound(bound, all[i])
            && all[i].has_track(id)),
{
    let less = all.take(i);
    let more = all.take(i + 1);
    if is_filed(bound, less, id) {
        let j = choose|j: int| 0 <= j < less.len() && is_bound(bound, #[trigger] less[j]) && less[j].has_track(id);
        assert(more[j] == less[j]);
    }
    if is_filed(bound, more, id) {
        let j = choose|j: int| 0 <= j < more.len() && is_bound(bound, #[trigger] more[j]) && more[j].has_track(id);
        if j < i {
            assert(less[j] == more[j]);
        }
    }
    assert(more[i] == all[i]);
}

// --- Laws ------------------------------------------------------------------------------------

/// A track is hidden by the filter if and only if it counts as sorted.
pub proof fn law_filed_means_sorted(bound: Map<Seq<char>, Seq<char>>, playlists: Seq<PlaylistView>, id: Seq<char>)
    ensures
        is_filed(bound, playlists, id) <==> status_of(bound, playlists, id) is Sorted,
{
    let keys = filed_keys(bound, playlists, id);
    if is_filed(bound, playlists, id) {
        let i = choose|i: int|
            0 <= i < playlists.len() && is_bound(bound, #[trigger] playlists[i]) && playlists[i].has_track(id);
        let key = bound[ascii_lower(playlists[i].name)];
        law_status_names_every_key(bound, playlists, id, key);
        assert(keys.contains(key));
        assert(bound.dom().contains(ascii_lower(playlists[i].name)));
    }
    if status_of(bound, playlists, id) is Sorted {
        let key = keys[0];
        assert(keys.contains(key));
        law_status_names_every_key(bound, playlists, id, key);
        let i = choose|i: int|
            0 <= i < playlists.len() && is_bound(bound, #[trigger] playlists[i]) && bound[ascii_lower(
                playlists[i].name,
            )] == key && playlists[i].has_track(id);
        assert(is_bound(bound, playlists[i]));
    }
}

/// The rows shown are rows of the list; with the filter off all of them, with the filter on exactly
/// those that no key-bound playlist holds.
pub proof fn law_filter_shows_the_unsorted(
    hide_sorted: bool,
    bound: Map<Seq<char>, Seq<char>>,
    playlists: Seq<PlaylistView>,
    tracks: Seq<TrackView>,
    track: TrackView,
)
    ensures
        shown(hide_sorted, bound, playlists, tracks).contains(track) <==> tracks.contains(track) && (!hide_sorted
            || track.id is None || !(status_of(bound, playlists, track.id->0) is Sorted)),
{
    broadcast use vstd::seq_lib::group_filter_ensures;

    if track.id is Some {
        law_filed_means_sorted(bound, playlists, track.id->0);
    }
    if hide_sorted {
        let keep = |t: TrackView| t.id is None || !is_filed(bound, playlists, t.id->0);
        let rows = tracks.filter(keep);
        if rows.contains(track) {
            let j = choose|j: int| 0 <= j < rows.len() && rows[j] == track;
            assert(keep(rows[j]));
            lemma_filter_within(tracks, keep);
        }
        if tracks.contains(track) && keep(track) {
            let i = choose|i: int| 0 <= i < tracks.len() && tracks[i] == track;
            assert(keep(tracks[i]));
        }
    }
}

/// Switching the filter twice shows the same rows as not switching it.
pub proof fn law_switching_the_filter_twice(
    v: SavedView,
    liked: LikedView,
    bound: Map<Seq<char>, Seq<char>>,
    playlists: Seq<PlaylistView>,
)
    ensures
        ({
            let once = rebuilt(SavedView { hide_sorted: !v.hide_sorted, ..v }, liked, bound, playlists);
            rebuilt(SavedView { hide_sorted: !once.hide_sorted, ..once }, liked, bound, playlists) == rebuilt(
                v,
                liked,
                bound,
                playlists,
            )
        }),
{
}

/// Looking for the first playlist that has something finds the one at `i` if none before it has it.
proof fn lemma_first_found(playlists: Seq<PlaylistView>, i: int, name: Seq<char>, id: Seq<char>)
    requires
        0 <= i < playlists.len(),
    ensures
        ascii_lower(playlists[i].name) == ascii_lower(name) && (forall|j: int|
            0 <= j < i ==> ascii_lower((#[trigger] playlists[j]).name) != ascii_lower(name)) ==> first_named(
            playlists,
            name,
        ) == Some(playlists[i]),
        playlists[i].id == id && (forall|j: int| 0 <= j < i ==> (#[trigger] playlists[j]).id != id) ==> first_with_id(
            playlists,
            id,
        ) == Some(playlists[i]),
    decreases playlists.len(),
{
    if i > 0 {
        let rest = playlists.skip(1);
        lemma_first_found(rest, i - 1, name, id);
        assert(rest[i - 1] == playlists[i]);
        if forall|j: int| 0 <= j < i ==> ascii_lower((#[trigger] playlists[j]).name) != ascii_lower(name) {
            assert(ascii_lower(playlists[0].name) != ascii_lower(name));
            assert forall|j: int| 0 <= j < i - 1 implies ascii_lower((#[trigger] rest[j]).name) != ascii_lower(name) by {
                assert(rest[j] == playlists[j + 1]);
            }
        }
        if forall|j: int| 0 <= j < i ==> (#[trigger] playlists[j]).id != id {
            assert(playlists[0].id != id);
            assert forall|j: int| 0 <= j < i - 1 implies (#[trigger] rest[j]).id != id by {
                assert(rest[j] == playlists[j + 1]);
            }
        }
    }
}

/// Pressing the key of a loaded playlist that does not hold the track appends the track to that
/// playlist and does nothing else; pressing it again deletes the one copy from it, after which
/// every playlist is as before the first press. The playlist is the first of its name and of its
/// id, and the track is no local file.
pub proof fn law_pressing_a_key_twice(playlists: Seq<PlaylistView>, i: int, name: Seq<char>, track: TrackView)
    requires
        0 <= i < playlists.len(),
        ascii_lower(playlists[i].name) == ascii_lower(name),
        forall|j: int|
            0 <= j < i ==> ascii_lower((#[trigger] playlists[j]).name) != ascii_lower(name) && playlists[j].id
                != playlists[i].id,
        playlists[i].tracks is Some,
        track.id is Some,
        !track.is_local,
        !playlists[i].has_track(track.id->0),
    ensures
        ({
            let p = playlists[i];
            let filled = with_track(p, track);
            let then = playlists.update(i, filled);
            &&& first_named(playlists, name) == Some(p)
            &&& mutation_step(playlists, toggling(p, track), MutationPhase::Starting) == (
                MutationStepView::Append(p),
                MutationPhase::Appending,
            )
            &&& mutation_step(then, toggling(p, track), MutationPhase::Removing(0)).0 is Done
            &&& first_named(then, name) == Some(filled)
            &&& mutation_step(then, toggling(filled, track), MutationPhase::Starting) == (
                MutationStepView::Delete(filled, seq![PlayableView::Track(track)]),
                MutationPhase::Removing(1),
            )
            &&& mutation_step(then, toggling(filled, track), MutationPhase::Removing(1)).0 is Done
            &&& then.update(i, without_track(filled, track.id->0)) == playlists
        }),
{
    let p = playlists[i];
    let id = track.id->0;
    let filled = with_track(p, track);
    let then = playlists.update(i, filled);
    lemma_first_found(playlists, i, name, p.id);
    assert forall|j: int| 0 <= j < i implies ascii_lower((#[trigger] then[j]).name) != ascii_lower(name) && then[j].id
        != p.id by {
        assert(then[j] == playlists[j]);
    }
    lemma_first_found(then, i, name, p.id);
    law_filing_then_unfiling(p, track);
    let items = p.tracks->0;
    let more = filled.tracks->0;
    let same = |q: PlayableView| q.id() == Some(id);
    assert(occurrences_of(more, id) == seq![PlayableView::Track(track)]) by {
        reveal(Seq::filter);
        assert(more.drop_last() =~= items);
        assert forall|k: int| 0 <= k < items.len() implies !same(#[trigger] items[k]) by {
            assert(items[k].id() != Some(id));
        }
        lemma_filter_none(items, same);
        assert(more.filter(same) =~= seq![PlayableView::Track(track)]);
    }
    let found = occurrences_of(more, id);
    assert(found.len() == 1 && found[0] == PlayableView::Track(track));
    assert(delete_plan(filled, id) == DeletePlanView::Delete(found));
    let again = toggling(filled, track);
    assert(again.remove_from.len() == 1 && again.remove_from[0] == p.id);
    assert(then.update(i, without_track(filled, id)) =~= playlists);
}

/// A key press asks for a change of the one playlist that has the key, and of no other.
pub proof fn law_key_touches_one_playlist(playlist: PlaylistView, track: TrackView, other: Seq<char>)
    requires
        other != playlist.id,
    ensures
        !toggling(playlist, track).remove_from.contains(other),
        toggling(playlist, track).append_to != Some(other),
{
}

/// Taking a track out of every key-bound playlist is asked for exactly where it is: of the bound
/// playlists that hold it, none is left out, and no other is named.
pub proof fn law_unfiling_names_the_bound_playlists(
    bound: Map<Seq<char>, Seq<char>>,
    playlists: Seq<PlaylistView>,
    track: TrackView,
    list_id: Seq<char>,
)
    requires
        track.id is Some,
    ensures
        unfiling(bound, playlists, track).append_to is None,
        unfiling(bound, playlists, track).remove_from.contains(list_id) <==> exists|i: int|
            0 <= i < playlists.len() && (#[trigger] playlists[i]).id == list_id && is_bound(bound, playlists[i])
                && playlists[i].has_track(track.id->0),
    decreases playlists.len(),
{
    let id = track.id->0;
    let keep = |p: PlaylistView| is_bound(bound, p) && p.has_track(id);
    let ids = unfiling(bound, playlists, track).remove_from;
    reveal(Seq::filter);
    if playlists.len() > 0 {
        let head = playlists.drop_last();
        let last = playlists.last();
        let head_ids = unfiling(bound, head, track).remove_from;
        law_unfiling_names_the_bound_playlists(bound, head, track, list_id);
        if keep(last) {
            assert(ids =~= head_ids.push(last.id));
        } else {
            assert(ids =~= head_ids);
        }
        if head_ids.contains(list_id) {
            let j = choose|j: int| 0 <= j < head_ids.len() && head_ids[j] == list_id;
            assert(ids[j] == list_id);
            let i = choose|i: int|
                0 <= i < head.len() && (#[trigger] head[i]).id == list_id && is_bound(bound, head[i])
                    && head[i].has_track(id);
            assert(playlists[i] == head[i]);
        }
        if keep(last) && last.id == list_id {
            assert(ids[head_ids.len() as int] == list_id);
            assert(playlists[playlists.len() - 1] == last);
        }
        if ids.contains(list_id) && !head_ids.contains(list_id) {
            let j = choose|j: int| 0 <= j < ids.len() && ids[j] == list_id;
            if j < head_ids.len() {
                assert(head_ids[j] == list_id);
            }
            assert(playlists[playlists.len() - 1] == last);
        }
        if exists|i: int|
            0 <= i < playlists.len() && (#[trigger] playlists[i]).id == list_id && is_bound(bound, playlists[i])
                && playlists[i].has_track(id) {
            let i = choose|i: int|
                0 <= i < playlists.len() && (#[trigger] playlists[i]).id == list_id && is_bound(bound, playlists[i])
                    && playlists[i].has_track(id);
            if i < head.len() {
                assert(head[i] == playlists[i]);
            }
        }
    }
}

/// Taking a track out of every key-bound playlist leaves no copy of it in any of them and changes
/// no other playlist, if the service makes the deletions. The playlists have distinct ids, and none
/// holds the track as a local file.
pub proof fn law_unfiling_clears_the_bound_playlists(
    bound: Map<Seq<char>, Seq<char>>,
    playlists: Seq<PlaylistView>,
    track: TrackView,
)
    requires
        track.id is Some,
        distinct_lists(playlists),
        no_local_copies(playlists, track.id->0),
    ensures
        ({
            let after = swept(playlists, unfiling(bound, playlists, track), 0);
            &&& !is_filed(bound, after, track.id->0)
            &&& after.len() == playlists.len()
            &&& forall|i: int|
                0 <= i < playlists.len() ==> #[trigger] after[i] == (if is_bound(bound, playlists[i])
                    && playlists[i].has_track(track.id->0) {
                    without_track(playlists[i], track.id->0)
                } else {
                    playlists[i]
                })
        }),
{
    let id = track.id->0;
    let m = unfiling(bound, playlists, track);
    let after = swept(playlists, m, 0);
    law_removal_reaches_every_named_playlist(playlists, m);
    assert forall|i: int| 0 <= i < playlists.len() implies #[trigger] after[i] == (if is_bound(bound, playlists[i])
        && playlists[i].has_track(id) {
        without_track(playlists[i], id)
    } else {
        playlists[i]
    }) by {
        law_unfiling_names_the_bound_playlists(bound, playlists, track, playlists[i].id);
        if m.remove_from.contains(playlists[i].id) {
            let j = choose|j: int|
                0 <= j < playlists.len() && (#[trigger] playlists[j]).id == playlists[i].id && is_bound(
                    bound,
                    playlists[j],
                ) && playlists[j].has_track(id);
            assert(j == i);
        }
    }
    if is_filed(bound, after, id) {
        let i = choose|i: int| 0 <= i < after.len() && is_bound(bound, #[trigger] after[i]) && after[i].has_track(id);
        law_removal_takes_every_copy(playlists[i], id);
        assert(after[i].name == playlists[i].name);
    }
}

/// While every row is shown, loading ahead reaches two look-aheads past the last visible row,
/// whatever the length of the list.
pub proof fn law_loading_ahead_without_filter(last_visible: int, len: int)
    requires
        0 <= last_visible,
        0 < len,
        (last_visible + LOOKAHEAD) * len <= usize::MAX,
    ensures
        raw_target(last_visible + LOOKAHEAD, len, len) + LOOKAHEAD == last_visible + 2 * LOOKAHEAD,
{
    let want = last_visible + LOOKAHEAD;
    assert(want * len / len == want) by (nonlinear_arith)
        requires
            len > 0,
            want >= 0,
    ;
}

/// The change that a key press asks for, told by the playlist's items alone: a track that is anywhere among
/// them is to go out of that playlist and nowhere else, any other is to go into it and out of nothing.
pub proof fn law_key_press_asks_for_a_toggle(p: PlaylistView, track: TrackView)
    ensures
        toggling(p, track).track == track,
        ({
            let inside = track.id is Some && p.tracks is Some && exists|i: int|
                0 <= i < p.tracks->0.len() && match #[trigger] p.tracks->0[i] {
                    PlayableView::Track(t) => t.id == track.id,
                    PlayableView::Episode(e) => Some(e.id) == track.id,
                };
            if inside {
                &&& toggling(p, track).remove_from == seq![p.id]
                &&& toggling(p, track).append_to is None
            } else {
                &&& toggling(p, track).remove_from.len() == 0
                &&& toggling(p, track).append_to == Some(p.id)
            }
        }),
{
    if track.id is Some && p.tracks is Some {
        let id = track.id->0;
        let items = p.tracks->0;
        law_playlist_holds_what_is_in_it(p, items, id);
        assert((PlaylistView { tracks: Some(items), ..p }) == p);
        if p.has_track(id) {
            let i = choose|i: int|
                0 <= i < items.len() && match #[trigger] items[i] {
                    PlayableView::Track(t) => t.id == Some(id),
                    PlayableView::Episode(e) => e.id == id,
                };
            assert(match p.tracks->0[i] {
                PlayableView::Track(t) => t.id == track.id,
                PlayableView::Episode(e) => Some(e.id) == track.id,
            });
        }
        if exists|i: int|
            0 <= i < items.len() && match #[trigger] items[i] {
                PlayableView::Track(t) => t.id == track.id,
                PlayableView::Episode(e) => Some(e.id) == track.id,
            } {
            let i = choose|i: int|
                0 <= i < items.len() && match #[trigger] items[i] {
                    PlayableView::Track(t) => t.id == track.id,
                    PlayableView::Episode(e) => Some(e.id) == track.id,
                };
            assert(match items[i] {
                PlayableView::Track(t) => t.id == Some(id),
                PlayableView::Episode(e) => e.id == id,
            });
        }
    }
}

/// What a key press comes to once its change has been carried out: a loaded playlist that held the track,
/// at whatever place, holds it no more, one that did not has it at its end, and no other playlist is
/// changed. The playlists have distinct ids, and none holds the track as a local file.
#[verifier::spinoff_prover]
pub proof fn law_key_press_toggles_the_playlist(playlists: Seq<PlaylistView>, i: int, track: TrackView, steps: nat)
    requires
        0 <= i < playlists.len(),
        track.id is Some,
        playlists[i].tracks is Some,
        distinct_lists(playlists),
        no_local_copies(playlists, track.id->0),
        steps > 2,
    ensures
        ({
            let id = track.id->0;
            let before = playlists[i].tracks->0;
            let after = carried_out(playlists, toggling(playlists[i], track), MutationPhase::Starting, steps);
            &&& after.len() == playlists.len()
            &&& after[i].has_track(id) == !playlists[i].has_track(id)
            &&& after[i].tracks is Some
            &&& after[i] == (PlaylistView { tracks: after[i].tracks, ..playlists[i] })
            &&& !playlists[i].has_track(id) ==> after[i].tracks->0 == before + seq![PlayableView::Track(track)]
            &&& playlists[i].has_track(id) ==> picked_from(
                before,
                |q: PlayableView| q.id() != track.id,
                after[i].tracks->0,
            )
            &&& forall|j: int| 0 <= j < playlists.len() && j != i ==> #[trigger] after[j] == playlists[j]
        }),
{
    let id = track.id->0;
    let p = playlists[i];
    lemma_toggle_carried_out(playlists, i, track, steps);
    if p.has_track(id) {
        lemma_toggled_off(p, track);
    } else {
        lemma_toggled_on(p, track);
    }
}

/// Carrying out a key press changes the playlist alone.
#[verifier::spinoff_prover]
proof fn lemma_toggle_carried_out(playlists: Seq<PlaylistView>, i: int, track: TrackView, steps: nat)
    requires
        0 <= i < playlists.len(),
        track.id is Some,
        playlists[i].tracks is Some,
        distinct_lists(playlists),
        no_local_copies(playlists, track.id->0),
        steps > 2,
    ensures
        ({
            let id = track.id->0;
            let after = carried_out(playlists, toggling(playlists[i], track), MutationPhase::Starting, steps);
            &&& after.len() == playlists.len()
            &&& after[i] == if playlists[i].has_track(id) {
                without_track(playlists[i], id)
            } else {
                with_track(playlists[i], track)
            }
            &&& forall|j: int| 0 <= j < playlists.len() && j != i ==> #[trigger] after[j] == playlists[j]
        }),
{
    let id = track.id->0;
    let p = playlists[i];
    let m = toggling(p, track);
    let after = carried_out(playlists, m, MutationPhase::Starting, steps);
    law_key_press_asks_for_a_toggle(p, track);
    law_mutation_carried_out(playlists, m, steps);
    assert(m.append_to == Some(p.id) ==> !(forall|k: int|
        0 <= k < playlists.len() ==> (#[trigger] playlists[k]).id != p.id));
    assert(m.remove_from.contains(p.id) == p.has_track(id)) by {
        if p.has_track(id) {
            assert(m.remove_from[0] == p.id);
        }
    }
    assert(after[i] == if p.has_track(id) {
        without_track(p, id)
    } else {
        with_track(p, track)
    });
    assert forall|j: int| 0 <= j < playlists.len() && j != i implies #[trigger] after[j] == playlists[j] by {
        assert(playlists[j].id != p.id) by {
            if i < j {
                assert(playlists[i].id != playlists[j].id);
            } else {
                assert(playlists[j].id != playlists[i].id);
            }
        }
        assert(!m.remove_from.contains(playlists[j].id));
    }
}

/// A playlist without the track has every item that is not the track, in order, and nothing else is changed.
proof fn lemma_toggled_off(p: PlaylistView, track: TrackView)
    requires
        p.tracks is Some,
        track.id is Some,
    ensures
        ({
            let after = without_track(p, track.id->0);
            &&& !after.has_track(track.id->0)
            &&& after.tracks is Some
            &&& after == (PlaylistView { tracks: after.tracks, ..p })
            &&& picked_from(p.tracks->0, |q: PlayableView| q.id() != track.id, after.tracks->0)
        }),
{
    law_removal_takes_every_copy(p, track.id->0);
    law_removal_keeps_the_other_items(p, track.id->0);
    assert((|q: PlayableView| q.id() != track.id) =~= (|q: PlayableView| q.id() != Some(track.id->0)));
}

/// A playlist with the track has it behind its items, and nothing else is changed.
proof fn lemma_toggled_on(p: PlaylistView, track: TrackView)
    requires
        p.tracks is Some,
        track.id is Some,
    ensures
        ({
            let after = with_track(p, track);
            &&& after.has_track(track.id->0)
            &&& after.tracks is Some
            &&& after == (PlaylistView { tracks: after.tracks, ..p })
            &&& after.tracks->0 == p.tracks->0 + seq![PlayableView::Track(track)]
        }),
{
    let after = with_track(p, track);
    assert(after.tracks->0 =~= p.tracks->0 + seq![PlayableView::Track(track)]);
    let last = p.tracks->0.len() as int;
    assert(after.tracks->0[last] == PlayableView::Track(track));
    assert(after.tracks->0[last].id() == Some(track.id->0));
}

/// The playlist of a name is the first whose name agrees with it once both are lowered.
pub proof fn law_name_finds_the_first_playlist(playlists: Seq<PlaylistView>, name: Seq<char>)
    ensures
        match first_named(playlists, name) {
            Some(p) => exists|i: int|
                0 <= i < playlists.len() && #[trigger] playlists[i] == p && ascii_lower(p.name) == ascii_lower(name)
                    && forall|j: int| 0 <= j < i ==> ascii_lower((#[trigger] playlists[j]).name) != ascii_lower(name),
            None => forall|i: int|
                0 <= i < playlists.len() ==> ascii_lower((#[trigger] playlists[i]).name) != ascii_lower(name),
        },
    decreases playlists.len(),
{
    if playlists.len() > 0 {
        if ascii_lower(playlists[0].name) != ascii_lower(name) {
            let rest = playlists.skip(1);
            law_name_finds_the_first_playlist(rest, name);
            match first_named(rest, name) {
                Some(p) => {
                    let i = choose|i: int|
                        0 <= i < rest.len() && #[trigger] rest[i] == p && ascii_lower(p.name) == ascii_lower(name)
                            && forall|j: int|
                            0 <= j < i ==> ascii_lower((#[trigger] rest[j]).name) != ascii_lower(name);
                    assert(playlists[i + 1] == p);
                    assert forall|j: int| 0 <= j < i + 1 implies ascii_lower((#[trigger] playlists[j]).name)
                        != ascii_lower(name) by {
                        if j > 0 {
                            assert(rest[j - 1] == playlists[j]);
                        }
                    }
                },
                None => {
                    assert forall|i: int| 0 <= i < playlists.len() implies ascii_lower((#[trigger] playlists[i]).name)
                        != ascii_lower(name) by {
                        if i > 0 {
                            assert(rest[i - 1] == playlists[i]);
                        }
                    }
                },
            }
        } else {
            assert(playlists[0] == first_named(playlists, name)->0);
        }
    }
}

/// With the filter on, the rows shown are, in the order of the list, those without an id and those whose id
/// is in no playlist whose name has a key; with the filter off they are the list. A rebuilt view shows them,
/// keeps the filter as it is and has seen the list's version.
pub proof fn law_rows_shown_are_the_unsorted_in_order(
    v: SavedView,
    liked: LikedView,
    bound: Map<Seq<char>, Seq<char>>,
    playlists: Seq<PlaylistView>,
)
    ensures
        rebuilt(v, liked, bound, playlists).hide_sorted == v.hide_sorted,
        rebuilt(v, liked, bound, playlists).seen_version == liked.version,
        !v.hide_sorted ==> rebuilt(v, liked, bound, playlists).content == liked.tracks,
        v.hide_sorted ==> picked_from(
            liked.tracks,
            |t: TrackView|
                t.id is None || forall|i: int|
                    0 <= i < playlists.len() && bound.contains_key(ascii_lower((#[trigger] playlists[i]).name))
                        ==> !playlists[i].has_track(t.id->0),
            rebuilt(v, liked, bound, playlists).content,
        ),
{
    if v.hide_sorted {
        let keep = |t: TrackView| t.id is None || !is_filed(bound, playlists, t.id->0);
        let plain = |t: TrackView|
            t.id is None || forall|i: int|
                0 <= i < playlists.len() && bound.contains_key(ascii_lower((#[trigger] playlists[i]).name))
                    ==> !playlists[i].has_track(t.id->0);
        assert forall|t: TrackView| #[trigger] keep(t) == plain(t) by {
            if t.id is Some {
                if is_filed(bound, playlists, t.id->0) {
                    let i = choose|i: int|
                        0 <= i < playlists.len() && is_bound(bound, #[trigger] playlists[i])
                            && playlists[i].has_track(t.id->0);
                    assert(bound.contains_key(ascii_lower(playlists[i].name)));
                } else {
                    assert forall|i: int|
                        0 <= i < playlists.len() && bound.contains_key(
                            ascii_lower((#[trigger] playlists[i]).name),
                        ) implies !playlists[i].has_track(t.id->0) by {
                        assert(is_bound(bound, playlists[i]));
                    }
                }
            }
        }
        assert(keep =~= plain);
        let at = lemma_filter_picks(liked.tracks, keep);
    }
}

/// Filing a track while the filter is on takes exactly the rows with its id away and leaves the others in
/// their order.
pub proof fn law_filed_rows_go(rows: Seq<TrackView>, id: Seq<char>)
    ensures
        picked_from(rows, |t: TrackView| t.id != Some(id), rows_without(rows, id)),
{
    let at = lemma_filter_picks(rows, |t: TrackView| t.id != Some(id));
}

/// Taking a track out of every key-bound playlist names, in order and each once, the playlists whose name has
/// a key and that hold the track, files it nowhere, and names nothing for a track without an id.
pub proof fn law_unfiling_names_each_holding_playlist(
    bound: Map<Seq<char>, Seq<char>>,
    playlists: Seq<PlaylistView>,
    track: TrackView,
)
    ensures
        unfiling(bound, playlists, track).append_to is None,
        unfiling(bound, playlists, track).track == track,
        track.id is None ==> unfiling(bound, playlists, track).remove_from.len() == 0,
        track.id is Some ==> ({
            let holds = |p: PlaylistView| bound.contains_key(ascii_lower(p.name)) && p.has_track(track.id->0);
            exists|held: Seq<PlaylistView>| #[trigger]
                picked_from(playlists, holds, held) && unfiling(bound, playlists, track).remove_from
                    == held.map_values(|p: PlaylistView| p.id)
        }),
{
    if track.id is Some {
        let id = track.id->0;
        let holds = |p: PlaylistView| bound.contains_key(ascii_lower(p.name)) && p.has_track(id);
        let keep = |p: PlaylistView| is_bound(bound, p) && p.has_track(id);
        assert(keep =~= holds);
        let held = bound_holding(bound, playlists, id);
        let at = lemma_filter_picks(playlists, keep);
        assert(picked_from(playlists, holds, held));
        assert(unfiling(bound, playlists, track).remove_from =~= held.map_values(|p: PlaylistView| p.id));
        assert(holds =~= (|p: PlaylistView| bound.contains_key(ascii_lower(p.name)) && p.has_track(track.id->0)));
    }
}

/// What Backspace comes to once its change has been carried out: every playlist whose name has a key and that
/// holds the track has no copy of it left, and no other playlist is changed. The playlists have distinct ids,
/// and none holds the track as a local file.
pub proof fn law_unfiling_carried_out(
    bound: Map<Seq<char>, Seq<char>>,
    playlists: Seq<PlaylistView>,
    track: TrackView,
    steps: nat,
)
    requires
        track.id is Some,
        playlists.len() < usize::MAX,
        steps > playlists.len() + 1,
        distinct_lists(playlists),
        no_local_copies(playlists, track.id->0),
    ensures
        ({
            let id = track.id->0;
            let after = carried_out(playlists, unfiling(bound, playlists, track), MutationPhase::Starting, steps);
            &&& after.len() == playlists.len()
            &&& forall|i: int|
                0 <= i < playlists.len() ==> {
                    let p = #[trigger] playlists[i];
                    if bound.contains_key(ascii_lower(p.name)) && p.has_track(id) {
                        &&& !after[i].has_track(id)
                        &&& after[i] == without_track(p, id)
                    } else {
                        after[i] == p
                    }
                }
        }),
{
    let id = track.id->0;
    let m = unfiling(bound, playlists, track);
    let after = carried_out(playlists, m, MutationPhase::Starting, steps);
    let keep = |p: PlaylistView| is_bound(bound, p) && p.has_track(id);
    lemma_filter_within(playlists, keep);
    assert(m.remove_from.len() <= playlists.len()) by {
        broadcast use vstd::seq_lib::group_filter_ensures;

        assert(bound_holding(bound, playlists, id).len() <= playlists.len());
    }
    law_mutation_carried_out(playlists, m, steps);
    assert forall|i: int| 0 <= i < playlists.len() implies {
        let p = #[trigger] playlists[i];
        if bound.contains_key(ascii_lower(p.name)) && p.has_track(id) {
            &&& !after[i].has_track(id)
            &&& after[i] == without_track(p, id)
        } else {
            after[i] == p
        }
    } by {
        let p = playlists[i];
        law_unfiling_names_the_bound_playlists(bound, playlists, track, p.id);
        law_removal_takes_every_copy(p, id);
        assert(after[i] == if m.remove_from.contains(p.id) {
            without_track(p, id)
        } else {
            p
        });
        if m.remove_from.contains(p.id) {
            let j = choose|j: int|
                0 <= j < playlists.len() && (#[trigger] playlists[j]).id == p.id && is_bound(bound, playlists[j])
                    && playlists[j].has_track(id);
            if j < i {
                assert(playlists[j].id != playlists[i].id);
            } else if i < j {
                assert(playlists[i].id != playlists[j].id);
            }
        } else {
            assert(!(is_bound(bound, playlists[i]) && playlists[i].has_track(id)));
        }
    }
}

/// The rows of the list to load stand to the rows wanted as the list stands to the rows shown, rounded down;
/// with nothing shown as many are loaded as are wanted.
pub proof fn law_loading_ahead_goes_by_the_proportion(want: int, raw_len: int, content_len: int)
    requires
        0 <= want,
        0 <= raw_len,
        0 < content_len,
        want * raw_len <= usize::MAX,
    ensures
        raw_target(want, raw_len, 0) == want,
        raw_target(want, raw_len, content_len) * content_len <= want * raw_len,
        want * raw_len < (raw_target(want, raw_len, content_len) + 1) * content_len,
{
    let product = want * raw_len;
    assert(product / content_len * content_len <= product && product < (product / content_len + 1) * content_len)
        by (nonlinear_arith)
        requires
            product >= 0,
            content_len > 0,
    ;
    assert(product >= 0) by (nonlinear_arith)
        requires
            product == want * raw_len,
            want >= 0,
            raw_len >= 0,
    ;
}

/// The messages name the state of the filter and the playlist that was not found.
pub proof fn law_messages_say_what_happened(hide_sorted: bool, name: Seq<char>)
    ensures
        filter_message(hide_sorted) == "Hiding already-sorted tracks: "@ + if hide_sorted {
            "on"@
        } else {
            "off"@
        },
        no_playlist_message(name).len() == 20 + name.len(),
        no_playlist_message(name).subrange(19, 19int + name.len()) == name,
        no_playlist_message(name).take(19) == "No playlist named \""@,
        no_playlist_message(name).last() == '"',
{
    reveal_strlit("Hiding already-sorted tracks: on");
    reveal_strlit("Hiding already-sorted tracks: off");
    reveal_strlit("Hiding already-sorted tracks: ");
    reveal_strlit("on");
    reveal_strlit("off");
    reveal_strlit("No playlist named \"");
    reveal_strlit("\"");
    assert(filter_message(hide_sorted) =~= "Hiding already-sorted tracks: "@ + if hide_sorted {
        "on"@
    } else {
        "off"@
    });
    assert(no_playlist_message(name).subrange(19, 19int + name.len()) =~= name);
    assert(no_playlist_message(name).take(19) =~= "No playlist named \""@);
}

// --- Laws of the operations ------------------------------------------------------------------

/// [`SavedTracksView::on_command`] for the key of a playlist, told by the playlist's items: exactly one change is
/// queued, for the selected row's track and for the first playlist of that name alone; it takes the track out if
/// it is anywhere among the items and puts it in if not. With the filter on, the rows with the track's id go, and
/// playback goes on to the next track if that track is the one being played; with the filter off the rows stay.
pub proof fn law_on_command_toggles(
    view: &mut SavedTracksView,
    name: String,
    cmd: &Command,
    selected: usize,
    current: &Option<String>,
    playing: bool,
    liked: &LikedSongs,
    playlists: &Vec<Playlist>,
    sort: &mut SortState,
    r: Result<CommandAction, String>,
    i: int,
)
    requires
        call_ensures(SavedTracksView::on_command, (view, cmd, selected, current, playing, liked, playlists, sort), r),
        *cmd == Command::AddToPlaylist(name),
        selected < old(view)@.content.len(),
        0 <= i < playlists@.len(),
        ascii_lower(playlists@[i].name@) == ascii_lower(name@),
        forall|j: int| 0 <= j < i ==> ascii_lower((#[trigger] playlists@[j]).name@) != ascii_lower(name@),
    ensures
        ({
            let track = old(view)@.content[selected as int];
            let p = playlists@[i]@;
            let inside = track.id is Some && p.tracks is Some && exists|k: int|
                0 <= k < p.tracks->0.len() && match #[trigger] p.tracks->0[k] {
                    PlayableView::Track(t) => t.id == track.id,
                    PlayableView::Episode(e) => Some(e.id) == track.id,
                };
            let queue = final(sort)@.queue;
            let hides = old(view)@.hide_sorted && track.id is Some;
            &&& queue.len() == old(sort)@.queue.len() + 1
            &&& queue.take(old(sort)@.queue.len() as int) == old(sort)@.queue
            &&& queue.last().track == track
            &&& inside ==> queue.last().remove_from == seq![p.id] && queue.last().append_to is None
            &&& !inside ==> queue.last().remove_from.len() == 0 && queue.last().append_to == Some(p.id)
            &&& final(sort)@.bound == old(sort)@.bound
            &&& r matches Ok(CommandAction::Filed { advance, row_gone })
            &&& row_gone == hides
            &&& advance <==> hides && playing && current is Some && Some(current->0@) == track.id
            &&& !hides ==> final(view)@ == old(view)@
            &&& hides ==> picked_from(
                old(view)@.content,
                |t: TrackView| t.id != track.id,
                final(view)@.content,
            ) && final(view)@.hide_sorted && final(view)@.seen_version == old(view)@.seen_version
        }),
{
    let all = playlists_of(playlists@);
    let track = old(view)@.content[selected as int];
    let p = playlists@[i]@;
    assert(all[i] == p);
    assert forall|j: int| 0 <= j < i implies ascii_lower((#[trigger] all[j]).name) != ascii_lower(name@) by {
        assert(all[j].name == playlists@[j].name@);
    }
    lemma_first_found(all, i, name@, p.id);
    law_key_press_asks_for_a_toggle(p, track);
    let queue = final(sort)@.queue;
    assert(queue == old(sort)@.queue.push(toggling(p, track)));
    assert(queue.take(old(sort)@.queue.len() as int) =~= old(sort)@.queue);
    if track.id is Some {
        law_filed_rows_go(old(view)@.content, track.id->0);
        assert((|t: TrackView| t.id != track.id) =~= (|t: TrackView| t.id != Some(track.id->0)));
    }
}

/// [`SavedTracksView::on_command`] for a name that no playlist has changes nothing and says so.
pub proof fn law_on_command_for_an_unknown_playlist(
    view: &mut SavedTracksView,
    name: String,
    cmd: &Command,
    selected: usize,
    current: &Option<String>,
    playing: bool,
    liked: &LikedSongs,
    playlists: &Vec<Playlist>,
    sort: &mut SortState,
    r: Result<CommandAction, String>,
)
    requires
        call_ensures(SavedTracksView::on_command, (view, cmd, selected, current, playing, liked, playlists, sort), r),
        *cmd == Command::AddToPlaylist(name),
        selected < old(view)@.content.len(),
        forall|j: int| 0 <= j < playlists@.len() ==> ascii_lower((#[trigger] playlists@[j]).name@) != ascii_lower(name@),
    ensures
        r is Err,
        r->Err_0@ == "No playlist named \""@ + name@ + "\""@,
        final(view)@ == old(view)@,
        final(sort)@ == old(sort)@,
{
    let all = playlists_of(playlists@);
    law_name_finds_the_first_playlist(all, name@);
    if let Some(p) = first_named(all, name@) {
        let j = choose|j: int|
            0 <= j < all.len() && #[trigger] all[j] == p && ascii_lower(p.name) == ascii_lower(name@) && forall|k: int|
                0 <= k < j ==> ascii_lower((#[trigger] all[k]).name) != ascii_lower(name@);
        assert(ascii_lower(playlists@[j].name@) == ascii_lower(name@));
    }
}

/// [`SavedTracksView::on_command`] for Backspace queues one change, for the selected row's track: out of every
/// playlist whose name has a key and that holds it, in their order, and into none. The rows stay.
pub proof fn law_on_command_unfiles(
    view: &mut SavedTracksView,
    cmd: &Command,
    selected: usize,
    current: &Option<String>,
    playing: bool,
    liked: &LikedSongs,
    playlists: &Vec<Playlist>,
    sort: &mut SortState,
    r: Result<CommandAction, String>,
)
    requires
        call_ensures(SavedTracksView::on_command, (view, cmd, selected, current, playing, liked, playlists, sort), r),
        *cmd == Command::RemoveFromPlaylists,
        selected < old(view)@.content.len(),
        old(view)@.content[selected as int].id is Some,
    ensures
        ({
            let track = old(view)@.content[selected as int];
            let all = playlists_of(playlists@);
            let holds = |p: PlaylistView|
                old(sort)@.bound.contains_key(ascii_lower(p.name)) && p.has_track(track.id->0);
            let queue = final(sort)@.queue;
            &&& queue.len() == old(sort)@.queue.len() + 1
            &&& queue.take(old(sort)@.queue.len() as int) == old(sort)@.queue
            &&& queue.last().track == track
            &&& queue.last().append_to is None
            &&& exists|held: Seq<PlaylistView>| #[trigger]
                picked_from(all, holds, held) && queue.last().remove_from == held.map_values(
                    |p: PlaylistView| p.id,
                )
            &&& r == Ok::<CommandAction, String>(CommandAction::Unfiled)
            &&& final(view)@ == old(view)@
        }),
{
    let track = old(view)@.content[selected as int];
    let all = playlists_of(playlists@);
    law_unfiling_names_each_holding_playlist(old(sort)@.bound, all, track);
    let queue = final(sort)@.queue;
    assert(queue == old(sort)@.queue.push(unfiling(old(sort)@.bound, all, track)));
    assert(queue.take(old(sort)@.queue.len() as int) =~= old(sort)@.queue);
}

/// [`SavedTracksView::on_command`] without a selected row, and for commands that are no concern of the view,
/// changes nothing; going back is left to the queue.
pub proof fn law_on_command_leaves_the_rest(
    view: &mut SavedTracksView,
    cmd: &Command,
    selected: usize,
    current: &Option<String>,
    playing: bool,
    liked: &LikedSongs,
    playlists: &Vec<Playlist>,
    sort: &mut SortState,
    r: Result<CommandAction, String>,
)
    requires
        call_ensures(SavedTracksView::on_command, (view, cmd, selected, current, playing, liked, playlists, sort), r),
        !(cmd is ToggleSortFilter),
        cmd is AddToPlaylist || cmd is RemoveFromPlaylists ==> selected >= old(view)@.content.len(),
    ensures
        final(view)@ == old(view)@,
        final(sort)@ == old(sort)@,
        r is Ok,
        r->Ok_0 is GoBack <==> cmd is Previous,
        r->Ok_0 is Nothing <==> cmd is AddToPlaylist || cmd is RemoveFromPlaylists,
        r->Ok_0 is Pass || r->Ok_0 is GoBack || r->Ok_0 is Nothing,
{
}

/// [`SavedTracksView::on_command`] for the filter key switches the filter, says which way, and shows the rows that
/// go with it: all of the list, or those that no playlist whose name has a key holds, in their order.
pub proof fn law_on_command_switches_the_filter(
    view: &mut SavedTracksView,
    cmd: &Command,
    selected: usize,
    current: &Option<String>,
    playing: bool,
    liked: &LikedSongs,
    playlists: &Vec<Playlist>,
    sort: &mut SortState,
    r: Result<CommandAction, String>,
)
    requires
        call_ensures(SavedTracksView::on_command, (view, cmd, selected, current, playing, liked, playlists, sort), r),
        *cmd == Command::ToggleSortFilter,
    ensures
        ({
            let all = playlists_of(playlists@);
            let bound = old(sort)@.bound;
            let after = final(view)@;
            &&& after.hide_sorted == !old(view)@.hide_sorted
            &&& after.seen_version == liked@.version
            &&& r is Ok && r->Ok_0 is Refiltered
            &&& r->Ok_0->Refiltered_0@ == "Hiding already-sorted tracks: "@ + if after.hide_sorted {
                "on"@
            } else {
                "off"@
            }
            &&& !after.hide_sorted ==> after.content == liked@.tracks
            &&& after.hide_sorted ==> picked_from(
                liked@.tracks,
                |t: TrackView|
                    t.id is None || forall|i: int|
                        0 <= i < all.len() && bound.contains_key(ascii_lower((#[trigger] all[i]).name))
                            ==> !all[i].has_track(t.id->0),
                after.content,
            )
            &&& final(sort)@ == old(sort)@
        }),
{
    let switched = SavedView { hide_sorted: !old(view)@.hide_sorted, ..old(view)@ };
    law_rows_shown_are_the_unsorted_in_order(switched, liked@, old(sort)@.bound, playlists_of(playlists@));
    law_messages_say_what_happened(switched.hide_sorted, Seq::empty());
}

/// [`SavedTracksView::sync`] and [`SavedTracksView::wrap_needs_relayout`] go by the version of the list: a list that
/// the rows were built from is left alone, another is shown anew.
pub proof fn law_sync(
    view: &mut SavedTracksView,
    liked: &LikedSongs,
    sort: &SortState,
    playlists: &Vec<Playlist>,
    list_needs_relayout: bool,
    r: bool,
)
    requires
        call_ensures(SavedTracksView::sync, (view, liked, sort, playlists), ()),
        call_ensures(SavedTracksView::wrap_needs_relayout, (&*old(view), liked, list_needs_relayout), r),
    ensures
        final(view)@.seen_version == liked@.version,
        final(view)@.hide_sorted == old(view)@.hide_sorted,
        old(view)@.seen_version == liked@.version ==> final(view)@ == old(view)@ && r == list_needs_relayout,
        old(view)@.seen_version != liked@.version ==> r && (!old(view)@.hide_sorted ==> final(view)@.content
            == liked@.tracks),
{
    law_rows_shown_are_the_unsorted_in_order(old(view)@, liked@, sort@.bound, playlists_of(playlists@));
}

/// [`SavedTracksView::keep_ahead`] asks for nothing while a hundred rows past the last visible one are shown;
/// otherwise it asks for a hundred rows past the wanted row, translated into rows of the list by the proportion of
/// rows shown.
pub proof fn law_keep_ahead(view: &SavedTracksView, last_visible: usize, liked: &LikedSongs, r: Option<usize>)
    requires
        call_ensures(SavedTracksView::keep_ahead, (view, last_visible, liked), r),
        last_visible + 100 <= usize::MAX,
        (last_visible + 100) * liked@.tracks.len() + 100 <= usize::MAX,
    ensures
        ({
            let want = last_visible + 100;
            let shown = view@.content.len();
            let loaded = liked@.tracks.len();
            &&& r is None <==> shown >= want
            &&& r is Some && shown == 0 && want + 100 <= usize::MAX ==> r->0 == want + 100
            &&& r is Some && shown > 0 ==> r->0 >= 100 && (r->0 - 100) * shown <= want * loaded && want * loaded < (r->0
                - 99) * shown
        }),
{
    let want = last_visible + 100;
    let shown = view@.content.len() as int;
    let loaded = liked@.tracks.len() as int;
    assert(want * loaded <= usize::MAX);
    if shown > 0 {
        law_loading_ahead_goes_by_the_proportion(want, loaded, shown);
        let target = raw_target(want, loaded, shown);
        assert(0 <= target <= want * loaded) by (nonlinear_arith)
            requires
                target * shown <= want * loaded,
                want * loaded < (target + 1) * shown,
                shown > 0,
                want >= 0,
                loaded >= 0,
        ;
    }
}

/// [`SavedTracksView::virtual_len`] is the number of liked songs, if it is known, while the filter is off, and else
/// leaves the length to the rows.
pub proof fn law_virtual_len(view: &SavedTracksView, liked: &LikedSongs, r: usize)
    requires
        call_ensures(SavedTracksView::virtual_len, (view, liked), r),
    ensures
        !view@.hide_sorted && liked@.meta.total is Some ==> Some(r) == liked@.meta.total,
        view@.hide_sorted || liked@.meta.total is None ==> r == 0,
{
}

/// [`SavedTracksView::notify_selected`] tells the scanner of the row that is selected, if there is one.
pub proof fn law_notify_selected(view: &SavedTracksView, selected: usize, scanner: &mut BpmScanner, now: u64)
    requires
        call_ensures(SavedTracksView::notify_selected, (view, selected, scanner, now), ()),
        selected < view@.content.len() ==> view@.content[selected as int].id is Some,
    ensures
        selected >= view@.content.len() ==> final(scanner)@ == old(scanner)@,
        selected < view@.content.len() ==> (final(scanner)@.focus matches Some((id, _)) && Some(id)
            == view@.content[selected as int].id),
{
}

/// A [`SavedTracksView::new`] view shows the whole list, and [`SavedTracksView::rebuild`] shows it anew: all of it, or
/// with the filter on the rows that no playlist whose name has a key holds, in their order.
pub proof fn law_rebuild(
    liked: &LikedSongs,
    sort: &SortState,
    playlists: &Vec<Playlist>,
    made: SavedTracksView,
    view: &mut SavedTracksView,
)
    requires
        call_ensures(SavedTracksView::new, (liked, sort, playlists), made),
        call_ensures(SavedTracksView::rebuild, (view, liked, sort, playlists), ()),
    ensures
        made@.content == liked@.tracks && !made@.hide_sorted && made@.seen_version == liked@.version,
        final(view)@.hide_sorted == old(view)@.hide_sorted && final(view)@.seen_version == liked@.version,
        !old(view)@.hide_sorted ==> final(view)@.content == liked@.tracks,
        ({
            let all = playlists_of(playlists@);
            old(view)@.hide_sorted ==> picked_from(
                liked@.tracks,
                |t: TrackView|
                    t.id is None || forall|i: int|
                        0 <= i < all.len() && sort@.bound.contains_key(ascii_lower((#[trigger] all[i]).name))
                            ==> !all[i].has_track(t.id->0),
                final(view)@.content,
            )
        }),
{
    law_rows_shown_are_the_unsorted_in_order(old(view)@, liked@, sort@.bound, playlists_of(playlists@));
}

/// Whatever the command is, [`SavedTracksView::on_command`] leaves the keys of the playlists as they are and the
/// sorting state well formed.
pub proof fn law_commands_leave_the_keys(
    view: &mut SavedTracksView,
    cmd: &Command,
    selected: usize,
    current: &Option<String>,
    playing: bool,
    liked: &LikedSongs,
    playlists: &Vec<Playlist>,
    sort: &mut SortState,
    r: Result<CommandAction, String>,
)
    requires
        call_ensures(SavedTracksView::on_command, (view, cmd, selected, current, playing, liked, playlists, sort), r),
    ensures
        final(sort)@.bound == old(sort)@.bound,
        final(sort).wf(),
{
}

} // verus!
