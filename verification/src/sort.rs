//! The sorting state: which playlists have a key bound to them, and the queue of
//! file-this-track-away playlist mutations.

use std::collections::VecDeque;

use vstd::hash_map::StringHashMap;
use vstd::prelude::*;

#[allow(unused_imports)]
use crate::filters::{lemma_filter_all, lemma_filter_picks, lemma_filter_within, lemma_picks_count, picked_from, picks};
use crate::model::{Playable, Playlist, Track};
#[allow(unused_imports)]
use crate::model::{holds_id, playables_of, playlists_of, PlayableView, PlaylistView, TrackView};
use crate::text::copy_texts;
#[allow(unused_imports)]
use crate::text::{ascii_lower, text_of, texts_of};

verus! {

/// Whether a track has been filed into a key-bound playlist. See [`SortState::sort_status`].
pub enum SortStatus {
    /// No playlist is currently bound to a key, so the concept does not apply.
    Unavailable,
    /// Not filed into any bound playlist yet.
    Unsorted,
    /// Filed into the playlists bound to these keys. A track can be filed into more than one bound
    /// playlist at once, so this holds every matching key, not just the first found.
    Sorted(Vec<String>),
}

/// The contents of a [`SortStatus`].
#[verifier::ext_equal]
pub enum SortStatusView {
    Unavailable,
    Unsorted,
    Sorted(Seq<Seq<char>>),
}

impl View for SortStatus {
    type V = SortStatusView;

    open spec fn view(&self) -> SortStatusView {
        match self {
            SortStatus::Unavailable => SortStatusView::Unavailable,
            SortStatus::Unsorted => SortStatusView::Unsorted,
            SortStatus::Sorted(keys) => SortStatusView::Sorted(texts_of(keys@)),
        }
    }
}

/// A pending playlist change queued by [`SortState::queue_playlist_mutation`]. Playlists are
/// referenced by id rather than by the (possibly already stale) copy the caller had in hand, since
/// the mutation may sit in the queue behind others that touch the same playlist: by the time it
/// actually runs, the current copy is looked up, so that it never clobbers a change made by a
/// mutation that was queued earlier.
pub struct PlaylistMutation {
    /// Ids of playlists to remove `track` from.
    pub remove_from: Vec<String>,
    /// Id of the playlist to append `track` to, if given and it is not already in it.
    pub append_to: Option<String>,
    pub track: Track,
}

/// The contents of a [`PlaylistMutation`].
#[verifier::ext_equal]
pub struct MutationView {
    pub remove_from: Seq<Seq<char>>,
    pub append_to: Option<Seq<char>>,
    pub track: TrackView,
}

impl View for PlaylistMutation {
    type V = MutationView;

    open spec fn view(&self) -> MutationView {
        MutationView {
            remove_from: texts_of(self.remove_from@),
            append_to: text_of(self.append_to),
            track: self.track@,
        }
    }
}

/// The contents of a queue of mutations.
pub open spec fn mutations_of(v: Seq<PlaylistMutation>) -> Seq<MutationView> {
    v.map_values(|m: PlaylistMutation| m@)
}

/// The ids of some playlists.
pub open spec fn ids_of(v: Seq<PlaylistView>) -> Seq<Seq<char>> {
    v.map_values(|p: PlaylistView| p.id)
}

/// The bindings of a list of pairs of a lower-case playlist name and its key: of two pairs with
/// one name the later counts.
pub open spec fn bindings_of(pairs: Seq<(String, String)>) -> Map<Seq<char>, Seq<char>>
    decreases pairs.len(),
{
    if pairs.len() == 0 {
        Map::empty()
    } else {
        bindings_of(pairs.drop_last()).insert(pairs.last().0@, pairs.last().1@)
    }
}

/// Whether the playlist's name is bound to a key.
pub open spec fn is_bound(bound: Map<Seq<char>, Seq<char>>, p: PlaylistView) -> bool {
    bound.contains_key(ascii_lower(p.name))
}

/// The keys of the bound playlists that hold the track, in the order of the playlists.
pub open spec fn filed_keys(
    bound: Map<Seq<char>, Seq<char>>,
    playlists: Seq<PlaylistView>,
    track_id: Seq<char>,
) -> Seq<Seq<char>>
    decreases playlists.len(),
{
    if playlists.len() == 0 {
        Seq::empty()
    } else {
        let keys = filed_keys(bound, playlists.drop_last(), track_id);
        let p = playlists.last();
        if is_bound(bound, p) && p.has_track(track_id) {
            keys.push(bound[ascii_lower(p.name)])
        } else {
            keys
        }
    }
}

/// How the track is filed.
pub open spec fn status_of(
    bound: Map<Seq<char>, Seq<char>>,
    playlists: Seq<PlaylistView>,
    track_id: Seq<char>,
) -> SortStatusView {
    let keys = filed_keys(bound, playlists, track_id);
    if bound.dom() == Set::<Seq<char>>::empty() {
        SortStatusView::Unavailable
    } else if keys.len() == 0 {
        SortStatusView::Unsorted
    } else {
        SortStatusView::Sorted(keys)
    }
}

/// Owns the bound playlist keys and the queue of playlist mutations.
pub struct SortState {
    /// Key by lower-case playlist name.
    bound_playlist_keys: StringHashMap<String>,
    /// The names in `bound_playlist_keys`, each once.
    bound_names: Vec<String>,
    /// Playlist changes to be applied one at a time, the oldest first.
    playlist_mutation_queue: VecDeque<PlaylistMutation>,
}

/// The contents of a [`SortState`].
#[verifier::ext_equal]
pub struct SortView {
    /// Key by lower-case playlist name.
    pub bound: Map<Seq<char>, Seq<char>>,
    /// The queued mutations, the oldest first.
    pub queue: Seq<MutationView>,
}

impl View for SortState {
    type V = SortView;

    closed spec fn view(&self) -> SortView {
        SortView {
            bound: self.bound_playlist_keys@.map_values(|k: String| k@),
            queue: mutations_of(self.playlist_mutation_queue@),
        }
    }
}

impl SortState {
    /// The list of names and the map of keys agree.
    pub closed spec fn wf(self) -> bool {
        &&& texts_of(self.bound_names@).no_duplicates()
        &&& texts_of(self.bound_names@).to_set() == self.bound_playlist_keys@.dom()
    }

    /// A state without bindings and with an empty queue.
    pub fn create() -> (r: Self)
        ensures
            r.wf(),
            r@ == (SortView { bound: Map::empty(), queue: Seq::empty() }),
    {
        let r = SortState {
            bound_playlist_keys: StringHashMap::new(),
            bound_names: Vec::new(),
            playlist_mutation_queue: VecDeque::new(),
        };
        assert(texts_of(r.bound_names@).to_set() =~= r.bound_playlist_keys@.dom());
        assert(r@.bound =~= Map::empty());
        assert(r@.queue =~= Seq::empty());
        r
    }

    /// Replace the bound playlist keys by those of the current configuration, given as pairs of a
    /// lower-case playlist name and the key bound to it. Call this whenever keybindings change.
    pub fn refresh(&mut self, bindings: &Vec<(String, String)>)
        ensures
            final(self).wf(),
            final(self)@.bound == bindings_of(bindings@),
            final(self)@.queue == old(self)@.queue,
    {
        let mut keys: StringHashMap<String> = StringHashMap::new();
        let mut names: Vec<String> = Vec::new();
        assert(texts_of(names@).to_set() =~= keys@.dom());
        assert(bindings@.take(0) =~= Seq::empty());
        assert(keys@.map_values(|k: String| k@) =~= bindings_of(bindings@.take(0)));
        for i in 0..bindings.len()
            invariant
                texts_of(names@).no_duplicates(),
                texts_of(names@).to_set() == keys@.dom(),
                keys@.map_values(|k: String| k@) == bindings_of(bindings@.take(i as int)),
        {
            let name = bindings[i].0.clone();
            let key = bindings[i].1.clone();
            let ghost names_before = names@;
            let ghost keys_before = keys@;
            if !keys.contains_key(name.as_str()) {
                names.push(name.clone());
                proof {
                    let before = texts_of(names_before);
                    assert(texts_of(names@) =~= before.push(name@));
                    assert(!before.contains(name@)) by {
                        if before.contains(name@) {
                            assert(before.to_set().contains(name@));
                        }
                    }
                    assert forall|s: Seq<char>| texts_of(names@).to_set().contains(s) implies keys_before.dom().insert(
                        name@,
                    ).contains(s) by {
                        let j = choose|j: int| 0 <= j < texts_of(names@).len() && texts_of(names@)[j] == s;
                        if j < before.len() {
                            assert(before[j] == s);
                            assert(before.to_set().contains(s));
                        }
                    }
                    assert forall|s: Seq<char>| keys_before.dom().insert(name@).contains(s) implies texts_of(
                        names@,
                    ).to_set().contains(s) by {
                        if s == name@ {
                            assert(texts_of(names@)[before.len() as int] == s);
                        } else {
                            assert(before.to_set().contains(s));
                            let j = choose|j: int| 0 <= j < before.len() && before[j] == s;
                            assert(texts_of(names@)[j] == s);
                        }
                    }
                    assert(texts_of(names@).to_set() =~= keys_before.dom().insert(name@));
                }
            } else {
                assert(keys_before.dom().insert(name@) =~= keys_before.dom());
            }
            keys.insert(name, key);
            assert(bindings@.take(i + 1).drop_last() =~= bindings@.take(i as int));
            assert(keys@.map_values(|k: String| k@) =~= bindings_of(bindings@.take(i + 1)));
        }
        assert(bindings@.take(bindings@.len() as int) =~= bindings@);
        self.bound_playlist_keys = keys;
        self.bound_names = names;
    }

    /// Names (lower-case) of the playlists that currently have a key bound to them, each once.
    pub fn bound_playlist_names(&self) -> (r: Vec<String>)
        requires
            self.wf(),
        ensures
            texts_of(r@).no_duplicates(),
            texts_of(r@).to_set() == self@.bound.dom(),
    {
        assert(self@.bound.dom() =~= self.bound_playlist_keys@.dom());
        copy_texts(&self.bound_names)
    }

    /// The key bound to the playlist of this name, if any.
    pub fn key_of(&self, name: &String) -> (r: Option<String>)
        ensures
            text_of(r) == (if self@.bound.contains_key(ascii_lower(name@)) {
                Some(self@.bound[ascii_lower(name@)])
            } else {
                None
            }),
    {
        let lower = name.as_str().to_ascii_lowercase();
        match self.bound_playlist_keys.get(lower.as_str()) {
            Some(key) => Some(key.clone()),
            None => None,
        }
    }

    /// Whether the track has already been filed into key-bound playlists, and which keys it is
    /// filed under if so.
    pub fn sort_status(&self, playlists: &Vec<Playlist>, track_id: &String) -> (r: SortStatus)
        ensures
            r@ == status_of(self@.bound, playlists_of(playlists@), track_id@),
    {
        let ghost bound = self@.bound;
        let ghost all = playlists_of(playlists@);
        if self.bound_playlist_keys.is_empty() {
            assert(bound.dom() =~= Set::<Seq<char>>::empty());
            return SortStatus::Unavailable;
        }
        assert(bound.dom() =~= self.bound_playlist_keys@.dom());
        let mut keys: Vec<String> = Vec::new();
        assert(all.take(0) =~= Seq::empty());
        assert(texts_of(keys@) =~= filed_keys(bound, all.take(0), track_id@));
        for i in 0..playlists.len()
            invariant
                bound == self@.bound,
                all == playlists_of(playlists@),
                texts_of(keys@) == filed_keys(bound, all.take(i as int), track_id@),
        {
            let p = &playlists[i];
            assert(all.take(i + 1).drop_last() =~= all.take(i as int));
            assert(all.take(i + 1).last() == p@);
            match self.key_of(&p.name) {
                Some(key) => {
                    if p.has_track(track_id) {
                        let ghost before = keys@;
                        keys.push(key);
                        assert(texts_of(keys@) =~= texts_of(before).push(key@));
                    }
                },
                None => {},
            }
        }
        assert(all.take(all.len() as int) =~= all);
        if keys.len() == 0 {
            SortStatus::Unsorted
        } else {
            SortStatus::Sorted(keys)
        }
    }

    /// Queue `track` to be moved into `append_to`, dropping it from `remove_from` afterwards.
    /// Liked Songs is never touched. Pass `None` for `append_to` to just remove the track from
    /// `remove_from` without filing it anywhere else.
    pub fn queue_playlist_mutation(&mut self, track: Track, remove_from: &Vec<Playlist>, append_to: Option<&Playlist>)
        requires
            old(self).wf(),
        ensures
            final(self).wf(),
            final(self)@.bound == old(self)@.bound,
            final(self)@.queue == old(self)@.queue.push(
                MutationView {
                    remove_from: ids_of(playlists_of(remove_from@)),
                    append_to: match append_to {
                        Some(p) => Some(p@.id),
                        None => None,
                    },
                    track: track@,
                },
            ),
    {
        let mut ids: Vec<String> = Vec::new();
        for i in 0..remove_from.len()
            invariant
                ids@.len() == i,
                forall|j: int| 0 <= j < i ==> (#[trigger] ids@[j])@ == remove_from@[j].id@,
        {
            ids.push(remove_from[i].id.clone());
        }
        assert(texts_of(ids@) =~= ids_of(playlists_of(remove_from@)));
        let append_id = match append_to {
            Some(p) => Some(p.id.clone()),
            None => None,
        };
        let ghost before = self.playlist_mutation_queue@;
        let mutation = PlaylistMutation { remove_from: ids, append_to: append_id, track };
        self.playlist_mutation_queue.push_back(mutation);
        assert(mutations_of(self.playlist_mutation_queue@) =~= mutations_of(before).push(mutation@));
    }

    /// Take the oldest queued mutation.
    pub fn next_mutation(&mut self) -> (r: Option<PlaylistMutation>)
        requires
            old(self).wf(),
        ensures
            final(self).wf(),
            final(self)@.bound == old(self)@.bound,
            match r {
                Some(m) => {
                    &&& old(self)@.queue.len() > 0
                    &&& m@ == old(self)@.queue[0]
                    &&& final(self)@.queue == old(self)@.queue.skip(1)
                },
                None => old(self)@.queue.len() == 0 && final(self)@.queue == old(self)@.queue,
            },
    {
        let ghost before = self.playlist_mutation_queue@;
        let r = self.playlist_mutation_queue.pop_front();
        proof {
            if before.len() > 0 {
                assert(mutations_of(self.playlist_mutation_queue@) =~= mutations_of(before).skip(1));
                assert(mutations_of(before)[0] == before[0]@);
            }
        }
        r
    }
}

// --- Applying a mutation ---------------------------------------------------------------------

/// The items that have the id.
pub open spec fn occurrences_of(items: Seq<PlayableView>, id: Seq<char>) -> Seq<PlayableView> {
    items.filter(|p: PlayableView| p.id() == Some(id))
}

/// The items that do not have the id.
pub open spec fn others_of(items: Seq<PlayableView>, id: Seq<char>) -> Seq<PlayableView> {
    items.filter(|p: PlayableView| p.id() != Some(id))
}

/// Whether one of the items is a local file.
pub open spec fn any_local(items: Seq<PlayableView>) -> bool {
    exists|i: int| 0 <= i < items.len() && (#[trigger] items[i]).is_local_track()
}

/// How to remove a track from a playlist.
pub enum DeletePlan {
    /// The playlist is not loaded or does not hold the track.
    Nothing,
    /// An occurrence is a local file, which cannot be deleted.
    LocalFile,
    /// Ask the service to delete these items, all in one call.
    Delete(Vec<Playable>),
}

/// The contents of a [`DeletePlan`].
#[verifier::ext_equal]
pub enum DeletePlanView {
    Nothing,
    LocalFile,
    Delete(Seq<PlayableView>),
}

impl View for DeletePlan {
    type V = DeletePlanView;

    open spec fn view(&self) -> DeletePlanView {
        match self {
            DeletePlan::Nothing => DeletePlanView::Nothing,
            DeletePlan::LocalFile => DeletePlanView::LocalFile,
            DeletePlan::Delete(items) => DeletePlanView::Delete(playables_of(items@)),
        }
    }
}

/// The plan to remove the track from the playlist.
pub open spec fn delete_plan(playlist: PlaylistView, id: Seq<char>) -> DeletePlanView {
    match playlist.tracks {
        None => DeletePlanView::Nothing,
        Some(items) => {
            let found = occurrences_of(items, id);
            if found.len() == 0 {
                DeletePlanView::Nothing
            } else if any_local(found) {
                DeletePlanView::LocalFile
            } else {
                DeletePlanView::Delete(found)
            }
        },
    }
}

/// The playlist without any occurrence of the track.
pub open spec fn without_track(playlist: PlaylistView, id: Seq<char>) -> PlaylistView {
    PlaylistView {
        tracks: match playlist.tracks {
            Some(items) => Some(others_of(items, id)),
            None => None,
        },
        ..playlist
    }
}

/// The playlist with the track at its end.
pub open spec fn with_track(playlist: PlaylistView, track: TrackView) -> PlaylistView {
    PlaylistView {
        tracks: match playlist.tracks {
            Some(items) => Some(items.push(PlayableView::Track(track))),
            None => None,
        },
        ..playlist
    }
}

/// Plan the removal of every occurrence of the track from the playlist in a single call, not just
/// of the first one found. A playlist can hold the same track more than once, and leaving
/// duplicates behind after "removing" a track is surprising.
pub fn delete_all_occurrences(playlist: &Playlist, track_id: &String) -> (r: DeletePlan)
    ensures
        r@ == delete_plan(playlist@, track_id@),
{
    let items = match &playlist.tracks {
        Some(items) => items,
        None => {
            return DeletePlan::Nothing;
        },
    };
    let ghost all = playables_of(items@);
    let ghost same = |p: PlayableView| p.id() == Some(track_id@);
    let mut found: Vec<Playable> = Vec::new();
    let mut local = false;
    assert(all.take(0) =~= Seq::empty());
    assert(playables_of(found@) =~= all.take(0).filter(same)) by {
        reveal(Seq::filter);
    }
    for i in 0..items.len()
        invariant
            all == playables_of(items@),
            same == (|p: PlayableView| p.id() == Some(track_id@)),
            playables_of(found@) == all.take(i as int).filter(same),
            local == any_local(playables_of(found@)),
    {
        proof {
            assert(all.take(i + 1).drop_last() =~= all.take(i as int));
            assert(all.take(i + 1).last() == items@[i as int]@);
            reveal(Seq::filter);
        }
        if items[i].has_id(track_id) {
            let ghost before = playables_of(found@);
            let is_local = items[i].is_local_track();
            found.push(items[i].clone());
            let ghost now = playables_of(found@);
            proof {
                assert(now =~= before.push(items@[i as int]@));
                if is_local {
                    assert(now[before.len() as int].is_local_track());
                }
                if any_local(before) {
                    let j = choose|j: int| 0 <= j < before.len() && (#[trigger] before[j]).is_local_track();
                    assert(now[j].is_local_track());
                }
                if any_local(now) {
                    let j = choose|j: int| 0 <= j < now.len() && (#[trigger] now[j]).is_local_track();
                    if j < before.len() {
                        assert(before[j].is_local_track());
                    }
                }
            }
            local = local || is_local;
        }
    }
    assert(all.take(all.len() as int) =~= all);
    if found.len() == 0 {
        DeletePlan::Nothing
    } else if local {
        DeletePlan::LocalFile
    } else {
        DeletePlan::Delete(found)
    }
}

/// Take note of the service's answer to a deletion: on success the playlist loses every occurrence
/// of the track, otherwise it stays as it is. Returns whether the playlist has changed and its
/// cached copy has to be updated.
pub fn occurrences_deleted(playlist: &mut Playlist, track_id: &String, deleted: bool) -> (r: bool)
    ensures
        r == deleted,
        final(playlist)@ == if deleted {
            without_track(old(playlist)@, track_id@)
        } else {
            old(playlist)@
        },
{
    if !deleted {
        return false;
    }
    let kept = match &playlist.tracks {
        Some(items) => Some(copy_others(items, track_id)),
        None => None,
    };
    playlist.tracks = kept;
    true
}

/// Copies of the items that do not have the id.
fn copy_others(items: &Vec<Playable>, id: &String) -> (r: Vec<Playable>)
    ensures
        playables_of(r@) == others_of(playables_of(items@), id@),
{
    let ghost all = playables_of(items@);
    let ghost other = |p: PlayableView| p.id() != Some(id@);
    let mut kept: Vec<Playable> = Vec::new();
    assert(all.take(0) =~= Seq::empty());
    assert(playables_of(kept@) =~= all.take(0).filter(other)) by {
        reveal(Seq::filter);
    }
    for i in 0..items.len()
        invariant
            all == playables_of(items@),
            other == (|p: PlayableView| p.id() != Some(id@)),
            playables_of(kept@) == all.take(i as int).filter(other),
    {
        proof {
            assert(all.take(i + 1).drop_last() =~= all.take(i as int));
            assert(all.take(i + 1).last() == items@[i as int]@);
            reveal(Seq::filter);
        }
        if !items[i].has_id(id) {
            let ghost before = playables_of(kept@);
            kept.push(items[i].clone());
            assert(playables_of(kept@) =~= before.push(items@[i as int]@));
        }
    }
    assert(all.take(all.len() as int) =~= all);
    kept
}

/// Take note of the service's answer to an append: on success a loaded playlist gains the track at
/// its end. Returns whether the playlist has changed and its cached copy has to be updated.
pub fn track_appended(playlist: &mut Playlist, track: Track, appended: bool) -> (r: bool)
    ensures
        r == (appended && old(playlist)@.tracks is Some),
        final(playlist)@ == if appended {
            with_track(old(playlist)@, track@)
        } else {
            old(playlist)@
        },
{
    if !appended {
        return false;
    }
    match &mut playlist.tracks {
        Some(items) => {
            let ghost before = items@;
            items.push(Playable::Track(track));
            assert(playables_of(items@) =~= playables_of(before).push(PlayableView::Track(track@)));
            true
        },
        None => false,
    }
}

/// The first playlist with the id.
pub open spec fn first_with_id(playlists: Seq<PlaylistView>, id: Seq<char>) -> Option<PlaylistView>
    decreases playlists.len(),
{
    if playlists.len() == 0 {
        None
    } else if playlists[0].id == id {
        Some(playlists[0])
    } else {
        first_with_id(playlists.skip(1), id)
    }
}

/// The current cached copy of the playlist with the given id, if any. A mutation always acts on
/// the latest known state instead of whatever copy was at hand when it was queued.
pub fn playlist_by_id(playlists: &Vec<Playlist>, id: &String) -> (r: Option<Playlist>)
    ensures
        match r {
            Some(p) => first_with_id(playlists_of(playlists@), id@) == Some(p@),
            None => first_with_id(playlists_of(playlists@), id@) is None,
        },
{
    let ghost all = playlists_of(playlists@);
    assert(all.skip(0) =~= all);
    for i in 0..playlists.len()
        invariant
            all == playlists_of(playlists@),
            first_with_id(all, id@) == first_with_id(all.skip(i as int), id@),
    {
        assert(all.skip(i as int)[0] == playlists@[i as int]@);
        assert(all.skip(i as int).skip(1) =~= all.skip(i + 1));
        if playlists[i].id == *id {
            return Some(playlists[i].clone());
        }
    }
    None
}

/// How far a mutation has been carried out.
#[derive(Clone, Copy, Debug, PartialEq, Eq, Structural)]
pub enum MutationPhase {
    /// Nothing has been done yet.
    Starting,
    /// The service has been asked to append the track.
    Appending,
    /// The track is being removed; the playlists before this index are done.
    Removing(usize),
    /// There is nothing left to do.
    Over,
}

/// A mutation being carried out. See [`apply_playlist_mutation`].
pub struct MutationRun {
    pub mutation: PlaylistMutation,
    pub phase: MutationPhase,
}

/// What to do next for a mutation.
pub enum MutationStep {
    /// Ask the service to append the mutation's track to this playlist, then report with
    /// [`MutationRun::append_done`].
    Append(Playlist),
    /// Ask the service to delete these items from this playlist. Whether that works makes no
    /// difference to the rest of the mutation.
    Delete(Playlist, Vec<Playable>),
    /// The mutation is over.
    Done,
}

/// The contents of a [`MutationStep`].
#[verifier::ext_equal]
pub enum MutationStepView {
    Append(PlaylistView),
    Delete(PlaylistView, Seq<PlayableView>),
    Done,
}

impl View for MutationStep {
    type V = MutationStepView;

    open spec fn view(&self) -> MutationStepView {
        match self {
            MutationStep::Append(p) => MutationStepView::Append(p@),
            MutationStep::Delete(p, items) => MutationStepView::Delete(p@, playables_of(items@)),
            MutationStep::Done => MutationStepView::Done,
        }
    }
}

/// The id of a track, or no text for a track without one.
pub open spec fn id_or_blank(track: TrackView) -> Seq<char> {
    match track.id {
        Some(id) => id,
        None => Seq::empty(),
    }
}

/// The deletion from the playlist with this id, if there is one to make.
pub open spec fn deletion(playlists: Seq<PlaylistView>, id: Seq<char>, track_id: Seq<char>) -> Option<
    MutationStepView,
> {
    match first_with_id(playlists, id) {
        Some(p) => match delete_plan(p, track_id) {
            DeletePlanView::Delete(items) => Some(MutationStepView::Delete(p, items)),
            _ => None,
        },
        None => None,
    }
}

/// The next deletion from the playlists with index `from` and later, and the phase after it.
pub open spec fn removal_step(playlists: Seq<PlaylistView>, m: MutationView, from: int) -> (
    MutationStepView,
    MutationPhase,
)
    decreases m.remove_from.len() - from,
{
    if from < 0 || from >= m.remove_from.len() || m.track.id is None {
        (MutationStepView::Done, MutationPhase::Over)
    } else {
        match deletion(playlists, m.remove_from[from], m.track.id->0) {
            Some(step) => (step, MutationPhase::Removing((from + 1) as usize)),
            None => removal_step(playlists, m, from + 1),
        }
    }
}

/// The next step of a mutation, and the phase after it: the append comes before the removals, and
/// if the track is to go into a playlist that is not there nothing is done at all.
pub open spec fn mutation_step(playlists: Seq<PlaylistView>, m: MutationView, phase: MutationPhase) -> (
    MutationStepView,
    MutationPhase,
) {
    match phase {
        MutationPhase::Starting => match m.append_to {
            None => removal_step(playlists, m, 0),
            Some(id) => match first_with_id(playlists, id) {
                None => (MutationStepView::Done, MutationPhase::Over),
                Some(p) => if p.has_track(id_or_blank(m.track)) {
                    removal_step(playlists, m, 0)
                } else {
                    (MutationStepView::Append(p), MutationPhase::Appending)
                },
            },
        },
        MutationPhase::Removing(from) => removal_step(playlists, m, from as int),
        _ => (MutationStepView::Done, MutationPhase::Over),
    }
}

/// Start to carry out a mutation. Playlists are looked up in the cache at every step (rather than
/// taken from a copy made back when the mutation was queued), so a mutation that has been waiting
/// behind others does not clobber their changes.
pub fn apply_playlist_mutation(mutation: PlaylistMutation) -> (r: MutationRun)
    ensures
        r.mutation == mutation,
        r.phase == MutationPhase::Starting,
{
    MutationRun { mutation, phase: MutationPhase::Starting }
}

impl MutationRun {
    /// Decide the next step, given the cached playlists as they are now. The track is appended to
    /// the new playlist before it is removed from an old one: if the append fails, the track keeps
    /// its old key instead of ending up filed under none at all.
    pub fn next_step(&mut self, playlists: &Vec<Playlist>) -> (r: MutationStep)
        ensures
            final(self).mutation == old(self).mutation,
            (r@, final(self).phase) == mutation_step(
                playlists_of(playlists@),
                old(self).mutation@,
                old(self).phase,
            ),
    {
        match self.phase {
            MutationPhase::Starting => {
                match &self.mutation.append_to {
                    Some(id) => {
                        match playlist_by_id(playlists, id) {
                            Some(p) => {
                                let track_id = match &self.mutation.track.id {
                                    Some(own) => own.clone(),
                                    None => String::new(),
                                };
                                if !p.has_track(&track_id) {
                                    self.phase = MutationPhase::Appending;
                                    return MutationStep::Append(p);
                                }
                            },
                            None => {
                                self.phase = MutationPhase::Over;
                                return MutationStep::Done;
                            },
                        }
                    },
                    None => {},
                }
                self.next_removal(playlists, 0)
            },
            MutationPhase::Removing(from) => self.next_removal(playlists, from),
            _ => {
                self.phase = MutationPhase::Over;
                MutationStep::Done
            },
        }
    }

    /// The next deletion, from the playlist with index `from` on.
    fn next_removal(&mut self, playlists: &Vec<Playlist>, from: usize) -> (r: MutationStep)
        ensures
            final(self).mutation == old(self).mutation,
            (r@, final(self).phase) == removal_step(
                playlists_of(playlists@),
                old(self).mutation@,
                from as int,
            ),
    {
        let ghost all = playlists_of(playlists@);
        let ghost m = self.mutation@;
        if let Some(track_id) = &self.mutation.track.id {
            let mut i: usize = from;
            while i < self.mutation.remove_from.len()
                invariant
                    all == playlists_of(playlists@),
                    self.mutation == old(self).mutation,
                    m == self.mutation@,
                    m.track.id == Some(track_id@),
                    removal_step(all, m, from as int) == removal_step(all, m, i as int),
                decreases self.mutation.remove_from.len() - i,
            {
                assert(m.remove_from[i as int] == self.mutation.remove_from@[i as int]@);
                match playlist_by_id(playlists, &self.mutation.remove_from[i]) {
                    Some(p) => {
                        match delete_all_occurrences(&p, track_id) {
                            DeletePlan::Delete(items) => {
                                self.phase = MutationPhase::Removing(i + 1);
                                return MutationStep::Delete(p, items);
                            },
                            _ => {},
                        }
                    },
                    None => {},
                }
                i += 1;
            }
        }
        self.phase = MutationPhase::Over;
        MutationStep::Done
    }

    /// Report whether the append worked. If not, the mutation is over.
    pub fn append_done(&mut self, appended: bool)
        requires
            old(self).phase == MutationPhase::Appending,
        ensures
            final(self).mutation == old(self).mutation,
            final(self).phase == if appended {
                MutationPhase::Removing(0)
            } else {
                MutationPhase::Over
            },
    {
        self.phase = if appended {
            MutationPhase::Removing(0)
        } else {
            MutationPhase::Over
        };
    }
}

// --- Laws ------------------------------------------------------------------------------------

/// A track's status names a key if and only if a playlist bound to that key holds the track.
pub proof fn law_status_names_every_key(
    bound: Map<Seq<char>, Seq<char>>,
    playlists: Seq<PlaylistView>,
    track_id: Seq<char>,
    key: Seq<char>,
)
    ensures
        filed_keys(bound, playlists, track_id).contains(key) <==> exists|i: int|
            0 <= i < playlists.len() && is_bound(bound, #[trigger] playlists[i]) && bound[ascii_lower(
                playlists[i].name,
            )] == key && playlists[i].has_track(track_id),
    decreases playlists.len(),
{
    let keys = filed_keys(bound, playlists, track_id);
    if playlists.len() > 0 {
        let head = playlists.drop_last();
        let last = playlists.last();
        let head_keys = filed_keys(bound, head, track_id);
        law_status_names_every_key(bound, head, track_id, key);
        if head_keys.contains(key) {
            let j = choose|j: int| 0 <= j < head_keys.len() && head_keys[j] == key;
            assert(keys[j] == key);
            let i = choose|i: int|
                0 <= i < head.len() && is_bound(bound, #[trigger] head[i]) && bound[ascii_lower(head[i].name)] == key
                    && head[i].has_track(track_id);
            assert(playlists[i] == head[i]);
        }
        if is_bound(bound, last) && last.has_track(track_id) && bound[ascii_lower(last.name)] == key {
            assert(keys[head_keys.len() as int] == key);
            assert(playlists[playlists.len() - 1] == last);
        }
        if keys.contains(key) && !head_keys.contains(key) {
            let j = choose|j: int| 0 <= j < keys.len() && keys[j] == key;
            if j < head_keys.len() {
                assert(head_keys[j] == key);
            }
            assert(playlists[playlists.len() - 1] == last);
        }
        if exists|i: int|
            0 <= i < playlists.len() && is_bound(bound, #[trigger] playlists[i]) && bound[ascii_lower(
                playlists[i].name,
            )] == key && playlists[i].has_track(track_id) {
            let i = choose|i: int|
                0 <= i < playlists.len() && is_bound(bound, #[trigger] playlists[i]) && bound[ascii_lower(
                    playlists[i].name,
                )] == key && playlists[i].has_track(track_id);
            if i < head.len() {
                assert(head[i] == playlists[i]);
            }
        }
    }
}

/// Removing a track leaves no copy of it in the playlist and takes nothing else out.
pub proof fn law_removal_takes_every_copy(playlist: PlaylistView, id: Seq<char>)
    ensures
        !without_track(playlist, id).has_track(id),
        playlist.tracks matches Some(items) ==> forall|i: int|
            0 <= i < items.len() && (#[trigger] items[i]).id() != Some(id) ==> others_of(items, id).contains(items[i]),
        forall|other: Seq<char>| other != id ==> #[trigger] without_track(playlist, id).has_track(other)
            == playlist.has_track(other),
{
    broadcast use vstd::seq_lib::group_filter_ensures;

    if let Some(items) = playlist.tracks {
        let keep = |p: PlayableView| p.id() != Some(id);
        let kept = others_of(items, id);
        if holds_id(kept, id) {
            let j = choose|j: int| 0 <= j < kept.len() && (#[trigger] kept[j]).id() == Some(id);
            assert(keep(kept[j]));
        }
        assert forall|other: Seq<char>| other != id implies #[trigger] without_track(playlist, id).has_track(other)
            == playlist.has_track(other) by {
            if holds_id(items, other) {
                let i = choose|i: int| 0 <= i < items.len() && (#[trigger] items[i]).id() == Some(other);
                assert(keep(items[i]));
                assert(kept.contains(items[i]));
                let j = choose|j: int| 0 <= j < kept.len() && kept[j] == items[i];
                assert(kept[j].id() == Some(other));
            }
            if holds_id(kept, other) {
                let j = choose|j: int| 0 <= j < kept.len() && (#[trigger] kept[j]).id() == Some(other);
                lemma_filter_within(items, keep);
                assert(items.contains(kept[j]));
                let i = choose|i: int| 0 <= i < items.len() && items[i] == kept[j];
                assert(items[i].id() == Some(other));
            }
        }
    }
}

/// Filing a track into a loaded playlist that does not hold it and taking it out again leaves the
/// playlist as it was.
pub proof fn law_filing_then_unfiling(playlist: PlaylistView, track: TrackView)
    requires
        playlist.tracks is Some,
        track.id is Some,
        !playlist.has_track(track.id->0),
    ensures
        with_track(playlist, track).has_track(track.id->0),
        without_track(with_track(playlist, track), track.id->0) == playlist,
{
    let id = track.id->0;
    let items = playlist.tracks->0;
    let more = items.push(PlayableView::Track(track));
    assert(more[items.len() as int].id() == Some(id));
    let keep = |p: PlayableView| p.id() != Some(id);
    assert(more.drop_last() =~= items);
    reveal(Seq::filter);
    assert(more.filter(keep) == items.filter(keep));
    assert forall|i: int| 0 <= i < items.len() implies keep(#[trigger] items[i]) by {
        assert(items[i].id() != Some(id));
    }
    lemma_filter_all(items, keep);
}

/// A mutation whose append failed, or whose target is not there, removes nothing.
pub proof fn law_no_removal_without_append(playlists: Seq<PlaylistView>, m: MutationView)
    ensures
        mutation_step(playlists, m, MutationPhase::Over).0 is Done,
        m.append_to is Some && first_with_id(playlists, m.append_to->0) is None ==> mutation_step(
            playlists,
            m,
            MutationPhase::Starting,
        ).0 is Done,
{
}

/// The append of a mutation comes before any removal.
pub proof fn law_append_comes_first(playlists: Seq<PlaylistView>, m: MutationView)
    requires
        m.append_to is Some,
        mutation_step(playlists, m, MutationPhase::Starting).0 is Delete,
    ensures
        ({
            let target = first_with_id(playlists, m.append_to->0);
            target is Some && target->0.has_track(id_or_blank(m.track))
        }),
{
}

/// The id of a playlist that was looked up by its id.
proof fn lemma_found_id(playlists: Seq<PlaylistView>, id: Seq<char>)
    ensures
        first_with_id(playlists, id) matches Some(p) ==> p.id == id && playlists.contains(p),
    decreases playlists.len(),
{
    if playlists.len() > 0 && playlists[0].id != id {
        let rest = playlists.skip(1);
        lemma_found_id(rest, id);
        if let Some(p) = first_with_id(rest, id) {
            let i = choose|i: int| 0 <= i < rest.len() && rest[i] == p;
            assert(playlists[i + 1] == p);
        }
    }
}

/// A mutation touches only the playlists that it names, appends only to the one it is meant for,
/// and deletes only copies of its own track, none of them a local file.
pub proof fn law_mutation_touches_only_its_playlists(
    playlists: Seq<PlaylistView>,
    m: MutationView,
    phase: MutationPhase,
)
    ensures
        match mutation_step(playlists, m, phase).0 {
            MutationStepView::Append(p) => m.append_to == Some(p.id) && !p.has_track(id_or_blank(m.track)),
            MutationStepView::Delete(p, items) => {
                &&& m.remove_from.contains(p.id)
                &&& items.len() > 0
                &&& forall|i: int|
                    0 <= i < items.len() ==> (#[trigger] items[i]).id() == m.track.id && !items[i].is_local_track()
            },
            MutationStepView::Done => true,
        },
{
    if m.append_to is Some {
        lemma_found_id(playlists, m.append_to->0);
    }
    lemma_removal_step(playlists, m, 0);
    if let MutationPhase::Removing(from) = phase {
        lemma_removal_step(playlists, m, from as int);
    }
}

proof fn lemma_removal_step(playlists: Seq<PlaylistView>, m: MutationView, from: int)
    requires
        0 <= from,
    ensures
        match removal_step(playlists, m, from).0 {
            MutationStepView::Append(_) => false,
            MutationStepView::Delete(p, items) => {
                &&& m.remove_from.contains(p.id)
                &&& items.len() > 0
                &&& forall|i: int|
                    0 <= i < items.len() ==> (#[trigger] items[i]).id() == m.track.id && !items[i].is_local_track()
            },
            MutationStepView::Done => true,
        },
    decreases m.remove_from.len() - from,
{
    if from < m.remove_from.len() && m.track.id is Some {
        let id = m.remove_from[from];
        lemma_found_id(playlists, id);
        match deletion(playlists, id, m.track.id->0) {
            Some(MutationStepView::Delete(p, items)) => {
                broadcast use vstd::seq_lib::group_filter_ensures;

                let same = |q: PlayableView| q.id() == Some(m.track.id->0);
                let all = p.tracks->0;
                assert(items == all.filter(same));
                assert forall|i: int| 0 <= i < items.len() implies (#[trigger] items[i]).id() == m.track.id
                    && !items[i].is_local_track() by {
                    assert(same(all.filter(same)[i]));
                }
            },
            _ => {
                lemma_removal_step(playlists, m, from + 1);
            },
        }
    }
}

/// A mutation comes to an end: every deletion brings it closer to its last playlist.
pub proof fn law_mutation_ends(playlists: Seq<PlaylistView>, m: MutationView, from: usize)
    requires
        m.remove_from.len() < usize::MAX,
    ensures
        match mutation_step(playlists, m, MutationPhase::Removing(from)) {
            (MutationStepView::Delete(_, _), MutationPhase::Removing(next)) => from < next <= m.remove_from.len(),
            (step, phase) => step is Done && phase == MutationPhase::Over,
        },
{
    lemma_removal_advances(playlists, m, from as int);
}

proof fn lemma_removal_advances(playlists: Seq<PlaylistView>, m: MutationView, from: int)
    requires
        0 <= from,
        m.remove_from.len() < usize::MAX,
    ensures
        match removal_step(playlists, m, from) {
            (MutationStepView::Delete(_, _), MutationPhase::Removing(next)) => from < next <= m.remove_from.len(),
            (step, phase) => step is Done && phase == MutationPhase::Over,
        },
    decreases m.remove_from.len() - from,
{
    if from < m.remove_from.len() && m.track.id is Some {
        if deletion(playlists, m.remove_from[from], m.track.id->0) is None {
            lemma_removal_advances(playlists, m, from + 1);
        }
    }
}

/// No two playlists have the same id.
pub open spec fn distinct_lists(playlists: Seq<PlaylistView>) -> bool {
    forall|i: int, j: int|
        0 <= i < j < playlists.len() ==> (#[trigger] playlists[i]).id != (#[trigger] playlists[j]).id
}

/// No playlist holds the track as a local file.
pub open spec fn no_local_copies(playlists: Seq<PlaylistView>, id: Seq<char>) -> bool {
    forall|i: int|
        0 <= i < playlists.len() ==> ((#[trigger] playlists[i]).tracks matches Some(items) ==> !any_local(
            occurrences_of(items, id),
        ))
}

/// The playlists with `p` in place of the one that has its id.
pub open spec fn with_playlist(playlists: Seq<PlaylistView>, p: PlaylistView) -> Seq<PlaylistView> {
    playlists.map_values(
        |q: PlaylistView|
            if q.id == p.id {
                p
            } else {
                q
            },
    )
}

/// The playlists after the removals of a mutation, from index `from` on, if the service makes every
/// deletion that it is asked for.
pub open spec fn swept(playlists: Seq<PlaylistView>, m: MutationView, from: int) -> Seq<PlaylistView>
    decreases m.remove_from.len() - from,
{
    if from < 0 || from >= m.remove_from.len() || m.track.id is None {
        playlists
    } else {
        match deletion(playlists, m.remove_from[from], m.track.id->0) {
            Some(MutationStepView::Delete(p, _)) => swept(
                with_playlist(playlists, without_track(p, m.track.id->0)),
                m,
                from + 1,
            ),
            _ => swept(playlists, m, from + 1),
        }
    }
}

/// The removals of a mutation are made step by step: each deletion changes the one playlist that it
/// names, and the next step goes by the playlists as they are then.
pub proof fn law_sweep_goes_step_by_step(playlists: Seq<PlaylistView>, m: MutationView, from: usize)
    requires
        m.remove_from.len() < usize::MAX,
        m.track.id is Some,
    ensures
        match mutation_step(playlists, m, MutationPhase::Removing(from)) {
            (MutationStepView::Delete(p, _), MutationPhase::Removing(next)) => swept(playlists, m, from as int)
                == swept(with_playlist(playlists, without_track(p, m.track.id->0)), m, next as int),
            _ => swept(playlists, m, from as int) == playlists,
        },
{
    lemma_sweep_step(playlists, m, from as int);
}

proof fn lemma_sweep_step(playlists: Seq<PlaylistView>, m: MutationView, from: int)
    requires
        0 <= from,
        m.remove_from.len() < usize::MAX,
        m.track.id is Some,
    ensures
        match removal_step(playlists, m, from) {
            (MutationStepView::Delete(p, _), MutationPhase::Removing(next)) => swept(playlists, m, from) == swept(
                with_playlist(playlists, without_track(p, m.track.id->0)),
                m,
                next as int,
            ),
            _ => swept(playlists, m, from) == playlists,
        },
    decreases m.remove_from.len() - from,
{
    if from < m.remove_from.len() {
        if deletion(playlists, m.remove_from[from], m.track.id->0) is None {
            lemma_sweep_step(playlists, m, from + 1);
        }
    }
}

/// Taking a track out of a playlist again, or out of one that does not hold it, changes nothing.
proof fn lemma_without_absent(p: PlaylistView, id: Seq<char>)
    requires
        !p.has_track(id),
    ensures
        without_track(p, id) == p,
{
    if let Some(items) = p.tracks {
        let keep = |q: PlayableView| q.id() != Some(id);
        assert forall|i: int| 0 <= i < items.len() implies keep(#[trigger] items[i]) by {
            assert(items[i].id() != Some(id));
        }
        lemma_filter_all(items, keep);
    }
}

/// Without occurrences the playlist does not hold the track.
proof fn lemma_no_occurrences(p: PlaylistView, id: Seq<char>)
    requires
        p.tracks matches Some(items) ==> occurrences_of(items, id).len() == 0,
    ensures
        !p.has_track(id),
{
    broadcast use vstd::seq_lib::group_filter_ensures;

    if let Some(items) = p.tracks {
        if holds_id(items, id) {
            let i = choose|i: int| 0 <= i < items.len() && (#[trigger] items[i]).id() == Some(id);
            let same = |q: PlayableView| q.id() == Some(id);
            assert(same(items[i]));
            assert(items.filter(same).contains(items[i]));
        }
    }
}

/// A playlist that does not hold the track has no occurrences of it.
proof fn lemma_absent_no_occurrences(p: PlaylistView, id: Seq<char>)
    requires
        !p.has_track(id),
    ensures
        p.tracks matches Some(items) ==> occurrences_of(items, id).len() == 0,
{
    broadcast use vstd::seq_lib::group_filter_ensures;

    if let Some(items) = p.tracks {
        let same = |q: PlayableView| q.id() == Some(id);
        let found = items.filter(same);
        if found.len() > 0 {
            assert(same(found[0]));
            lemma_filter_within(items, same);
            let i = choose|i: int| 0 <= i < items.len() && items[i] == found[0];
            assert(items[i].id() == Some(id));
        }
    }
}

/// Whether the id is among those of the playlists from index `from` on that a mutation removes
/// its track from.
spec fn named_from(m: MutationView, from: int, id: Seq<char>) -> bool {
    exists|k: int| from <= k < m.remove_from.len() && #[trigger] m.remove_from[k] == id
}

proof fn lemma_swept(playlists: Seq<PlaylistView>, m: MutationView, from: int)
    requires
        0 <= from,
        m.track.id is Some,
        distinct_lists(playlists),
        no_local_copies(playlists, m.track.id->0),
    ensures
        swept(playlists, m, from).len() == playlists.len(),
        forall|i: int|
            0 <= i < playlists.len() ==> #[trigger] swept(playlists, m, from)[i] == (if named_from(
                m,
                from,
                playlists[i].id,
            ) {
                without_track(playlists[i], m.track.id->0)
            } else {
                playlists[i]
            }),
    decreases m.remove_from.len() - from,
{
    let id = m.track.id->0;
    if from < m.remove_from.len() {
        let list_id = m.remove_from[from];
        lemma_found_id(playlists, list_id);
        let next = match deletion(playlists, list_id, id) {
            Some(MutationStepView::Delete(p, _)) => with_playlist(playlists, without_track(p, id)),
            _ => playlists,
        };
        assert forall|i: int| 0 <= i < playlists.len() implies (#[trigger] next[i]) == (if playlists[i].id == list_id {
            without_track(playlists[i], id)
        } else {
            playlists[i]
        }) by {
            if playlists[i].id == list_id {
                lemma_first_is(playlists, i);
                if !(deletion(playlists, list_id, id) is Some) {
                    lemma_no_occurrences(playlists[i], id);
                    lemma_without_absent(playlists[i], id);
                }
            }
        }
        assert(no_local_copies(next, id)) by {
            assert forall|i: int| 0 <= i < next.len() implies ((#[trigger] next[i]).tracks matches Some(items)
                ==> !any_local(occurrences_of(items, id))) by {
                if playlists[i].id == list_id {
                    law_removal_takes_every_copy(playlists[i], id);
                    lemma_absent_no_occurrences(next[i], id);
                }
            }
        }
        lemma_swept(next, m, from + 1);
        assert forall|i: int| 0 <= i < playlists.len() implies #[trigger] swept(playlists, m, from)[i] == (if named_from(
            m,
            from,
            playlists[i].id,
        ) {
            without_track(playlists[i], id)
        } else {
            playlists[i]
        }) by {
            let q = playlists[i];
            assert(swept(next, m, from + 1)[i] == (if named_from(m, from + 1, next[i].id) {
                without_track(next[i], id)
            } else {
                next[i]
            }));
            assert(next[i].id == q.id);
            if q.id == list_id {
                assert(m.remove_from[from] == q.id);
                law_removal_takes_every_copy(q, id);
                lemma_without_absent(next[i], id);
            }
            if named_from(m, from + 1, q.id) {
                let k = choose|k: int| from + 1 <= k < m.remove_from.len() && #[trigger] m.remove_from[k] == q.id;
                assert(m.remove_from[k] == q.id);
            }
            if named_from(m, from, q.id) && q.id != list_id {
                let k = choose|k: int| from <= k < m.remove_from.len() && #[trigger] m.remove_from[k] == q.id;
                assert(k != from);
            }
        }
    }
}

/// Among playlists with distinct ids each is the first of its id.
proof fn lemma_first_is(playlists: Seq<PlaylistView>, i: int)
    requires
        0 <= i < playlists.len(),
        distinct_lists(playlists),
    ensures
        first_with_id(playlists, playlists[i].id) == Some(playlists[i]),
    decreases playlists.len(),
{
    if i > 0 {
        let rest = playlists.skip(1);
        assert(playlists[0].id != playlists[i].id);
        assert forall|a: int, b: int| 0 <= a < b < rest.len() implies (#[trigger] rest[a]).id != (#[trigger] rest[b]).id by {
            assert(rest[a] == playlists[a + 1]);
            assert(rest[b] == playlists[b + 1]);
        }
        lemma_first_is(rest, i - 1);
        assert(rest[i - 1] == playlists[i]);
    }
}

/// A mutation that only removes takes every copy of its track out of every playlist that it names
/// and changes no other, if the service makes the deletions. The playlists have distinct ids, and
/// none holds the track as a local file.
pub proof fn law_removal_reaches_every_named_playlist(playlists: Seq<PlaylistView>, m: MutationView)
    requires
        m.track.id is Some,
        distinct_lists(playlists),
        no_local_copies(playlists, m.track.id->0),
    ensures
        swept(playlists, m, 0).len() == playlists.len(),
        forall|i: int|
            0 <= i < playlists.len() ==> #[trigger] swept(playlists, m, 0)[i] == (if m.remove_from.contains(
                playlists[i].id,
            ) {
                without_track(playlists[i], m.track.id->0)
            } else {
                playlists[i]
            }),
{
    lemma_swept(playlists, m, 0);
    assert forall|i: int| 0 <= i < playlists.len() implies named_from(m, 0, #[trigger] playlists[i].id)
        == m.remove_from.contains(playlists[i].id) by {
        if m.remove_from.contains(playlists[i].id) {
            let k = choose|k: int| 0 <= k < m.remove_from.len() && m.remove_from[k] == playlists[i].id;
            assert(m.remove_from[k] == playlists[i].id);
        }
    }
}

/// A name is bound if and only if some pair gives it a key.
pub proof fn law_every_pair_binds_its_name(pairs: Seq<(String, String)>, name: Seq<char>)
    ensures
        bindings_of(pairs).contains_key(name) <==> exists|i: int|
            0 <= i < pairs.len() && (#[trigger] pairs[i]).0@ == name,
    decreases pairs.len(),
{
    if pairs.len() > 0 {
        let head = pairs.drop_last();
        let last = pairs.len() - 1;
        law_every_pair_binds_its_name(head, name);
        if exists|i: int| 0 <= i < pairs.len() && (#[trigger] pairs[i]).0@ == name {
            let i = choose|i: int| 0 <= i < pairs.len() && (#[trigger] pairs[i]).0@ == name;
            if i < last {
                assert(head[i].0@ == name);
            }
        }
        if bindings_of(pairs).contains_key(name) {
            if pairs[last].0@ != name {
                let i = choose|i: int| 0 <= i < head.len() && (#[trigger] head[i]).0@ == name;
                assert(pairs[i].0@ == name);
            }
        }
    }
}

/// Of several pairs with one name the last gives the key.
pub proof fn law_the_last_binding_of_a_name_counts(pairs: Seq<(String, String)>, i: int)
    requires
        0 <= i < pairs.len(),
        forall|j: int| i < j < pairs.len() ==> (#[trigger] pairs[j]).0@ != pairs[i].0@,
    ensures
        bindings_of(pairs).contains_key(pairs[i].0@),
        bindings_of(pairs)[pairs[i].0@] == pairs[i].1@,
    decreases pairs.len(),
{
    let head = pairs.drop_last();
    let last = pairs.len() - 1;
    if i < last {
        assert(pairs[last].0@ != pairs[i].0@);
        assert forall|j: int| i < j < head.len() implies (#[trigger] head[j]).0@ != head[i].0@ by {
            assert(head[j] == pairs[j]);
        }
        law_the_last_binding_of_a_name_counts(head, i);
    }
}

/// The keys of the bound playlists that hold the track are those of the playlists that pass the test.
proof fn lemma_filed_keys(
    bound: Map<Seq<char>, Seq<char>>,
    playlists: Seq<PlaylistView>,
    track_id: Seq<char>,
    holds: spec_fn(PlaylistView) -> bool,
    key: spec_fn(PlaylistView) -> Seq<char>,
)
    requires
        holds == (|p: PlaylistView| bound.contains_key(ascii_lower(p.name)) && p.has_track(track_id)),
        key == (|p: PlaylistView| bound[ascii_lower(p.name)]),
    ensures
        filed_keys(bound, playlists, track_id) == playlists.filter(holds).map_values(key),
    decreases playlists.len(),
{
    reveal(Seq::filter);
    if playlists.len() > 0 {
        lemma_filed_keys(bound, playlists.drop_last(), track_id, holds, key);
        let kept = playlists.drop_last().filter(holds);
        let last = playlists.last();
        assert(kept.push(last).map_values(key) =~= kept.map_values(key).push(key(last)));
    }
    assert(filed_keys(bound, playlists, track_id) =~= playlists.filter(holds).map_values(key));
}

/// The status of a track: not available if no name has a key, unsorted if no playlist whose name has
/// one holds the track, and otherwise sorted under the key of every such playlist, one entry for each, in
/// the order of the playlists.
pub proof fn law_status_lists_every_holding_playlist(
    bound: Map<Seq<char>, Seq<char>>,
    playlists: Seq<PlaylistView>,
    track_id: Seq<char>,
)
    ensures
        ({
            let holds = |p: PlaylistView| bound.contains_key(ascii_lower(p.name)) && p.has_track(track_id);
            match status_of(bound, playlists, track_id) {
                SortStatusView::Unavailable => forall|name: Seq<char>| !#[trigger] bound.contains_key(name),
                SortStatusView::Unsorted => {
                    &&& exists|name: Seq<char>| #[trigger] bound.contains_key(name)
                    &&& forall|i: int| 0 <= i < playlists.len() ==> !holds(#[trigger] playlists[i])
                },
                SortStatusView::Sorted(keys) => {
                    &&& keys.len() > 0
                    &&& keys.len() == Set::new(|i: int| 0 <= i < playlists.len() && holds(playlists[i])).len()
                    &&& exists|at: Seq<int>, held: Seq<PlaylistView>| #[trigger]
                        picks(playlists, at, holds, held) && keys == held.map_values(
                            |p: PlaylistView| bound[ascii_lower(p.name)],
                        )
                },
            }
        }),
{
    let holds = |p: PlaylistView| bound.contains_key(ascii_lower(p.name)) && p.has_track(track_id);
    let key = |p: PlaylistView| bound[ascii_lower(p.name)];
    let held = playlists.filter(holds);
    let keys = filed_keys(bound, playlists, track_id);
    lemma_filed_keys(bound, playlists, track_id, holds, key);
    assert(keys.len() == held.len());
    let at = lemma_filter_picks(playlists, holds);
    lemma_picks_count(playlists, at, holds, held);
    if forall|name: Seq<char>| !#[trigger] bound.contains_key(name) {
        assert(bound.dom() =~= Set::<Seq<char>>::empty());
    }
    if status_of(bound, playlists, track_id) is Unavailable {
        assert forall|name: Seq<char>| !#[trigger] bound.contains_key(name) by {
            assert(!bound.dom().contains(name));
        }
    }
    if status_of(bound, playlists, track_id) is Unsorted {
        assert forall|i: int| 0 <= i < playlists.len() implies !holds(#[trigger] playlists[i]) by {
            if holds(playlists[i]) {
                assert(at.contains(i));
            }
        }
    }
}

/// If a track is sorted, its status names a key if and only if a playlist whose name has that key holds the
/// track.
pub proof fn law_sorted_keys_are_those_of_holding_playlists(
    bound: Map<Seq<char>, Seq<char>>,
    playlists: Seq<PlaylistView>,
    track_id: Seq<char>,
    key: Seq<char>,
)
    requires
        status_of(bound, playlists, track_id) is Sorted,
    ensures
        status_of(bound, playlists, track_id)->Sorted_0.contains(key) <==> exists|i: int|
            0 <= i < playlists.len() && bound.contains_key(ascii_lower((#[trigger] playlists[i]).name))
                && bound[ascii_lower(playlists[i].name)] == key && playlists[i].has_track(track_id),
{
    let holds = |p: PlaylistView| bound.contains_key(ascii_lower(p.name)) && p.has_track(track_id);
    let keys = status_of(bound, playlists, track_id)->Sorted_0;
    law_status_lists_every_holding_playlist(bound, playlists, track_id);
    let (at, held) = choose|at: Seq<int>, held: Seq<PlaylistView>| #[trigger]
        picks(playlists, at, holds, held) && keys == held.map_values(|p: PlaylistView| bound[ascii_lower(p.name)]);
    if keys.contains(key) {
        let k = choose|k: int| 0 <= k < keys.len() && keys[k] == key;
        assert(held[k] == playlists[at[k]]);
        assert(holds(playlists[at[k]]));
    }
    if exists|i: int|
        0 <= i < playlists.len() && bound.contains_key(ascii_lower((#[trigger] playlists[i]).name))
            && bound[ascii_lower(playlists[i].name)] == key && playlists[i].has_track(track_id) {
        let i = choose|i: int|
            0 <= i < playlists.len() && bound.contains_key(ascii_lower((#[trigger] playlists[i]).name))
                && bound[ascii_lower(playlists[i].name)] == key && playlists[i].has_track(track_id);
        assert(holds(playlists[i]));
        assert(at.contains(i));
        let k = choose|k: int| 0 <= k < at.len() && at[k] == i;
        assert(held[k] == playlists[i]);
        assert(keys[k] == key);
    }
}

/// A track is taken out of a playlist by deleting every item with its id, in order; there is nothing to
/// delete if and only if the playlist is not loaded or has no such item, and nothing can be deleted if and
/// only if such an item is a local file.
pub proof fn law_deletion_takes_every_copy(playlist: PlaylistView, id: Seq<char>)
    ensures
        delete_plan(playlist, id) is Nothing <==> !playlist.has_track(id),
        delete_plan(playlist, id) is LocalFile <==> playlist.tracks is Some && exists|i: int|
            0 <= i < playlist.tracks->0.len() && (#[trigger] playlist.tracks->0[i]).id() == Some(id)
                && playlist.tracks->0[i].is_local_track(),
        delete_plan(playlist, id) matches DeletePlanView::Delete(items) ==> {
            &&& playlist.tracks is Some
            &&& picked_from(playlist.tracks->0, |q: PlayableView| q.id() == Some(id), items)
        },
{
    match playlist.tracks {
        None => {},
        Some(all) => {
            let same = |q: PlayableView| q.id() == Some(id);
            let found = occurrences_of(all, id);
            let at = lemma_filter_picks(all, same);
            if holds_id(all, id) {
                let i = choose|i: int| 0 <= i < all.len() && (#[trigger] all[i]).id() == Some(id);
                assert(same(all[i]));
                assert(at.contains(i));
            }
            if found.len() > 0 {
                assert(found[0] == all[at[0]]);
                assert(same(all[at[0]]));
            }
            if any_local(found) {
                let k = choose|k: int| 0 <= k < found.len() && (#[trigger] found[k]).is_local_track();
                assert(found[k] == all[at[k]]);
                assert(same(all[at[k]]));
            }
            if exists|i: int| 0 <= i < all.len() && (#[trigger] all[i]).id() == Some(id) && all[i].is_local_track() {
                let i = choose|i: int|
                    0 <= i < all.len() && (#[trigger] all[i]).id() == Some(id) && all[i].is_local_track();
                assert(same(all[i]));
                assert(at.contains(i));
                let k = choose|k: int| 0 <= k < at.len() && at[k] == i;
                assert(found[k] == all[i]);
                assert(found[k].is_local_track());
            }
        },
    }
}

/// Once a track is out of a playlist, the items are those with another id, in their order, and everything
/// else of the playlist is as before.
pub proof fn law_removal_keeps_the_other_items(playlist: PlaylistView, id: Seq<char>)
    ensures
        without_track(playlist, id) == (PlaylistView { tracks: without_track(playlist, id).tracks, ..playlist }),
        without_track(playlist, id).tracks is Some <==> playlist.tracks is Some,
        playlist.tracks is Some ==> picked_from(
            playlist.tracks->0,
            |q: PlayableView| q.id() != Some(id),
            without_track(playlist, id).tracks->0,
        ),
{
    if let Some(items) = playlist.tracks {
        let at = lemma_filter_picks(items, |q: PlayableView| q.id() != Some(id));
    }
}

/// An appended track comes behind all the items of a loaded playlist; a playlist that is not loaded, and
/// everything else of it, stays as it is.
pub proof fn law_append_adds_one_item_at_the_end(playlist: PlaylistView, track: TrackView)
    ensures
        with_track(playlist, track) == (PlaylistView { tracks: with_track(playlist, track).tracks, ..playlist }),
        playlist.tracks is None ==> with_track(playlist, track) == playlist,
        playlist.tracks matches Some(items) ==> {
            &&& with_track(playlist, track).tracks matches Some(more)
            &&& more.len() == items.len() + 1
            &&& more.take(items.len() as int) == items
            &&& more[items.len() as int] == PlayableView::Track(track)
        },
{
    if let Some(items) = playlist.tracks {
        assert(items.push(PlayableView::Track(track)).take(items.len() as int) =~= items);
    }
}

/// A playlist is looked up as the first that has the id.
pub proof fn law_lookup_finds_the_first_with_the_id(playlists: Seq<PlaylistView>, id: Seq<char>)
    ensures
        match first_with_id(playlists, id) {
            Some(p) => exists|i: int|
                0 <= i < playlists.len() && #[trigger] playlists[i] == p && p.id == id && forall|j: int|
                    0 <= j < i ==> (#[trigger] playlists[j]).id != id,
            None => forall|i: int| 0 <= i < playlists.len() ==> (#[trigger] playlists[i]).id != id,
        },
    decreases playlists.len(),
{
    if playlists.len() > 0 {
        if playlists[0].id != id {
            let rest = playlists.skip(1);
            law_lookup_finds_the_first_with_the_id(rest, id);
            match first_with_id(rest, id) {
                Some(p) => {
                    let i = choose|i: int|
                        0 <= i < rest.len() && #[trigger] rest[i] == p && p.id == id && forall|j: int|
                            0 <= j < i ==> (#[trigger] rest[j]).id != id;
                    assert(playlists[i + 1] == p);
                    assert forall|j: int| 0 <= j < i + 1 implies (#[trigger] playlists[j]).id != id by {
                        if j > 0 {
                            assert(rest[j - 1] == playlists[j]);
                        }
                    }
                },
                None => {
                    assert forall|i: int| 0 <= i < playlists.len() implies (#[trigger] playlists[i]).id != id by {
                        if i > 0 {
                            assert(rest[i - 1] == playlists[i]);
                        }
                    }
                },
            }
        } else {
            assert(playlists[0] == first_with_id(playlists, id)->0);
        }
    }
}

/// Whether the track can be deleted from the playlist with this id: the first playlist of that id holds
/// it, and not as a local file.
pub open spec fn can_delete(playlists: Seq<PlaylistView>, list_id: Seq<char>, id: Seq<char>) -> bool {
    exists|i: int|
        {
            &&& 0 <= i < playlists.len()
            &&& (#[trigger] playlists[i]).id == list_id
            &&& forall|j: int| 0 <= j < i ==> (#[trigger] playlists[j]).id != list_id
            &&& playlists[i].has_track(id)
            &&& forall|k: int|
                0 <= k < playlists[i].tracks->0.len() && (#[trigger] playlists[i].tracks->0[k]).id() == Some(id)
                    ==> !playlists[i].tracks->0[k].is_local_track()
        }
}

/// There is a deletion to make if and only if the track can be deleted.
proof fn lemma_deletion_is_possible(playlists: Seq<PlaylistView>, list_id: Seq<char>, id: Seq<char>)
    ensures
        deletion(playlists, list_id, id) is Some <==> can_delete(playlists, list_id, id),
        deletion(playlists, list_id, id) matches Some(step) ==> {
            &&& step matches MutationStepView::Delete(p, items)
            &&& first_with_id(playlists, list_id) == Some(p)
            &&& delete_plan(p, id) == DeletePlanView::Delete(items)
        },
{
    law_lookup_finds_the_first_with_the_id(playlists, list_id);
    if let Some(p) = first_with_id(playlists, list_id) {
        law_deletion_takes_every_copy(p, id);
        let i = choose|i: int|
            0 <= i < playlists.len() && #[trigger] playlists[i] == p && p.id == list_id && forall|j: int|
                0 <= j < i ==> (#[trigger] playlists[j]).id != list_id;
        if can_delete(playlists, list_id, id) {
            let k = choose|k: int|
                {
                    &&& 0 <= k < playlists.len()
                    &&& (#[trigger] playlists[k]).id == list_id
                    &&& forall|j: int| 0 <= j < k ==> (#[trigger] playlists[j]).id != list_id
                    &&& playlists[k].has_track(id)
                    &&& forall|n: int|
                        0 <= n < playlists[k].tracks->0.len() && (#[trigger] playlists[k].tracks->0[n]).id() == Some(
                            id,
                        ) ==> !playlists[k].tracks->0[n].is_local_track()
                };
            assert(k == i) by {
                if k < i {
                    assert(playlists[k].id != list_id);
                } else if i < k {
                    assert(playlists[i].id != list_id);
                }
            }
            assert(!(delete_plan(p, id) is LocalFile));
        }
        if deletion(playlists, list_id, id) is Some {
            assert(playlists[i].has_track(id));
            assert forall|k: int|
                0 <= k < playlists[i].tracks->0.len() && (#[trigger] playlists[i].tracks->0[k]).id() == Some(
                    id,
                ) implies !playlists[i].tracks->0[k].is_local_track() by {
                assert(!(delete_plan(p, id) is LocalFile));
            }
        }
    }
}

/// The removals are made in the order in which the playlists are named, and only those are skipped from
/// which the track cannot be deleted: those that are not there, do not hold it, or hold a local file.
pub proof fn law_removals_skip_only_what_cannot_be_deleted(playlists: Seq<PlaylistView>, m: MutationView, from: usize)
    requires
        m.track.id is Some,
        m.remove_from.len() < usize::MAX,
    ensures
        match mutation_step(playlists, m, MutationPhase::Removing(from)) {
            (MutationStepView::Delete(p, items), MutationPhase::Removing(next)) => {
                &&& from < next <= m.remove_from.len()
                &&& p.id == m.remove_from[next - 1]
                &&& first_with_id(playlists, p.id) == Some(p)
                &&& delete_plan(p, m.track.id->0) == DeletePlanView::Delete(items)
                &&& can_delete(playlists, p.id, m.track.id->0)
                &&& forall|k: int|
                    from <= k < next - 1 ==> !can_delete(playlists, #[trigger] m.remove_from[k], m.track.id->0)
            },
            (MutationStepView::Done, MutationPhase::Over) => forall|k: int|
                from <= k < m.remove_from.len() ==> !can_delete(
                    playlists,
                    #[trigger] m.remove_from[k],
                    m.track.id->0,
                ),
            _ => false,
        },
{
    lemma_removals_skip(playlists, m, from as int);
}

proof fn lemma_removals_skip(playlists: Seq<PlaylistView>, m: MutationView, from: int)
    requires
        0 <= from,
        m.track.id is Some,
        m.remove_from.len() < usize::MAX,
    ensures
        match removal_step(playlists, m, from) {
            (MutationStepView::Delete(p, items), MutationPhase::Removing(next)) => {
                &&& from < next <= m.remove_from.len()
                &&& p.id == m.remove_from[next - 1]
                &&& first_with_id(playlists, p.id) == Some(p)
                &&& delete_plan(p, m.track.id->0) == DeletePlanView::Delete(items)
                &&& can_delete(playlists, p.id, m.track.id->0)
                &&& forall|k: int|
                    from <= k < next - 1 ==> !can_delete(playlists, #[trigger] m.remove_from[k], m.track.id->0)
            },
            (MutationStepView::Done, MutationPhase::Over) => forall|k: int|
                from <= k < m.remove_from.len() ==> !can_delete(
                    playlists,
                    #[trigger] m.remove_from[k],
                    m.track.id->0,
                ),
            _ => false,
        },
    decreases m.remove_from.len() - from,
{
    let id = m.track.id->0;
    if from < m.remove_from.len() {
        let list_id = m.remove_from[from];
        lemma_deletion_is_possible(playlists, list_id, id);
        lemma_found_id(playlists, list_id);
        if deletion(playlists, list_id, id) is None {
            lemma_removals_skip(playlists, m, from + 1);
        }
    }
}

/// A mutation that appends nothing starts with its removals, and so does one whose target holds the track
/// already; any other asks for the append to the target as it is now. Without its target it does nothing.
pub proof fn law_mutation_starts_with_its_append(playlists: Seq<PlaylistView>, m: MutationView)
    requires
        m.track.id is Some,
    ensures
        match m.append_to {
            None => mutation_step(playlists, m, MutationPhase::Starting) == mutation_step(
                playlists,
                m,
                MutationPhase::Removing(0),
            ),
            Some(target) => {
                &&& (forall|i: int| 0 <= i < playlists.len() ==> (#[trigger] playlists[i]).id != target)
                    ==> mutation_step(playlists, m, MutationPhase::Starting) == (
                    MutationStepView::Done,
                    MutationPhase::Over,
                )
                &&& first_with_id(playlists, target) matches Some(p) ==> mutation_step(
                    playlists,
                    m,
                    MutationPhase::Starting,
                ) == (if p.has_track(m.track.id->0) {
                    mutation_step(playlists, m, MutationPhase::Removing(0))
                } else {
                    (MutationStepView::Append(p), MutationPhase::Appending)
                })
            },
        },
{
    if let Some(target) = m.append_to {
        law_lookup_finds_the_first_with_the_id(playlists, target);
    }
}

/// A track without an id is removed from nowhere, and is appended wherever it is to go.
pub proof fn law_mutation_of_a_track_without_id(playlists: Seq<PlaylistView>, m: MutationView, from: usize)
    requires
        m.track.id is None,
    ensures
        mutation_step(playlists, m, MutationPhase::Removing(from)) == (MutationStepView::Done, MutationPhase::Over),
        m.append_to is None ==> mutation_step(playlists, m, MutationPhase::Starting).0 is Done,
        m.append_to is Some ==> (first_with_id(playlists, m.append_to->0) matches Some(p) && !p.has_track(Seq::empty())
            ==> mutation_step(playlists, m, MutationPhase::Starting) == (
            MutationStepView::Append(first_with_id(playlists, m.append_to->0)->0),
            MutationPhase::Appending,
        )),
{
}

/// The playlists after a mutation has been carried out from this phase on, in at most so many steps, if the
/// service does everything that it is asked for.
pub open spec fn carried_out(playlists: Seq<PlaylistView>, m: MutationView, phase: MutationPhase, steps: nat) -> Seq<
    PlaylistView,
>
    decreases steps,
{
    if steps == 0 {
        playlists
    } else {
        match mutation_step(playlists, m, phase) {
            (MutationStepView::Append(p), _) => carried_out(
                with_playlist(playlists, with_track(p, m.track)),
                m,
                MutationPhase::Removing(0),
                (steps - 1) as nat,
            ),
            (MutationStepView::Delete(p, _), next) => carried_out(
                with_playlist(playlists, without_track(p, m.track.id->0)),
                m,
                next,
                (steps - 1) as nat,
            ),
            (MutationStepView::Done, _) => playlists,
        }
    }
}

/// Carrying out the removals sweeps through the playlists.
proof fn lemma_removals_carried_out(playlists: Seq<PlaylistView>, m: MutationView, from: usize, steps: nat)
    requires
        m.track.id is Some,
        m.remove_from.len() < usize::MAX,
        steps > 0,
        steps > m.remove_from.len() - from,
    ensures
        carried_out(playlists, m, MutationPhase::Removing(from), steps) == swept(playlists, m, from as int),
    decreases steps,
{
    law_mutation_ends(playlists, m, from);
    law_sweep_goes_step_by_step(playlists, m, from);
    match mutation_step(playlists, m, MutationPhase::Removing(from)) {
        (MutationStepView::Delete(p, _), MutationPhase::Removing(next)) => {
            lemma_removals_carried_out(
                with_playlist(playlists, without_track(p, m.track.id->0)),
                m,
                next,
                (steps - 1) as nat,
            );
        },
        _ => {},
    }
}

/// What carrying out a mutation comes to, playlist by playlist: the target, unless it holds the track
/// already, has it at its end, every playlist that the mutation removes from has no copy of it left, and no
/// other playlist is changed; without its target nothing is. The playlists have distinct ids, and there is
/// no local file among the copies.
pub proof fn law_mutation_carried_out(playlists: Seq<PlaylistView>, m: MutationView, steps: nat)
    requires
        m.track.id is Some,
        m.remove_from.len() < usize::MAX,
        steps > m.remove_from.len() + 1,
        distinct_lists(playlists),
        no_local_copies(playlists, m.track.id->0),
        m.append_to is None || m.remove_from.len() == 0 || !m.track.is_local,
    ensures
        ({
            let id = m.track.id->0;
            let after = carried_out(playlists, m, MutationPhase::Starting, steps);
            &&& after.len() == playlists.len()
            &&& if m.append_to is Some && forall|i: int|
                0 <= i < playlists.len() ==> (#[trigger] playlists[i]).id != m.append_to->0 {
                after == playlists
            } else {
                forall|i: int|
                    0 <= i < playlists.len() ==> #[trigger] after[i] == {
                        let filled = if m.append_to == Some(playlists[i].id) && !playlists[i].has_track(id) {
                            with_track(playlists[i], m.track)
                        } else {
                            playlists[i]
                        };
                        if m.remove_from.contains(playlists[i].id) {
                            without_track(filled, id)
                        } else {
                            filled
                        }
                    }
            }
        }),
{
    let id = m.track.id->0;
    let after = carried_out(playlists, m, MutationPhase::Starting, steps);
    law_mutation_starts_with_its_append(playlists, m);
    if m.append_to is None {
        lemma_removals_carried_out(playlists, m, 0, steps);
        assert(after == carried_out(playlists, m, MutationPhase::Removing(0), steps));
        law_removal_reaches_every_named_playlist(playlists, m);
    } else {
        let target = m.append_to->0;
        law_lookup_finds_the_first_with_the_id(playlists, target);
        if let Some(p) = first_with_id(playlists, target) {
            let t = choose|i: int|
                0 <= i < playlists.len() && #[trigger] playlists[i] == p && p.id == target && forall|j: int|
                    0 <= j < i ==> (#[trigger] playlists[j]).id != target;
            assert(playlists[t].id == target);
            if p.has_track(id) {
                lemma_removals_carried_out(playlists, m, 0, steps);
                assert(after == carried_out(playlists, m, MutationPhase::Removing(0), steps));
                law_removal_reaches_every_named_playlist(playlists, m);
                assert forall|i: int| 0 <= i < playlists.len() implies #[trigger] after[i] == {
                    let filled = if m.append_to == Some(playlists[i].id) && !playlists[i].has_track(id) {
                        with_track(playlists[i], m.track)
                    } else {
                        playlists[i]
                    };
                    if m.remove_from.contains(playlists[i].id) {
                        without_track(filled, id)
                    } else {
                        filled
                    }
                } by {
                    if playlists[i].id == target {
                        lemma_same_place(playlists, i, t);
                    }
                }
            } else {
                let next = with_playlist(playlists, with_track(p, m.track));
                lemma_removals_carried_out(next, m, 0, (steps - 1) as nat);
                assert(after == swept(next, m, 0));
                assert forall|i: int| 0 <= i < playlists.len() implies (#[trigger] next[i]) == (if playlists[i].id
                    == target {
                    with_track(playlists[i], m.track)
                } else {
                    playlists[i]
                }) by {
                    if playlists[i].id == target {
                        lemma_same_place(playlists, i, t);
                    }
                }
                if m.remove_from.len() > 0 {
                    assert(no_local_copies(next, id)) by {
                        assert forall|i: int| 0 <= i < next.len() implies ((#[trigger] next[i]).tracks matches Some(items)
                            ==> !any_local(occurrences_of(items, id))) by {
                            if playlists[i].id == target {
                                lemma_same_place(playlists, i, t);
                                lemma_appended_copy(p, m.track);
                            }
                        }
                    }
                    assert(distinct_lists(next)) by {
                        assert forall|a: int, b: int| 0 <= a < b < next.len() implies (#[trigger] next[a]).id != (
                        #[trigger] next[b]).id by {
                            assert(playlists[a].id != playlists[b].id);
                        }
                    }
                    law_removal_reaches_every_named_playlist(next, m);
                }
                assert forall|i: int| 0 <= i < playlists.len() implies #[trigger] after[i] == {
                    let filled = if m.append_to == Some(playlists[i].id) && !playlists[i].has_track(id) {
                        with_track(playlists[i], m.track)
                    } else {
                        playlists[i]
                    };
                    if m.remove_from.contains(playlists[i].id) {
                        without_track(filled, id)
                    } else {
                        filled
                    }
                } by {
                    assert(next[i].id == playlists[i].id);
                    if playlists[i].id == target {
                        lemma_same_place(playlists, i, t);
                    }
                }
            }
        }
    }
}

/// Playlists with distinct ids have one place for each id.
proof fn lemma_same_place(playlists: Seq<PlaylistView>, i: int, j: int)
    requires
        distinct_lists(playlists),
        0 <= i < playlists.len(),
        0 <= j < playlists.len(),
        playlists[i].id == playlists[j].id,
    ensures
        i == j,
{
    if i < j {
        assert(playlists[i].id != playlists[j].id);
    } else if j < i {
        assert(playlists[j].id != playlists[i].id);
    }
}

/// The one copy of a track that was appended is no local file if the track is none.
proof fn lemma_appended_copy(p: PlaylistView, track: TrackView)
    requires
        track.id is Some,
        !track.is_local,
        !p.has_track(track.id->0),
    ensures
        with_track(p, track).tracks matches Some(items) ==> !any_local(occurrences_of(items, track.id->0)),
{
    let id = track.id->0;
    if let Some(items) = p.tracks {
        let more = items.push(PlayableView::Track(track));
        let same = |q: PlayableView| q.id() == Some(id);
        lemma_absent_no_occurrences(p, id);
        reveal(Seq::filter);
        assert(more.drop_last() =~= items);
        assert(more.filter(same) =~= seq![PlayableView::Track(track)]);
    }
}

// --- Laws of the operations ------------------------------------------------------------------

/// [`SortState::refresh`] makes exactly the given names bound, each to the key of its last pair, and leaves the
/// queue alone.
pub proof fn law_refresh(state: &mut SortState, bindings: &Vec<(String, String)>, i: int, name: Seq<char>)
    requires
        call_ensures(SortState::refresh, (state, bindings), ()),
        0 <= i < bindings@.len(),
        forall|j: int| i < j < bindings@.len() ==> (#[trigger] bindings@[j]).0@ != bindings@[i].0@,
    ensures
        final(state)@.bound.contains_pair(bindings@[i].0@, bindings@[i].1@),
        final(state)@.bound.contains_key(name) <==> exists|k: int|
            0 <= k < bindings@.len() && (#[trigger] bindings@[k]).0@ == name,
        final(state)@.queue == old(state)@.queue,
{
    law_the_last_binding_of_a_name_counts(bindings@, i);
    law_every_pair_binds_its_name(bindings@, name);
}

/// [`SortState::key_of`] gives the key of a name however its ASCII letters are written.
pub proof fn law_key_of(state: &SortState, name: &String, r: Option<String>)
    requires
        call_ensures(SortState::key_of, (state, name), r),
    ensures
        r is Some <==> state@.bound.contains_key(ascii_lower(name@)),
        r is Some ==> r->0@ == state@.bound[ascii_lower(name@)],
{
}

/// [`SortState::sort_status`] gives [`SortStatus::Sorted`] with one key, that of the playlist, for each playlist
/// whose name has a key and that holds the track, in the order of the playlists; without any it gives
/// [`SortStatus::Unsorted`], and [`SortStatus::Unavailable`] only if no name has a key.
pub proof fn law_sort_status(state: &SortState, playlists: &Vec<Playlist>, track_id: &String, r: SortStatus)
    requires
        call_ensures(SortState::sort_status, (state, playlists, track_id), r),
    ensures
        ({
            let bound = state@.bound;
            let all = playlists_of(playlists@);
            let holds = |p: PlaylistView| bound.contains_key(ascii_lower(p.name)) && p.has_track(track_id@);
            match r {
                SortStatus::Unavailable => forall|name: Seq<char>| !#[trigger] bound.contains_key(name),
                SortStatus::Unsorted => {
                    &&& exists|name: Seq<char>| #[trigger] bound.contains_key(name)
                    &&& forall|i: int| 0 <= i < all.len() ==> !holds(#[trigger] all[i])
                },
                SortStatus::Sorted(keys) => {
                    &&& keys@.len() > 0
                    &&& keys@.len() == Set::new(|i: int| 0 <= i < all.len() && holds(all[i])).len()
                    &&& exists|at: Seq<int>, held: Seq<PlaylistView>|
                        {
                            &&& #[trigger] picks(all, at, holds, held)
                            &&& held.len() == keys@.len()
                            &&& forall|k: int|
                                0 <= k < held.len() ==> (#[trigger] keys@[k])@ == bound[ascii_lower(held[k].name)]
                        }
                },
            }
        }),
{
    let bound = state@.bound;
    let all = playlists_of(playlists@);
    let holds = |p: PlaylistView| bound.contains_key(ascii_lower(p.name)) && p.has_track(track_id@);
    law_status_lists_every_holding_playlist(bound, all, track_id@);
    match r {
        SortStatus::Sorted(keys) => {
            let texts = texts_of(keys@);
            let (at, held) = choose|at: Seq<int>, held: Seq<PlaylistView>| #[trigger]
                picks(all, at, holds, held) && texts == held.map_values(|p: PlaylistView| bound[ascii_lower(p.name)]);
            assert(texts.len() == keys@.len());
            assert forall|k: int| 0 <= k < held.len() implies (#[trigger] keys@[k])@ == bound[ascii_lower(held[k].name)] by {
                assert(texts[k] == keys@[k]@);
            }
            assert(picks(all, at, holds, held));
        },
        _ => {},
    }
}

/// Changes are taken out of the queue in the order in which they were put in: after one more has been queued,
/// [`SortState::next_mutation`] still gives the oldest, and the new one only if there was none.
pub proof fn law_queue_is_first_in_first_out(
    queued: &mut SortState,
    taken: &mut SortState,
    track: Track,
    remove_from: &Vec<Playlist>,
    append_to: Option<&Playlist>,
    r: Option<PlaylistMutation>,
)
    requires
        call_ensures(SortState::queue_playlist_mutation, (queued, track, remove_from, append_to), ()),
        call_ensures(SortState::next_mutation, (taken,), r),
        old(taken)@ == final(queued)@,
    ensures
        r is Some,
        old(queued)@.queue.len() > 0 ==> r->0@ == old(queued)@.queue[0],
        old(queued)@.queue.len() == 0 ==> {
            let m = r->0;
            &&& m.track@ == track@
            &&& m.remove_from@.len() == remove_from@.len()
            &&& forall|i: int| 0 <= i < remove_from@.len() ==> m.remove_from@[i]@ == (#[trigger] remove_from@[i]).id@
            &&& m.append_to is Some <==> append_to is Some
            &&& append_to is Some ==> m.append_to->0@ == append_to->0.id@
        },
        final(taken)@.queue.len() == old(queued)@.queue.len(),
        final(taken)@.bound == old(queued)@.bound,
{
    if old(queued)@.queue.len() == 0 {
        let m = r->0;
        let ids = ids_of(playlists_of(remove_from@));
        assert(texts_of(m.remove_from@) == ids);
        assert(texts_of(m.remove_from@).len() == m.remove_from@.len());
        assert(ids.len() == remove_from@.len());
        assert forall|i: int| 0 <= i < remove_from@.len() implies m.remove_from@[i]@ == (#[trigger] remove_from@[i]).id@ by {
            assert(texts_of(m.remove_from@)[i] == m.remove_from@[i]@);
            assert(ids[i] == remove_from@[i].id@);
        }
    }
}

/// [`delete_all_occurrences`] plans to delete every item with the id, in order, unless one of them is a local
/// file; there is nothing to plan if and only if the playlist does not hold the track.
pub proof fn law_delete_all_occurrences(playlist: &Playlist, track_id: &String, r: DeletePlan)
    requires
        call_ensures(delete_all_occurrences, (playlist, track_id), r),
    ensures
        r is Nothing <==> !playlist@.has_track(track_id@),
        r is LocalFile <==> playlist@.tracks is Some && exists|i: int|
            0 <= i < playlist@.tracks->0.len() && (#[trigger] playlist@.tracks->0[i]).id() == Some(track_id@)
                && playlist@.tracks->0[i].is_local_track(),
        r matches DeletePlan::Delete(items) ==> picked_from(
            playlist@.tracks->0,
            |q: PlayableView| q.id() == Some(track_id@),
            playables_of(items@),
        ),
{
    law_deletion_takes_every_copy(playlist@, track_id@);
}

/// [`occurrences_deleted`] takes every item with the id out of a playlist, and nothing else, if the deletion was
/// made, and says so; otherwise the playlist stays.
pub proof fn law_occurrences_deleted(playlist: &mut Playlist, track_id: &String, deleted: bool, r: bool)
    requires
        call_ensures(occurrences_deleted, (playlist, track_id, deleted), r),
    ensures
        r == deleted,
        !deleted ==> final(playlist)@ == old(playlist)@,
        deleted ==> {
            &&& !final(playlist)@.has_track(track_id@)
            &&& final(playlist)@ == (PlaylistView { tracks: final(playlist)@.tracks, ..old(playlist)@ })
            &&& old(playlist)@.tracks is Some <==> final(playlist)@.tracks is Some
            &&& old(playlist)@.tracks is Some ==> picked_from(
                old(playlist)@.tracks->0,
                |q: PlayableView| q.id() != Some(track_id@),
                final(playlist)@.tracks->0,
            )
        },
{
    law_removal_takes_every_copy(old(playlist)@, track_id@);
    law_removal_keeps_the_other_items(old(playlist)@, track_id@);
}

/// [`track_appended`] puts the track behind the items of a loaded playlist if the append was made.
pub proof fn law_track_appended(playlist: &mut Playlist, track: Track, appended: bool, r: bool)
    requires
        call_ensures(track_appended, (playlist, track, appended), r),
    ensures
        r == (appended && old(playlist)@.tracks is Some),
        !r ==> final(playlist)@ == old(playlist)@,
        r ==> final(playlist)@ == (PlaylistView {
            tracks: Some(old(playlist)@.tracks->0.push(PlayableView::Track(track@))),
            ..old(playlist)@
        }),
{
    law_append_adds_one_item_at_the_end(old(playlist)@, track@);
    if r {
        let items = old(playlist)@.tracks->0;
        let more = final(playlist)@.tracks->0;
        assert(more =~= items.push(PlayableView::Track(track@))) by {
            assert forall|i: int| 0 <= i < items.len() implies more[i] == items[i] by {
                assert(more.take(items.len() as int)[i] == items[i]);
            }
        }
    }
}

/// [`playlist_by_id`] gives the first playlist with the id, and none only if there is none.
pub proof fn law_playlist_by_id(playlists: &Vec<Playlist>, id: &String, r: Option<Playlist>)
    requires
        call_ensures(playlist_by_id, (playlists, id), r),
    ensures
        match r {
            Some(p) => exists|i: int|
                0 <= i < playlists@.len() && (#[trigger] playlists@[i])@ == p@ && p.id@ == id@ && forall|j: int|
                    0 <= j < i ==> (#[trigger] playlists@[j]).id@ != id@,
            None => forall|i: int| 0 <= i < playlists@.len() ==> (#[trigger] playlists@[i]).id@ != id@,
        },
{
    let all = playlists_of(playlists@);
    law_lookup_finds_the_first_with_the_id(all, id@);
    match r {
        Some(p) => {
            let i = choose|i: int|
                0 <= i < all.len() && #[trigger] all[i] == p@ && p@.id == id@ && forall|j: int|
                    0 <= j < i ==> (#[trigger] all[j]).id != id@;
            assert(playlists@[i]@ == p@);
            assert forall|j: int| 0 <= j < i implies (#[trigger] playlists@[j]).id@ != id@ by {
                assert(all[j].id != id@);
            }
        },
        None => {
            assert forall|i: int| 0 <= i < playlists@.len() implies (#[trigger] playlists@[i]).id@ != id@ by {
                assert(all[i].id != id@);
            }
        },
    }
}

/// A mutation is carried out in this order: [`apply_playlist_mutation`] starts it; [`MutationRun::next_step`] asks
/// for the append to the target as it is now, unless the target holds the track; once that has been made, as
/// [`MutationRun::append_done`] reports, the removals follow from the first on, and if it failed nothing does.
pub proof fn law_run_appends_before_it_removes(
    mutation: PlaylistMutation,
    started: MutationRun,
    run: &mut MutationRun,
    playlists: &Vec<Playlist>,
    step: MutationStep,
    reported: &mut MutationRun,
    appended: bool,
)
    requires
        call_ensures(apply_playlist_mutation, (mutation,), started),
        *old(run) == started,
        call_ensures(MutationRun::next_step, (run, playlists), step),
        *old(reported) == *final(run),
        step is Append ==> call_ensures(MutationRun::append_done, (reported, appended), ()),
        mutation.track@.id is Some,
        mutation.append_to is Some,
    ensures
        ({
            let all = playlists_of(playlists@);
            let target = mutation.append_to->0@;
            let id = mutation.track@.id->0;
            &&& step matches MutationStep::Append(p) ==> p@.id == target && !p@.has_track(id) && first_with_id(
                all,
                target,
            ) == Some(p@)
            &&& step is Append <==> (first_with_id(all, target) matches Some(p) && !p.has_track(id))
            &&& step is Append && appended ==> final(reported).phase == MutationPhase::Removing(0)
            &&& step is Append && !appended ==> final(reported).phase == MutationPhase::Over
            &&& first_with_id(all, target) is None ==> step is Done && final(run).phase == MutationPhase::Over
            &&& final(run).mutation == mutation
        }),
{
    let all = playlists_of(playlists@);
    law_mutation_starts_with_its_append(all, mutation@);
    lemma_found_id(all, mutation.append_to->0@);
    lemma_removal_step(all, mutation@, 0);
    law_lookup_finds_the_first_with_the_id(all, mutation.append_to->0@);
}

/// [`MutationRun::next_step`] makes the removals in the order in which the playlists are named, each for all items
/// with the id, and skips only playlists from which the track cannot be deleted.
pub proof fn law_run_makes_every_removal(
    run: &mut MutationRun,
    playlists: &Vec<Playlist>,
    step: MutationStep,
    from: usize,
)
    requires
        call_ensures(MutationRun::next_step, (run, playlists), step),
        old(run).phase == MutationPhase::Removing(from) || old(run).phase == MutationPhase::Starting
            && old(run).mutation.append_to is None && from == 0,
        old(run).mutation.track@.id is Some,
        old(run).mutation@.remove_from.len() < usize::MAX,
    ensures
        ({
            let all = playlists_of(playlists@);
            let id = old(run).mutation.track@.id->0;
            let named = old(run).mutation@.remove_from;
            match step {
                MutationStep::Append(_) => false,
                MutationStep::Delete(p, items) => {
                    &&& final(run).phase matches MutationPhase::Removing(next)
                    &&& from < next <= named.len()
                    &&& p@.id == named[next - 1]
                    &&& p@.tracks is Some
                    &&& picked_from(p@.tracks->0, |q: PlayableView| q.id() == Some(id), playables_of(items@))
                    &&& can_delete(all, p@.id, id)
                    &&& forall|k: int| from <= k < next - 1 ==> !can_delete(all, #[trigger] named[k], id)
                },
                MutationStep::Done => {
                    &&& final(run).phase == MutationPhase::Over
                    &&& forall|k: int| from <= k < named.len() ==> !can_delete(all, #[trigger] named[k], id)
                },
            }
        }),
{
    let all = playlists_of(playlists@);
    let m = old(run).mutation@;
    law_mutation_starts_with_its_append(all, m);
    law_removals_skip_only_what_cannot_be_deleted(all, m, from);
    match step {
        MutationStep::Delete(p, items) => {
            law_deletion_takes_every_copy(p@, m.track.id->0);
        },
        _ => {},
    }
}

/// A state that [`SortState::create`] made has no name with a key and nothing in the queue, and after
/// [`SortState::refresh`] the names that [`SortState::bound_playlist_names`] gives are those of the pairs, once each.
pub proof fn law_bound_names(
    made: SortState,
    state: &mut SortState,
    bindings: &Vec<(String, String)>,
    names: Vec<String>,
    name: Seq<char>,
)
    requires
        call_ensures(SortState::create, (), made),
        call_ensures(SortState::refresh, (state, bindings), ()),
        call_ensures(SortState::bound_playlist_names, (&*final(state),), names),
    ensures
        made.wf() && final(state).wf(),
        !made@.bound.contains_key(name) && made@.queue.len() == 0,
        (exists|k: int| 0 <= k < names@.len() && (#[trigger] names@[k])@ == name) <==> exists|k: int|
            0 <= k < bindings@.len() && (#[trigger] bindings@[k]).0@ == name,
        forall|k: int, l: int| 0 <= k < l < names@.len() ==> (#[trigger] names@[k])@ != (#[trigger] names@[l])@,
{
    law_every_pair_binds_its_name(bindings@, name);
    let texts = texts_of(names@);
    assert(texts.to_set().contains(name) == final(state)@.bound.contains_key(name));
    if texts.contains(name) {
        let k = choose|k: int| 0 <= k < texts.len() && texts[k] == name;
        assert(names@[k]@ == name);
    }
    if exists|k: int| 0 <= k < names@.len() && (#[trigger] names@[k])@ == name {
        let k = choose|k: int| 0 <= k < names@.len() && (#[trigger] names@[k])@ == name;
        assert(texts[k] == name);
    }
    assert forall|k: int, l: int| 0 <= k < l < names@.len() implies (#[trigger] names@[k])@ != (#[trigger] names@[l])@ by {
        assert(texts[k] != texts[l]);
    }
}

/// [`SortState::queue_playlist_mutation`] puts the change behind those that are waiting, which stay in their order,
/// and [`SortState::next_mutation`] takes the first and leaves the others in theirs.
pub proof fn law_queued_change_comes_last(
    queued: &mut SortState,
    track: Track,
    remove_from: &Vec<Playlist>,
    append_to: Option<&Playlist>,
    taken: &mut SortState,
    r: Option<PlaylistMutation>,
    i: int,
)
    requires
        call_ensures(SortState::queue_playlist_mutation, (queued, track, remove_from, append_to), ()),
        call_ensures(SortState::next_mutation, (taken,), r),
    ensures
        final(queued).wf(),
        final(queued)@.queue.len() == old(queued)@.queue.len() + 1,
        0 <= i < old(queued)@.queue.len() ==> final(queued)@.queue[i] == old(queued)@.queue[i],
        final(queued)@.queue.last().track == track@,
        final(queued)@.queue.last().remove_from.len() == remove_from@.len(),
        0 <= i < remove_from@.len() ==> final(queued)@.queue.last().remove_from[i] == remove_from@[i].id@,
        append_to is None ==> final(queued)@.queue.last().append_to is None,
        append_to matches Some(p) ==> final(queued)@.queue.last().append_to == Some(p.id@),
        r is Some <==> old(taken)@.queue.len() > 0,
        r matches Some(m) ==> m@ == old(taken)@.queue[0] && final(taken)@.queue.len() == old(taken)@.queue.len() - 1,
        r is Some && 0 < i < old(taken)@.queue.len() ==> final(taken)@.queue[i - 1] == old(taken)@.queue[i],
        r is None ==> final(taken)@.queue.len() == 0,
{
}

} // verus!
