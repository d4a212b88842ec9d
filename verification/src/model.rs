//! What the rest of the crate knows of a track, an episode and a playlist.

use vstd::prelude::*;

use crate::text::{copy_text, copy_texts};
#[allow(unused_imports)]
use crate::text::{law_texts_are_taken_as_they_are, text_of, texts_of};

verus! {

/// A music track as it is listed, stored and played.
pub struct Track {
    /// Absent for a track the service does not know, such as some local files.
    pub id: Option<String>,
    pub uri: String,
    pub title: String,
    pub track_number: u32,
    pub disc_number: i32,
    pub duration: u32,
    pub artists: Vec<String>,
    pub artist_ids: Vec<String>,
    pub album: Option<String>,
    pub album_id: Option<String>,
    pub album_artists: Vec<String>,
    pub cover_url: Option<String>,
    pub url: String,
    /// When the track was liked, as an RFC 3339 time.
    pub added_at: Option<String>,
    pub list_index: usize,
    pub is_local: bool,
    pub is_playable: Option<bool>,
}

/// The contents of a [`Track`].
#[verifier::ext_equal]
pub struct TrackView {
    pub id: Option<Seq<char>>,
    pub uri: Seq<char>,
    pub title: Seq<char>,
    pub track_number: u32,
    pub disc_number: i32,
    pub duration: u32,
    pub artists: Seq<Seq<char>>,
    pub artist_ids: Seq<Seq<char>>,
    pub album: Option<Seq<char>>,
    pub album_id: Option<Seq<char>>,
    pub album_artists: Seq<Seq<char>>,
    pub cover_url: Option<Seq<char>>,
    pub url: Seq<char>,
    pub added_at: Option<Seq<char>>,
    pub list_index: usize,
    pub is_local: bool,
    pub is_playable: Option<bool>,
}

impl View for Track {
    type V = TrackView;

    open spec fn view(&self) -> TrackView {
        TrackView {
            id: text_of(self.id),
            uri: self.uri@,
            title: self.title@,
            track_number: self.track_number,
            disc_number: self.disc_number,
            duration: self.duration,
            artists: texts_of(self.artists@),
            artist_ids: texts_of(self.artist_ids@),
            album: text_of(self.album),
            album_id: text_of(self.album_id),
            album_artists: texts_of(self.album_artists@),
            cover_url: text_of(self.cover_url),
            url: self.url@,
            added_at: text_of(self.added_at),
            list_index: self.list_index,
            is_local: self.is_local,
            is_playable: self.is_playable,
        }
    }
}

impl Clone for Track {
    fn clone(&self) -> (r: Self)
        ensures
            r@ == self@,
    {
        Track {
            id: copy_text(&self.id),
            uri: self.uri.clone(),
            title: self.title.clone(),
            track_number: self.track_number,
            disc_number: self.disc_number,
            duration: self.duration,
            artists: copy_texts(&self.artists),
            artist_ids: copy_texts(&self.artist_ids),
            album: copy_text(&self.album),
            album_id: copy_text(&self.album_id),
            album_artists: copy_texts(&self.album_artists),
            cover_url: copy_text(&self.cover_url),
            url: self.url.clone(),
            added_at: copy_text(&self.added_at),
            list_index: self.list_index,
            is_local: self.is_local,
            is_playable: self.is_playable,
        }
    }
}

/// The contents of a list of tracks.
pub open spec fn tracks_of(v: Seq<Track>) -> Seq<TrackView> {
    v.map_values(|t: Track| t@)
}

/// A podcast episode.
pub struct Episode {
    pub id: String,
    pub uri: String,
    pub name: String,
}

/// The contents of an [`Episode`].
#[verifier::ext_equal]
pub struct EpisodeView {
    pub id: Seq<char>,
    pub uri: Seq<char>,
    pub name: Seq<char>,
}

impl View for Episode {
    type V = EpisodeView;

    open spec fn view(&self) -> EpisodeView {
        EpisodeView { id: self.id@, uri: self.uri@, name: self.name@ }
    }
}

impl Clone for Episode {
    fn clone(&self) -> (r: Self)
        ensures
            r@ == self@,
    {
        Episode { id: self.id.clone(), uri: self.uri.clone(), name: self.name.clone() }
    }
}

/// Something that can be played.
pub enum Playable {
    Track(Track),
    Episode(Episode),
}

/// The contents of a [`Playable`].
#[verifier::ext_equal]
pub enum PlayableView {
    Track(TrackView),
    Episode(EpisodeView),
}

impl PlayableView {
    /// The id under which the service knows it.
    pub open spec fn id(self) -> Option<Seq<char>> {
        match self {
            PlayableView::Track(t) => t.id,
            PlayableView::Episode(e) => Some(e.id),
        }
    }

    /// Whether it is a track that exists only as a local file.
    pub open spec fn is_local_track(self) -> bool {
        match self {
            PlayableView::Track(t) => t.is_local,
            PlayableView::Episode(_) => false,
        }
    }
}

impl View for Playable {
    type V = PlayableView;

    open spec fn view(&self) -> PlayableView {
        match self {
            Playable::Track(t) => PlayableView::Track(t@),
            Playable::Episode(e) => PlayableView::Episode(e@),
        }
    }
}

impl Clone for Playable {
    fn clone(&self) -> (r: Self)
        ensures
            r@ == self@,
    {
        match self {
            Playable::Track(t) => Playable::Track(t.clone()),
            Playable::Episode(e) => Playable::Episode(e.clone()),
        }
    }
}

impl Playable {
    /// Whether the service knows it under `id`.
    pub fn has_id(&self, id: &String) -> (r: bool)
        ensures
            r == (self@.id() == Some(id@)),
    {
        match self {
            Playable::Track(t) => match &t.id {
                Some(own) => *own == *id,
                None => false,
            },
            Playable::Episode(e) => e.id == *id,
        }
    }

    /// The id under which the service knows it.
    pub fn id(&self) -> (r: Option<String>)
        ensures
            text_of(r) == self@.id(),
    {
        match self {
            Playable::Track(t) => copy_text(&t.id),
            Playable::Episode(e) => Some(e.id.clone()),
        }
    }

    /// Whether it is a track that exists only as a local file.
    pub fn is_local_track(&self) -> (r: bool)
        ensures
            r == self@.is_local_track(),
    {
        match self {
            Playable::Track(t) => t.is_local,
            Playable::Episode(_) => false,
        }
    }
}

/// The contents of a list of playables.
pub open spec fn playables_of(v: Seq<Playable>) -> Seq<PlayableView> {
    v.map_values(|p: Playable| p@)
}

/// A playlist, with its tracks once they have been loaded.
pub struct Playlist {
    pub id: String,
    pub name: String,
    pub owner_id: String,
    pub snapshot_id: String,
    pub collaborative: bool,
    /// `None` until the tracks have been loaded.
    pub tracks: Option<Vec<Playable>>,
}

/// The contents of a [`Playlist`].
#[verifier::ext_equal]
pub struct PlaylistView {
    pub id: Seq<char>,
    pub name: Seq<char>,
    pub owner_id: Seq<char>,
    pub snapshot_id: Seq<char>,
    pub collaborative: bool,
    pub tracks: Option<Seq<PlayableView>>,
}

/// Whether one of the items has the id.
pub open spec fn holds_id(items: Seq<PlayableView>, id: Seq<char>) -> bool {
    exists|i: int| 0 <= i < items.len() && (#[trigger] items[i]).id() == Some(id)
}

impl PlaylistView {
    /// Whether the playlist is loaded and holds a track with the id.
    pub open spec fn has_track(self, id: Seq<char>) -> bool {
        match self.tracks {
            Some(items) => holds_id(items, id),
            None => false,
        }
    }
}

impl View for Playlist {
    type V = PlaylistView;

    open spec fn view(&self) -> PlaylistView {
        PlaylistView {
            id: self.id@,
            name: self.name@,
            owner_id: self.owner_id@,
            snapshot_id: self.snapshot_id@,
            collaborative: self.collaborative,
            tracks: match self.tracks {
                Some(v) => Some(playables_of(v@)),
                None => None,
            },
        }
    }
}

/// The contents of a list of playlists.
pub open spec fn playlists_of(v: Seq<Playlist>) -> Seq<PlaylistView> {
    v.map_values(|p: Playlist| p@)
}

/// A copy of a list of playables.
pub fn copy_playables(v: &Vec<Playable>) -> (r: Vec<Playable>)
    ensures
        playables_of(r@) == playables_of(v@),
{
    let mut r: Vec<Playable> = Vec::new();
    for i in 0..v.len()
        invariant
            r@.len() == i,
            forall|j: int| 0 <= j < i ==> (#[trigger] r@[j])@ == v@[j]@,
    {
        r.push(v[i].clone());
    }
    assert(playables_of(r@) =~= playables_of(v@));
    r
}

impl Clone for Playlist {
    fn clone(&self) -> (r: Self)
        ensures
            r@ == self@,
    {
        Playlist {
            id: self.id.clone(),
            name: self.name.clone(),
            owner_id: self.owner_id.clone(),
            snapshot_id: self.snapshot_id.clone(),
            collaborative: self.collaborative,
            tracks: match &self.tracks {
                Some(v) => Some(copy_playables(v)),
                None => None,
            },
        }
    }
}

/// Whether one of the items has the id.
pub fn any_has_id(items: &Vec<Playable>, id: &String) -> (r: bool)
    ensures
        r == holds_id(playables_of(items@), id@),
{
    for i in 0..items.len()
        invariant
            forall|j: int| 0 <= j < i ==> (#[trigger] items@[j])@.id() != Some(id@),
    {
        if items[i].has_id(id) {
            assert(playables_of(items@)[i as int].id() == Some(id@));
            return true;
        }
    }
    assert forall|j: int| 0 <= j < items@.len() implies (#[trigger] playables_of(items@)[j]).id() != Some(id@) by {
        assert(items@[j]@.id() != Some(id@));
    }
    false
}

impl Playlist {
    /// Whether the playlist holds a track with the id.
    pub fn has_track(&self, id: &String) -> (r: bool)
        ensures
            r == self@.has_track(id@),
    {
        match &self.tracks {
            Some(items) => any_has_id(items, id),
            None => false,
        }
    }
}

// --- Laws ------------------------------------------------------------------------------------

/// A track has the id that it was given, if any, and is a local file if it says so; an episode always
/// has its id and is no local file.
pub proof fn law_items_go_by_their_own_id(track: TrackView, episode: EpisodeView)
    ensures
        PlayableView::Track(track).id() == track.id,
        PlayableView::Track(track).is_local_track() == track.is_local,
        PlayableView::Episode(episode).id() == Some(episode.id),
        !PlayableView::Episode(episode).is_local_track(),
{
}

/// A playlist holds a track if and only if it is loaded and has an item with the id, at whatever place;
/// an item put in anywhere counts, and nothing else changes what the playlist holds.
pub proof fn law_playlist_holds_what_is_in_it(p: PlaylistView, items: Seq<PlayableView>, id: Seq<char>)
    ensures
        (PlaylistView { tracks: None, ..p }).has_track(id) == false,
        (PlaylistView { tracks: Some(items), ..p }).has_track(id) <==> exists|i: int|
            0 <= i < items.len() && match #[trigger] items[i] {
                PlayableView::Track(t) => t.id == Some(id),
                PlayableView::Episode(e) => e.id == id,
            },
{
    let loaded = PlaylistView { tracks: Some(items), ..p };
    if loaded.has_track(id) {
        let i = choose|i: int| 0 <= i < items.len() && (#[trigger] items[i]).id() == Some(id);
        assert(match items[i] {
            PlayableView::Track(t) => t.id == Some(id),
            PlayableView::Episode(e) => e.id == id,
        });
    }
    if exists|i: int|
        0 <= i < items.len() && match #[trigger] items[i] {
            PlayableView::Track(t) => t.id == Some(id),
            PlayableView::Episode(e) => e.id == id,
        } {
        let i = choose|i: int|
            0 <= i < items.len() && match #[trigger] items[i] {
                PlayableView::Track(t) => t.id == Some(id),
                PlayableView::Episode(e) => e.id == id,
            };
        assert(items[i].id() == Some(id));
    }
}

/// Two tracks with the same contents agree in every field.
pub proof fn law_track_contents_are_complete(a: Track, b: Track)
    requires
        a@ == b@,
    ensures
        a.id is Some <==> b.id is Some,
        a.id is Some ==> a.id->0@ == b.id->0@,
        a.uri@ == b.uri@,
        a.title@ == b.title@,
        a.track_number == b.track_number,
        a.disc_number == b.disc_number,
        a.duration == b.duration,
        a.artists@.len() == b.artists@.len(),
        forall|i: int| 0 <= i < a.artists@.len() ==> (#[trigger] a.artists@[i])@ == b.artists@[i]@,
        a.artist_ids@.len() == b.artist_ids@.len(),
        forall|i: int| 0 <= i < a.artist_ids@.len() ==> (#[trigger] a.artist_ids@[i])@ == b.artist_ids@[i]@,
        a.album is Some <==> b.album is Some,
        a.album is Some ==> a.album->0@ == b.album->0@,
        a.album_id is Some <==> b.album_id is Some,
        a.album_id is Some ==> a.album_id->0@ == b.album_id->0@,
        a.album_artists@.len() == b.album_artists@.len(),
        forall|i: int| 0 <= i < a.album_artists@.len() ==> (#[trigger] a.album_artists@[i])@ == b.album_artists@[i]@,
        a.cover_url is Some <==> b.cover_url is Some,
        a.cover_url is Some ==> a.cover_url->0@ == b.cover_url->0@,
        a.url@ == b.url@,
        a.added_at is Some <==> b.added_at is Some,
        a.added_at is Some ==> a.added_at->0@ == b.added_at->0@,
        a.list_index == b.list_index,
        a.is_local == b.is_local,
        a.is_playable == b.is_playable,
{
    lemma_same_texts(a.artists@, b.artists@);
    lemma_same_texts(a.artist_ids@, b.artist_ids@);
    lemma_same_texts(a.album_artists@, b.album_artists@);
}

/// Lists of texts with the same contents agree text by text.
proof fn lemma_same_texts(a: Seq<String>, b: Seq<String>)
    requires
        texts_of(a) == texts_of(b),
    ensures
        a.len() == b.len(),
        forall|i: int| 0 <= i < a.len() ==> (#[trigger] a[i])@ == b[i]@,
{
    law_texts_are_taken_as_they_are(a, None);
    law_texts_are_taken_as_they_are(b, None);
    assert forall|i: int| 0 <= i < a.len() implies (#[trigger] a[i])@ == b[i]@ by {
        assert(texts_of(a)[i] == texts_of(b)[i]);
        assert(texts_of(b)[i] == b[i]@);
    }
}

/// Two playlists with the same contents agree in every field, item by item.
pub proof fn law_playlist_contents_are_complete(a: Playlist, b: Playlist)
    requires
        a@ == b@,
    ensures
        a.id@ == b.id@,
        a.name@ == b.name@,
        a.owner_id@ == b.owner_id@,
        a.snapshot_id@ == b.snapshot_id@,
        a.collaborative == b.collaborative,
        a.tracks is Some <==> b.tracks is Some,
        a.tracks is Some ==> a.tracks->0@.len() == b.tracks->0@.len(),
        a.tracks is Some ==> forall|i: int|
            0 <= i < a.tracks->0@.len() ==> match (#[trigger] a.tracks->0@[i], b.tracks->0@[i]) {
                (Playable::Track(s), Playable::Track(t)) => s@ == t@,
                (Playable::Episode(d), Playable::Episode(e)) => d.id@ == e.id@ && d.uri@ == e.uri@ && d.name@
                    == e.name@,
                _ => false,
            },
{
    if a.tracks is Some {
        let ours = a.tracks->0@;
        let theirs = b.tracks->0@;
        assert(playables_of(ours) == playables_of(theirs));
        assert(playables_of(ours).len() == playables_of(theirs).len());
        assert forall|i: int| 0 <= i < ours.len() implies match (#[trigger] ours[i], theirs[i]) {
            (Playable::Track(s), Playable::Track(t)) => s@ == t@,
            (Playable::Episode(d), Playable::Episode(e)) => d.id@ == e.id@ && d.uri@ == e.uri@ && d.name@ == e.name@,
            _ => false,
        } by {
            assert(playables_of(ours)[i] == playables_of(theirs)[i]);
        }
    }
}

/// [`Playlist::has_track`] finds a track or an episode with the id at any place of a loaded playlist, and nothing else.
pub proof fn law_has_track(playlist: &Playlist, id: &String, r: bool)
    requires
        call_ensures(Playlist::has_track, (playlist, id), r),
    ensures
        r <==> playlist.tracks is Some && exists|i: int|
            0 <= i < playlist.tracks->0@.len() && match #[trigger] playlist.tracks->0@[i] {
                Playable::Track(t) => t.id is Some && t.id->0@ == id@,
                Playable::Episode(e) => e.id@ == id@,
            },
{
    if playlist.tracks is Some {
        let own = playlist.tracks->0@;
        let items = playables_of(own);
        law_playlist_holds_what_is_in_it(playlist@, items, id@);
        assert((PlaylistView { tracks: Some(items), ..playlist@ }) == playlist@);
        if r {
            let i = choose|i: int| 0 <= i < items.len() && (#[trigger] items[i]).id() == Some(id@);
            assert(items[i] == own[i]@);
        }
        if exists|i: int|
            0 <= i < own.len() && match #[trigger] own[i] {
                Playable::Track(t) => t.id is Some && t.id->0@ == id@,
                Playable::Episode(e) => e.id@ == id@,
            } {
            let i = choose|i: int|
                0 <= i < own.len() && match #[trigger] own[i] {
                    Playable::Track(t) => t.id is Some && t.id->0@ == id@,
                    Playable::Episode(e) => e.id@ == id@,
                };
            assert(items[i] == own[i]@);
            assert(items[i].id() == Some(id@));
        }
    }
}

/// [`Playable::id`], [`Playable::has_id`] and [`Playable::is_local_track`] go by the track's own id, if it has one, and
/// by what it says of being a local file; an episode has its id and is no local file.
pub proof fn law_items_are_asked(item: &Playable, id: &String, own: Option<String>, has: bool, local: bool)
    requires
        call_ensures(Playable::id, (item,), own),
        call_ensures(Playable::has_id, (item, id), has),
        call_ensures(Playable::is_local_track, (item,), local),
    ensures
        has <==> own is Some && own->0@ == id@,
        item matches Playable::Track(t) ==> {
            &&& own is Some <==> t.id is Some
            &&& t.id is Some ==> own->0@ == t.id->0@
            &&& local <==> t.is_local
        },
        item matches Playable::Episode(e) ==> own is Some && own->0@ == e.id@ && !local,
{
}

/// [`any_has_id`] finds the id at any place, and copies of items have the same contents, place by place.
pub proof fn law_items_are_looked_through(items: &Vec<Playable>, id: &String, r: bool, copies: Vec<Playable>)
    requires
        call_ensures(any_has_id, (items, id), r),
        call_ensures(copy_playables, (items,), copies),
    ensures
        r <==> exists|i: int|
            0 <= i < items@.len() && match #[trigger] items@[i] {
                Playable::Track(t) => t.id is Some && t.id->0@ == id@,
                Playable::Episode(e) => e.id@ == id@,
            },
        copies@.len() == items@.len(),
        forall|i: int| 0 <= i < items@.len() ==> (#[trigger] copies@[i])@ == items@[i]@,
{
    let all = playables_of(items@);
    if r {
        let i = choose|i: int| 0 <= i < all.len() && (#[trigger] all[i]).id() == Some(id@);
        assert(all[i] == items@[i]@);
    }
    if exists|i: int|
        0 <= i < items@.len() && match #[trigger] items@[i] {
            Playable::Track(t) => t.id is Some && t.id->0@ == id@,
            Playable::Episode(e) => e.id@ == id@,
        } {
        let i = choose|i: int|
            0 <= i < items@.len() && match #[trigger] items@[i] {
                Playable::Track(t) => t.id is Some && t.id->0@ == id@,
                Playable::Episode(e) => e.id@ == id@,
            };
        assert(all[i] == items@[i]@);
        assert(all[i].id() == Some(id@));
    }
    assert(playables_of(copies@).len() == copies@.len());
    assert forall|i: int| 0 <= i < items@.len() implies (#[trigger] copies@[i])@ == items@[i]@ by {
        assert(playables_of(copies@)[i] == copies@[i]@);
        assert(all[i] == items@[i]@);
    }
}

} // verus!
