//! The user's "Liked Songs" list, virtualized.
//!
//! The list is seeded instantly from the on-disk store on launch and revalidated against the
//! service page by page as it is scrolled, so a huge library never blocks startup and never loads
//! in full unless the user scrolls the whole way down. This module decides what to fetch, how a
//! fetched page changes the list, and what has to be written to the store; fetching and writing
//! are the caller's.

use vstd::prelude::*;

#[allow(unused_imports)]
use crate::filters::{lemma_filter_all, lemma_filter_picks, lemma_picks_count, picked_from};
use crate::model::Track;
#[allow(unused_imports)]
use crate::model::{tracks_of, TrackView};
use crate::text::same_text;
#[allow(unused_imports)]
use crate::store::{law_load_gives_back_the_list, present, table_of, texts_in_order, StoreView};
#[allow(unused_imports)]
use crate::text::text_of;

verus! {

/// Rows past the wanted one to keep validated ahead of the scroll position: the page loader
/// fetches this far beyond what the view has asked for, so scrolling does not repeatedly stall
/// waiting for a page.
pub const SAVED_TRACKS_MARGIN: usize = 150;

/// How much of the list is known to match the service.
#[derive(Clone, Copy, Debug)]
pub struct SavedTracksMeta {
    /// Number of liked songs reported by the service, once the first page has come back.
    pub total: Option<usize>,
    /// The rows below this one have been confirmed against the service this session (or are
    /// trusted wholesale from an unchanged cache, see `fresh`).
    pub fetched_through: usize,
    /// The cached list matched the service on the last check, so the whole of it is trusted and
    /// no scrolling triggers a fetch.
    pub fresh: bool,
}

/// A change of the stored list.
#[derive(Clone, Copy, Debug)]
pub enum ListWrite {
    /// Write the rows of the page that just came in, the first of them at position `start`, and
    /// leave later positions alone.
    Page { start: usize },
    /// Rewrite the whole list.
    All,
    /// Drop every position from `len` on.
    Truncate { len: usize },
}

/// What has to be written to the store after the list changed.
#[derive(Clone, Copy, Debug)]
pub struct Persistence {
    pub write: ListWrite,
    /// The number of liked songs to remember, if it is known.
    pub total: Option<usize>,
}

/// Owns the Liked Songs list and its incremental revalidation.
pub struct LikedSongs {
    /// The liked songs, newest first.
    saved_tracks: Vec<Track>,
    meta: SavedTracksMeta,
    /// Counts the changes of the list, so that views can tell when to rebuild.
    version: u64,
}

/// The contents of a [`LikedSongs`].
#[verifier::ext_equal]
pub struct LikedView {
    pub tracks: Seq<TrackView>,
    pub meta: SavedTracksMeta,
    pub version: u64,
}

impl View for LikedSongs {
    type V = LikedView;

    closed spec fn view(&self) -> LikedView {
        LikedView { tracks: tracks_of(self.saved_tracks@), meta: self.meta, version: self.version }
    }
}

/// A walk through the pages up to a wanted row. See [`LikedSongs::ensure_through`].
#[derive(Clone, Copy, Debug)]
pub struct PageWalk {
    /// The row to reach.
    pub want: usize,
    /// The row at which the page that is being fetched starts.
    pub through: usize,
    /// Whether the walk has changed the list.
    pub changed: bool,
}

/// What a walk does next.
#[derive(Clone, Copy, Debug)]
pub enum WalkStep {
    /// Fetch the page that starts at `offset`; see [`LikedSongs::page_arrived`]. If the fetch
    /// fails the walk is over.
    Fetch { offset: u32 },
    /// The list was longer than the service's and has been cut to `len`; do the same to the
    /// store. The walk is over.
    Truncate { len: usize },
    /// The walk is over.
    Stop,
}

// --- The list as a value ---------------------------------------------------------------------

pub open spec fn smaller(a: int, b: int) -> int {
    if a <= b {
        a
    } else {
        b
    }
}

/// `list` with the rows from `at` on replaced by `items`, as many as there are; a page at or past
/// the end is appended.
pub open spec fn spliced(list: Seq<TrackView>, at: nat, items: Seq<TrackView>) -> Seq<TrackView> {
    if at >= list.len() {
        list + items
    } else {
        list.take(at as int) + items + list.skip(smaller((at + items.len()) as int, list.len() as int))
    }
}

/// Whether `head` has, row by row, the ids that `list` starts with.
pub open spec fn head_matches(head: Seq<TrackView>, list: Seq<TrackView>) -> bool {
    &&& head.len() <= list.len()
    &&& forall|i: int| 0 <= i < head.len() ==> (#[trigger] head[i]).id == list[i].id
}

/// Whether a row of the list has this id. An absent id equals another absent one.
pub open spec fn lists_id(list: Seq<TrackView>, id: Option<Seq<char>>) -> bool {
    exists|i: int| 0 <= i < list.len() && (#[trigger] list[i]).id == id
}

/// `list` with the new ones among `tracks` put in front of it, in their order.
pub open spec fn with_added(list: Seq<TrackView>, tracks: Seq<TrackView>) -> Seq<TrackView>
    decreases tracks.len(),
{
    if tracks.len() == 0 {
        list
    } else {
        let rest = with_added(list, tracks.skip(1));
        if lists_id(rest, tracks[0].id) {
            rest
        } else {
            seq![tracks[0]] + rest
        }
    }
}

/// `list` without the rows that share an id with one of `tracks`.
pub open spec fn with_removed(list: Seq<TrackView>, tracks: Seq<TrackView>) -> Seq<TrackView> {
    list.filter(|t: TrackView| !lists_id(tracks, t.id))
}

/// The number of liked songs, if it is known, once the list has gone from one length to another: it
/// changes by as many as the list.
pub open spec fn moved_total(total: Option<usize>, from: nat, to: nat) -> Option<usize> {
    match total {
        Some(total) => Some(
            if total + to < from {
                0
            } else {
                smaller(total + to - from, usize::MAX as int) as usize
            },
        ),
        None => None,
    }
}

impl LikedView {
    /// No more rows are held to be confirmed than there are, unless all of them are trusted.
    pub open spec fn wf(self) -> bool {
        self.meta.fresh || self.meta.fetched_through <= self.tracks.len()
    }

    /// Whether rows up to `want` and the margin beyond it still have to be confirmed, or the list still
    /// has to be cut to the length that the service reports.
    pub open spec fn needs_walk(self, want: usize) -> bool {
        &&& !self.meta.fresh
        &&& want + SAVED_TRACKS_MARGIN > self.meta.fetched_through
        &&& !(self.all_fetched() && self.tracks.len() <= self.meta.total->0)
    }

    /// Whether every row that the service reports has been confirmed.
    pub open spec fn all_fetched(self) -> bool {
        self.meta.total is Some && self.meta.fetched_through >= self.meta.total->0
    }

    /// The state seeded from the store.
    pub open spec fn seeded(self, cached: Seq<TrackView>, total: Option<usize>) -> LikedView {
        LikedView {
            tracks: cached,
            meta: SavedTracksMeta { total, fetched_through: 0, fresh: self.meta.fresh },
            version: (self.version + 1) as u64,
        }
    }

    /// The state after the first page, with the total that came with it, has been reconciled with
    /// the list.
    pub open spec fn revalidated(self, head: Seq<TrackView>, total: usize) -> LikedView {
        let tracks = spliced(self.tracks, 0, head);
        let fresh = head_matches(head, self.tracks) && total == self.tracks.len();
        LikedView {
            tracks,
            meta: SavedTracksMeta {
                total: Some(total),
                fetched_through: if fresh {
                    tracks.len() as usize
                } else {
                    smaller(smaller(head.len() as int, total as int), SAVED_TRACKS_MARGIN as int) as usize
                },
                fresh,
            },
            version: (self.version + 1) as u64,
        }
    }

    /// What a walk to `want` does next in this state.
    pub open spec fn walk_step(self, want: usize) -> WalkStep {
        if self.meta.fresh || want + SAVED_TRACKS_MARGIN <= self.meta.fetched_through {
            WalkStep::Stop
        } else if self.all_fetched() {
            if self.tracks.len() > self.meta.total->0 {
                WalkStep::Truncate { len: self.meta.total->0 }
            } else {
                WalkStep::Stop
            }
        } else {
            WalkStep::Fetch { offset: self.meta.fetched_through as u32 }
        }
    }

    /// The state after that step: a list that has been confirmed to its end is cut to the length
    /// that the service reports and becomes fresh.
    pub open spec fn after_step(self, want: usize) -> LikedView {
        if self.meta.fresh || want + SAVED_TRACKS_MARGIN <= self.meta.fetched_through {
            self
        } else if self.all_fetched() {
            LikedView {
                tracks: self.tracks.take(smaller(self.tracks.len() as int, self.meta.total->0 as int)),
                meta: SavedTracksMeta { fresh: true, ..self.meta },
                version: self.version,
            }
        } else {
            self
        }
    }

    /// The state after the page at `through` has come in with the total that the service reports.
    /// An empty page means that the list ends there, whatever the total says.
    pub open spec fn with_page(self, through: usize, items: Seq<TrackView>, total: usize) -> LikedView {
        LikedView {
            tracks: spliced(self.tracks, through as nat, items),
            meta: if items.len() == 0 {
                SavedTracksMeta { total: Some(through), ..self.meta }
            } else {
                SavedTracksMeta {
                    total: Some(total),
                    fetched_through: (through + items.len()) as usize,
                    fresh: self.meta.fresh,
                }
            },
            version: self.version,
        }
    }

    /// How many of the rows that are confirmed are left without those that share an id with one of
    /// `gone`.
    pub open spec fn still_confirmed(self, gone: Seq<TrackView>) -> nat {
        let through = smaller(self.meta.fetched_through as int, self.tracks.len() as int);
        with_removed(self.tracks.take(through), gone).len()
    }

    /// The state after the list was changed to `tracks` from this side, `confirmed` of them known to
    /// match the service.
    pub open spec fn mutated(self, tracks: Seq<TrackView>, confirmed: nat) -> LikedView {
        LikedView {
            tracks,
            meta: SavedTracksMeta {
                total: moved_total(self.meta.total, self.tracks.len(), tracks.len()),
                fetched_through: smaller(confirmed as int, tracks.len() as int) as usize,
                fresh: self.meta.fresh,
            },
            version: (self.version + 1) as u64,
        }
    }

    /// The state after tracks have been liked.
    pub open spec fn liked(self, tracks: Seq<TrackView>) -> LikedView {
        self.mutated(with_added(self.tracks, tracks), self.meta.fetched_through as nat)
    }

    /// The state after tracks have been unliked.
    pub open spec fn unliked(self, tracks: Seq<TrackView>) -> LikedView {
        self.mutated(with_removed(self.tracks, tracks), self.still_confirmed(tracks))
    }
}

// --- Helpers ---------------------------------------------------------------------------------

/// Put copies of `items` at the end of the list.
fn push_copies(list: &mut Vec<Track>, items: &Vec<Track>)
    ensures
        tracks_of(final(list)@) == tracks_of(old(list)@) + tracks_of(items@),
{
    let ghost before = tracks_of(list@);
    assert(tracks_of(items@).take(0) =~= Seq::<TrackView>::empty());
    assert(before =~= before + tracks_of(items@).take(0));
    for i in 0..items.len()
        invariant
            tracks_of(list@) == before + tracks_of(items@).take(i as int),
    {
        let ghost held = list@;
        list.push(items[i].clone());
        assert(tracks_of(list@) =~= tracks_of(held).push(items@[i as int]@));
        assert(tracks_of(items@).take(i + 1) =~= tracks_of(items@).take(i as int).push(items@[i as int]@));
        assert(tracks_of(list@) =~= before + tracks_of(items@).take(i + 1));
    }
    assert(tracks_of(items@).take(items@.len() as int) =~= tracks_of(items@));
}

/// Replace the rows from `at` on by copies of `items`, or append them past the end.
fn splice_rows(list: &mut Vec<Track>, at: usize, items: &Vec<Track>)
    requires
        at + items@.len() <= usize::MAX,
    ensures
        tracks_of(final(list)@) == spliced(tracks_of(old(list)@), at as nat, tracks_of(items@)),
{
    let ghost before = list@;
    if at >= list.len() {
        push_copies(list, items);
    } else {
        let reach: usize = at + items.len();
        let end: usize = if reach < list.len() {
            reach
        } else {
            list.len()
        };
        let mut tail = list.split_off(end);
        list.truncate(at);
        assert(tracks_of(list@) =~= tracks_of(before).take(at as int));
        assert(tracks_of(tail@) =~= tracks_of(before).skip(end as int));
        push_copies(list, items);
        let ghost front = list@;
        let ghost back = tail@;
        list.append(&mut tail);
        assert(tracks_of(list@) =~= tracks_of(front) + tracks_of(back));
    }
}

/// Whether a track of the list has the id.
fn any_with_id(list: &Vec<Track>, id: &Option<String>) -> (r: bool)
    ensures
        r == lists_id(tracks_of(list@), text_of(*id)),
{
    for i in 0..list.len()
        invariant
            forall|j: int| 0 <= j < i ==> (#[trigger] list@[j])@.id != text_of(*id),
    {
        if same_text(&list[i].id, id) {
            assert(tracks_of(list@)[i as int].id == text_of(*id));
            return true;
        }
    }
    assert forall|j: int| 0 <= j < list@.len() implies (#[trigger] tracks_of(list@)[j]).id != text_of(*id) by {
        assert(list@[j]@.id != text_of(*id));
    }
    false
}

/// Whether `head` has, row by row, the ids that `list` starts with.
fn same_head(head: &Vec<Track>, list: &Vec<Track>) -> (r: bool)
    ensures
        r == head_matches(tracks_of(head@), tracks_of(list@)),
{
    if head.len() > list.len() {
        return false;
    }
    for i in 0..head.len()
        invariant
            head@.len() <= list@.len(),
            forall|j: int| 0 <= j < i ==> (#[trigger] head@[j])@.id == list@[j]@.id,
    {
        if !same_text(&head[i].id, &list[i].id) {
            assert(tracks_of(head@)[i as int].id != tracks_of(list@)[i as int].id);
            return false;
        }
    }
    assert forall|j: int| 0 <= j < head@.len() implies (#[trigger] tracks_of(head@)[j]).id == tracks_of(list@)[j].id by {
        assert(head@[j]@.id == list@[j]@.id);
    }
    true
}

impl LikedSongs {
    /// An empty list of which nothing is confirmed.
    pub fn new() -> (r: Self)
        ensures
            r@ == (LikedView {
                tracks: Seq::empty(),
                meta: SavedTracksMeta { total: None, fetched_through: 0, fresh: false },
                version: 0,
            }),
    {
        let r = LikedSongs {
            saved_tracks: Vec::new(),
            meta: SavedTracksMeta { total: None, fetched_through: 0, fresh: false },
            version: 0,
        };
        assert(tracks_of(r.saved_tracks@) =~= Seq::<TrackView>::empty());
        r
    }

    /// The list.
    pub fn saved_tracks(&self) -> (r: &Vec<Track>)
        ensures
            tracks_of(r@) == self@.tracks,
    {
        &self.saved_tracks
    }

    /// The version counter of the list; it changes whenever the list is changed.
    pub fn version(&self) -> (r: u64)
        ensures
            r == self@.version,
    {
        self.version
    }

    /// Number of liked songs the service reports, if the first page has come back yet. Compare it
    /// with the length of the list to tell whether the whole list is loaded.
    pub fn total(&self) -> (r: Option<usize>)
        ensures
            r == self@.meta.total,
    {
        self.meta.total
    }

    /// How much of the list is confirmed.
    pub fn meta(&self) -> (r: SavedTracksMeta)
        ensures
            r == self@.meta,
    {
        self.meta
    }

    /// Seed the list from the rows and the total that the store held.
    pub fn load_cache(&mut self, cached: Vec<Track>, total: Option<usize>)
        requires
            old(self)@.version < u64::MAX,
        ensures
            final(self)@ == old(self)@.seeded(tracks_of(cached@), total),
    {
        self.saved_tracks = cached;
        self.meta.fetched_through = 0;
        self.meta.total = total;
        self.version = self.version + 1;
    }

    /// Reconcile the first page, with the total that came with it, with the cached list: the
    /// page's rows always replace those of the list, and if the list still matches the service
    /// exactly the whole of it is trusted. Otherwise the stale rows stay and get replaced page by
    /// page (see [`LikedSongs::ensure_through`]). `None` is a page that could not be fetched; it
    /// changes nothing. Returns what to write to the store.
    pub fn revalidate(&mut self, page: Option<(&Vec<Track>, usize)>) -> (r: Option<Persistence>)
        requires
            page is Some ==> old(self)@.version < u64::MAX,
        ensures
            match page {
                Some((head, total)) => {
                    &&& final(self)@ == old(self)@.revalidated(tracks_of(head@), total)
                    &&& r == Some(Persistence { write: ListWrite::Page { start: 0 }, total: Some(total) })
                },
                None => final(self)@ == old(self)@ && r is None,
            },
    {
        let (head, total) = match page {
            Some(p) => p,
            None => {
                return None;
            },
        };
        let old_len: usize = self.saved_tracks.len();
        let head_len: usize = head.len();
        let fresh = same_head(head, &self.saved_tracks) && total == old_len;
        splice_rows(&mut self.saved_tracks, 0, head);
        self.meta.total = Some(total);
        self.meta.fresh = fresh;
        if fresh {
            self.meta.fetched_through = self.saved_tracks.len();
        } else {
            let mut through: usize = head_len;
            if total < through {
                through = total;
            }
            if SAVED_TRACKS_MARGIN < through {
                through = SAVED_TRACKS_MARGIN;
            }
            self.meta.fetched_through = through;
        }
        self.version = self.version + 1;
        Some(Persistence { write: ListWrite::Page { start: 0 }, total: Some(total) })
    }

    /// Ask for the rows up to `want` (plus a margin) to be confirmed. Returns the walk that
    /// fetches the missing pages and cuts off what the service does not have, or `None` if there is
    /// nothing to do. At most one walk may run at a time.
    pub fn ensure_through(&self, want: usize) -> (r: Option<PageWalk>)
        requires
            !self@.meta.fresh ==> want + SAVED_TRACKS_MARGIN <= usize::MAX,
        ensures
            r == (if self@.needs_walk(want) {
                Some(PageWalk { want, through: self@.meta.fetched_through, changed: false })
            } else {
                None
            }),
    {
        if self.meta.fresh {
            return None;
        }
        if want + SAVED_TRACKS_MARGIN <= self.meta.fetched_through {
            return None;
        }
        if let Some(total) = self.meta.total {
            if self.meta.fetched_through >= total && self.saved_tracks.len() <= total {
                return None;
            }
        }
        Some(PageWalk { want, through: self.meta.fetched_through, changed: false })
    }

    /// Decide the next step of a walk.
    pub fn next_step(&mut self, walk: &mut PageWalk) -> (r: WalkStep)
        requires
            !old(self)@.meta.fresh ==> old(walk).want + SAVED_TRACKS_MARGIN <= usize::MAX,
        ensures
            r == old(self)@.walk_step(old(walk).want),
            final(self)@ == old(self)@.after_step(old(walk).want),
            final(walk).want == old(walk).want,
            final(walk).through == old(self)@.meta.fetched_through,
            final(walk).changed == (old(walk).changed || r is Truncate),
    {
        let through: usize = self.meta.fetched_through;
        walk.through = through;
        if self.meta.fresh || walk.want + SAVED_TRACKS_MARGIN <= through {
            return WalkStep::Stop;
        }
        if let Some(total) = self.meta.total {
            if through >= total {
                let mut step = WalkStep::Stop;
                let ghost before = self.saved_tracks@;
                if self.saved_tracks.len() > total {
                    self.saved_tracks.truncate(total);
                    walk.changed = true;
                    step = WalkStep::Truncate { len: total };
                    assert(tracks_of(self.saved_tracks@) =~= tracks_of(before).take(total as int));
                } else {
                    assert(tracks_of(before).take(before.len() as int) =~= tracks_of(before));
                }
                self.meta.fresh = true;
                return step;
            }
        }
        WalkStep::Fetch {
            offset: #[verifier::truncate]
            (through as u32),
        }
    }

    /// Fold the page that a walk asked for into the list. Returns what to write to the store.
    pub fn page_arrived(&mut self, walk: &mut PageWalk, items: &Vec<Track>, total: usize) -> (r: Persistence)
        requires
            old(walk).through + items@.len() <= usize::MAX,
        ensures
            final(self)@ == old(self)@.with_page(old(walk).through, tracks_of(items@), total),
            *final(walk) == (PageWalk { changed: true, ..*old(walk) }),
            r.write == (ListWrite::Page { start: old(walk).through }),
            r.total == final(self)@.meta.total,
    {
        let through: usize = walk.through;
        let got: usize = items.len();
        splice_rows(&mut self.saved_tracks, through, items);
        walk.changed = true;
        if got == 0 {
            self.meta.total = Some(through);
        } else {
            self.meta.total = Some(total);
            self.meta.fetched_through = through + got;
        }
        Persistence { write: ListWrite::Page { start: through }, total: self.meta.total }
    }

    /// End a walk, whether it stopped by itself or a fetch failed. Returns whether the list has
    /// changed and should be drawn again.
    pub fn finish_walk(&mut self, walk: PageWalk) -> (r: bool)
        requires
            walk.changed ==> old(self)@.version < u64::MAX,
        ensures
            r == walk.changed,
            final(self)@.tracks == old(self)@.tracks,
            final(self)@.meta == old(self)@.meta,
            final(self)@.version == old(self)@.version + if walk.changed {
                1int
            } else {
                0
            },
    {
        if walk.changed {
            self.version = self.version + 1;
        }
        walk.changed
    }

    /// Fold newly liked tracks into the front of the list. Returns what to write to the store.
    pub fn apply_saved_added(&mut self, tracks: &Vec<Track>) -> (r: Persistence)
        requires
            old(self)@.version < u64::MAX,
        ensures
            final(self)@ == old(self)@.liked(tracks_of(tracks@)),
            r == (Persistence { write: ListWrite::All, total: final(self)@.meta.total }),
    {
        let ghost list = self@.tracks;
        let ghost added = tracks_of(tracks@);
        let rows: usize = self.saved_tracks.len();
        let mut i: usize = tracks.len();
        assert(added.skip(i as int) =~= Seq::<TrackView>::empty());
        while i > 0
            invariant
                i <= tracks@.len(),
                added == tracks_of(tracks@),
                tracks_of(self.saved_tracks@) == with_added(list, added.skip(i as int)),
                self.meta == old(self).meta,
                self.version == old(self).version,
            decreases i,
        {
            i -= 1;
            assert(added.skip(i as int).skip(1) =~= added.skip(i + 1));
            assert(added.skip(i as int)[0] == tracks@[i as int]@);
            if !any_with_id(&self.saved_tracks, &tracks[i].id) {
                let ghost held = self.saved_tracks@;
                self.saved_tracks.insert(0, tracks[i].clone());
                assert(tracks_of(self.saved_tracks@) =~= seq![tracks@[i as int]@] + tracks_of(held));
            }
        }
        assert(added.skip(0) =~= added);
        let confirmed: usize = self.meta.fetched_through;
        self.after_local_mutation(rows, confirmed)
    }

    /// Drop tracks from the list. Of the rows that were confirmed, those that are left stay so.
    /// Returns what to write to the store.
    pub fn apply_saved_removed(&mut self, tracks: &Vec<Track>) -> (r: Persistence)
        requires
            old(self)@.version < u64::MAX,
        ensures
            final(self)@ == old(self)@.unliked(tracks_of(tracks@)),
            r == (Persistence { write: ListWrite::All, total: final(self)@.meta.total }),
    {
        let ghost list = self@.tracks;
        let ghost gone = tracks_of(tracks@);
        let ghost keep = |t: TrackView| !lists_id(gone, t.id);
        let through: usize = self.meta.fetched_through;
        let rows: usize = self.saved_tracks.len();
        // The place in the list before, and in the list as it is.
        let mut seen: usize = 0;
        let mut i: usize = 0;
        let mut confirmed: usize = 0;
        assert(list.take(0).filter(keep) =~= Seq::<TrackView>::empty()) by {
            reveal(Seq::filter);
        }
        while i < self.saved_tracks.len()
            invariant
                i <= self.saved_tracks@.len(),
                0 <= seen <= list.len(),
                list.len() == rows,
                gone == tracks_of(tracks@),
                keep == (|t: TrackView| !lists_id(gone, t.id)),
                tracks_of(self.saved_tracks@).take(i as int) == list.take(seen as int).filter(keep),
                tracks_of(self.saved_tracks@).skip(i as int) == list.skip(seen as int),
                confirmed == list.take(smaller(seen as int, through as int)).filter(keep).len(),
                confirmed <= i,
                self.meta == old(self).meta,
                self.version == old(self).version,
            decreases self.saved_tracks@.len() - i,
        {
            let ghost held = self.saved_tracks@;
            proof {
                assert(tracks_of(held).skip(i as int)[0] == held[i as int]@);
                assert(list.skip(seen as int).len() > 0);
                assert(list.skip(seen as int)[0] == list[seen as int]);
                assert(list.take(seen + 1).drop_last() =~= list.take(seen as int));
                assert(list.take(seen + 1).last() == held[i as int]@);
                reveal(Seq::filter);
            }
            if any_with_id(tracks, &self.saved_tracks[i].id) {
                self.saved_tracks.remove(i);
                assert(tracks_of(self.saved_tracks@).take(i as int) =~= tracks_of(held).take(i as int));
                assert(tracks_of(self.saved_tracks@).skip(i as int) =~= tracks_of(held).skip(i as int).skip(1));
            } else {
                if seen < through {
                    confirmed += 1;
                }
                i += 1;
                assert(tracks_of(held).take(i as int) =~= tracks_of(held).take(i - 1).push(held[i - 1]@));
                assert(tracks_of(held).skip(i as int) =~= tracks_of(held).skip(i - 1).skip(1));
            }
            assert(list.skip(seen + 1) =~= list.skip(seen as int).skip(1));
            seen += 1;
        }
        proof {
            assert(list.skip(seen as int).len() == 0);
            assert(list.take(seen as int) =~= list);
            assert(tracks_of(self.saved_tracks@).take(i as int) =~= tracks_of(self.saved_tracks@));
        }
        self.after_local_mutation(rows, confirmed)
    }

    /// Bring the counters in line with a list that was changed from this side, `rows` long before.
    fn after_local_mutation(&mut self, rows: usize, confirmed: usize) -> (r: Persistence)
        requires
            old(self)@.version < u64::MAX,
        ensures
            final(self)@ == (LikedView {
                tracks: old(self)@.tracks,
                meta: SavedTracksMeta {
                    total: moved_total(old(self)@.meta.total, rows as nat, old(self)@.tracks.len()),
                    fetched_through: smaller(confirmed as int, old(self)@.tracks.len() as int) as usize,
                    fresh: old(self)@.meta.fresh,
                },
                version: (old(self)@.version + 1) as u64,
            }),
            r == (Persistence { write: ListWrite::All, total: final(self)@.meta.total }),
    {
        let len: usize = self.saved_tracks.len();
        if let Some(total) = self.meta.total {
            self.meta.total = Some(
                if len >= rows {
                    total.saturating_add(len - rows)
                } else {
                    total.saturating_sub(rows - len)
                },
            );
        }
        self.meta.fetched_through = if len < confirmed {
            len
        } else {
            confirmed
        };
        self.version = self.version + 1;
        Persistence { write: ListWrite::All, total: self.meta.total }
    }
}

// --- Laws ------------------------------------------------------------------------------------

/// The texts of a list's rows.
pub open spec fn encoded(list: Seq<TrackView>, encoding: spec_fn(TrackView) -> Seq<char>) -> Seq<Seq<char>> {
    list.map_values(encoding)
}

/// Whether the stored list is this one, each row at its position and nothing else.
pub open spec fn mirrors(
    store: StoreView,
    list: Seq<TrackView>,
    encoding: spec_fn(TrackView) -> Seq<char>,
) -> bool {
    store.enabled && store.saved == table_of(encoded(list, encoding))
}

/// The store after a write that [`LikedSongs`] asked for: `page` is the page that came in last, `list`
/// the list as it is now.
pub open spec fn after_write(
    store: StoreView,
    write: ListWrite,
    page: Seq<TrackView>,
    list: Seq<TrackView>,
    encoding: spec_fn(TrackView) -> Seq<char>,
) -> StoreView {
    store.listed(write, present(encoded(page, encoding)), present(encoded(list, encoding)))
}

/// A store that holds the list still does after [`LikedSongs::revalidate`] and the write that it
/// asks for, although only the page's rows are written.
pub proof fn law_store_mirrors_revalidation(
    store: StoreView,
    v: LikedView,
    head: Seq<TrackView>,
    total: usize,
    encoding: spec_fn(TrackView) -> Seq<char>,
)
    requires
        mirrors(store, v.tracks, encoding),
    ensures
        ({
            let list = v.revalidated(head, total).tracks;
            mirrors(after_write(store, ListWrite::Page { start: 0 }, head, list, encoding), list, encoding)
        }),
{
    let list = v.revalidated(head, total).tracks;
    assert(after_write(store, ListWrite::Page { start: 0 }, head, list, encoding).saved =~= table_of(
        encoded(list, encoding),
    ));
}

/// A store that holds the list still does after [`LikedSongs::page_arrived`] and the write that
/// it asks for, for a page that starts within the list or right behind it.
pub proof fn law_store_mirrors_page(
    store: StoreView,
    v: LikedView,
    through: usize,
    items: Seq<TrackView>,
    total: usize,
    encoding: spec_fn(TrackView) -> Seq<char>,
)
    requires
        mirrors(store, v.tracks, encoding),
        through <= v.tracks.len(),
    ensures
        ({
            let list = v.with_page(through, items, total).tracks;
            mirrors(after_write(store, ListWrite::Page { start: through }, items, list, encoding), list, encoding)
        }),
{
    let list = v.with_page(through, items, total).tracks;
    assert(after_write(store, ListWrite::Page { start: through }, items, list, encoding).saved =~= table_of(
        encoded(list, encoding),
    ));
}

/// A store that holds the list still does after [`LikedSongs::next_step`] and, if the step cuts
/// the list, the write that goes with it.
pub proof fn law_store_mirrors_step(
    store: StoreView,
    v: LikedView,
    want: usize,
    encoding: spec_fn(TrackView) -> Seq<char>,
)
    requires
        mirrors(store, v.tracks, encoding),
    ensures
        ({
            let list = v.after_step(want).tracks;
            match v.walk_step(want) {
                WalkStep::Truncate { len } => mirrors(
                    after_write(store, ListWrite::Truncate { len }, Seq::empty(), list, encoding),
                    list,
                    encoding,
                ),
                _ => mirrors(store, list, encoding),
            }
        }),
{
    let list = v.after_step(want).tracks;
    match v.walk_step(want) {
        WalkStep::Truncate { len } => {
            assert(after_write(store, ListWrite::Truncate { len }, Seq::empty(), list, encoding).saved =~= table_of(
                encoded(list, encoding),
            ));
        },
        _ => {
            assert(list =~= v.tracks);
        },
    }
}

/// A store, whatever list it held, holds the list after tracks were liked or unliked and the write
/// that goes with it.
pub proof fn law_store_mirrors_local_changes(
    store: StoreView,
    v: LikedView,
    tracks: Seq<TrackView>,
    encoding: spec_fn(TrackView) -> Seq<char>,
)
    requires
        store.enabled,
    ensures
        ({
            let list = v.liked(tracks).tracks;
            mirrors(after_write(store, ListWrite::All, Seq::empty(), list, encoding), list, encoding)
        }),
        ({
            let list = v.unliked(tracks).tracks;
            mirrors(after_write(store, ListWrite::All, Seq::empty(), list, encoding), list, encoding)
        }),
{
    let with = v.liked(tracks).tracks;
    let without = v.unliked(tracks).tracks;
    assert(after_write(store, ListWrite::All, Seq::empty(), with, encoding).saved =~= table_of(
        encoded(with, encoding),
    ));
    assert(after_write(store, ListWrite::All, Seq::empty(), without, encoding).saved =~= table_of(
        encoded(without, encoding),
    ));
}

/// What is loaded from a store that holds the list is the list, row by row.
pub proof fn law_mirrored_list_is_loaded(
    store: StoreView,
    list: Seq<TrackView>,
    encoding: spec_fn(TrackView) -> Seq<char>,
)
    requires
        mirrors(store, list, encoding),
        list.len() <= u64::MAX,
    ensures
        texts_in_order(store.saved) == encoded(list, encoding),
{
    law_load_gives_back_the_list(encoded(list, encoding));
}

/// Every operation keeps the rows that are held to be confirmed within the list.
pub proof fn law_confirmed_rows_exist(v: LikedView, items: Seq<TrackView>, total: usize, want: usize)
    requires
        v.wf(),
    ensures
        v.revalidated(items, total).wf(),
        v.after_step(want).wf(),
        !v.meta.fresh && v.tracks.len() + items.len() <= usize::MAX ==> v.with_page(
            v.meta.fetched_through,
            items,
            total,
        ).wf(),
        with_added(v.tracks, items).len() <= usize::MAX ==> v.liked(items).wf(),
        v.tracks.len() <= usize::MAX ==> v.unliked(items).wf(),
        v.seeded(items, Some(total)).wf(),
{
    if !v.meta.fresh {
        let through = v.meta.fetched_through;
        assert(spliced(v.tracks, through as nat, items).len() >= through + items.len());
    }
}

/// The rows that a page confirms are the page's, and it leaves those before it alone.
pub proof fn law_page_confirms_its_rows(v: LikedView, through: usize, items: Seq<TrackView>, total: usize)
    requires
        through <= v.tracks.len(),
        through + items.len() <= usize::MAX,
    ensures
        forall|i: int|
            0 <= i < through ==> (#[trigger] v.with_page(through, items, total).tracks[i]) == v.tracks[i],
        forall|i: int|
            through <= i < through + items.len() ==> (#[trigger] v.with_page(through, items, total).tracks[i])
                == items[i - through],
        items.len() > 0 ==> v.with_page(through, items, total).meta.fetched_through == through + items.len(),
{
}

/// After the first page has been reconciled, the rows that are held to be confirmed are rows of
/// that page, unless the whole list is trusted because its head and its length match.
pub proof fn law_revalidation_confirms_the_head(v: LikedView, head: Seq<TrackView>, total: usize)
    ensures
        ({
            let after = v.revalidated(head, total);
            ||| after.meta.fresh && head_matches(head, v.tracks) && total == v.tracks.len()
            ||| after.meta.fetched_through <= head.len() && after.tracks.take(after.meta.fetched_through as int)
                == head.take(after.meta.fetched_through as int)
        }),
{
    let after = v.revalidated(head, total);
    if !after.meta.fresh {
        assert(after.tracks.take(after.meta.fetched_through as int) =~= head.take(
            after.meta.fetched_through as int,
        ));
    }
}

/// No walk is needed only if the whole list is trusted, or the wanted row and the margin beyond it are
/// confirmed, or every row of the list is.
pub proof fn law_no_walk_means_confirmed(v: LikedView, want: usize)
    requires
        !v.needs_walk(want),
    ensures
        v.meta.fresh || want + SAVED_TRACKS_MARGIN <= v.meta.fetched_through || v.tracks.len()
            <= v.meta.fetched_through,
{
}

/// A walk that is needed has something to do: it fetches, or it cuts the list.
pub proof fn law_needed_walk_acts(v: LikedView, want: usize)
    requires
        v.needs_walk(want),
    ensures
        v.walk_step(want) is Fetch || v.walk_step(want) is Truncate,
{
}

/// If the first page still has the ids at the head of the list and the service as many songs as the list
/// has rows, nothing is fetched afterwards, whatever row is wanted, and nothing changes.
pub proof fn law_unchanged_list_needs_no_walk(v: LikedView, head: Seq<TrackView>, want: usize)
    requires
        v.tracks.len() <= usize::MAX,
        head_matches(head, v.tracks),
    ensures
        ({
            let after = v.revalidated(head, v.tracks.len() as usize);
            &&& after.meta.fresh
            &&& !after.needs_walk(want)
            &&& after.walk_step(want) is Stop
            &&& after.after_step(want) == after
        }),
{
}

/// Once the whole list is trusted, no scrolling triggers a fetch.
pub proof fn law_fresh_list_needs_no_walk(v: LikedView, want: usize)
    requires
        v.meta.fresh,
    ensures
        !v.needs_walk(want),
        v.walk_step(want) is Stop,
        v.after_step(want) == v,
{
}

/// A walk that stops by itself has confirmed the wanted row and the margin, or all there is.
pub proof fn law_walk_ends_confirmed(v: LikedView, want: usize)
    requires
        !(v.walk_step(want) is Fetch),
    ensures
        v.after_step(want).meta.fresh || want + SAVED_TRACKS_MARGIN <= v.after_step(want).meta.fetched_through,
{
}

/// Every page that a walk fetches brings it forward, and an empty one ends it.
pub proof fn law_walk_advances(v: LikedView, want: usize, items: Seq<TrackView>, total: usize)
    requires
        v.walk_step(want) is Fetch,
        v.meta.fetched_through + items.len() <= usize::MAX,
    ensures
        items.len() > 0 ==> v.with_page(v.meta.fetched_through, items, total).meta.fetched_through
            > v.meta.fetched_through,
        items.len() == 0 ==> !(v.with_page(v.meta.fetched_through, items, total).walk_step(want) is Fetch),
{
}

/// Whether the rows that are held to be confirmed are those of the service's list.
pub open spec fn agrees_with(v: LikedView, service: Seq<TrackView>) -> bool {
    let through = v.meta.fetched_through as int;
    through <= v.tracks.len() && through <= service.len() && v.tracks.take(through) == service.take(through)
}

/// What the service has on the page of this size that starts at `offset`.
pub open spec fn service_page(service: Seq<TrackView>, offset: int, size: int) -> Seq<TrackView> {
    service.subrange(offset, smaller(offset + size, service.len() as int))
}

/// After the first page has been reconciled, the rows that are held to be confirmed are those of the
/// service's list, unless the whole list is trusted because its head and its length match.
pub proof fn law_revalidation_agrees_with_the_service(v: LikedView, service: Seq<TrackView>, size: nat)
    requires
        service.len() <= usize::MAX,
        size > 0,
    ensures
        ({
            let after = v.revalidated(service_page(service, 0, size as int), service.len() as usize);
            after.meta.fresh || agrees_with(after, service)
        }),
{
    let head = service_page(service, 0, size as int);
    let after = v.revalidated(head, service.len() as usize);
    if !after.meta.fresh {
        let through = after.meta.fetched_through as int;
        assert(after.tracks.take(through) =~= service.take(through));
    }
}

/// Every page of a walk brings further rows of the service's list and keeps those before them, so
/// the rows that are held to be confirmed stay those of the service's list. Left out are offsets past the
/// largest that a request can name.
pub proof fn law_page_agrees_with_the_service(v: LikedView, service: Seq<TrackView>, want: usize, size: nat)
    requires
        service.len() <= usize::MAX,
        size > 0,
        agrees_with(v, service),
        v.walk_step(want) is Fetch,
        v.meta.fetched_through <= u32::MAX,
    ensures
        ({
            let through = v.meta.fetched_through;
            let items = service_page(service, v.walk_step(want)->offset as int, size as int);
            let after = v.with_page(through, items, service.len() as usize);
            &&& agrees_with(after, service)
            &&& after.meta.total == Some(service.len() as usize)
            &&& !after.meta.fresh
            &&& after.meta.fetched_through > through || after.meta.fetched_through == service.len()
        }),
{
    let through = v.meta.fetched_through;
    let items = service_page(service, v.walk_step(want)->offset as int, size as int);
    let after = v.with_page(through, items, service.len() as usize);
    assert(after.tracks.take(through as int) =~= v.tracks.take(through as int));
    let end = after.meta.fetched_through as int;
    assert forall|i: int| 0 <= i < end implies after.tracks[i] == service[i] by {
        if i < through {
            assert(after.tracks[i] == after.tracks.take(through as int)[i]);
            assert(service[i] == service.take(through as int)[i]);
        }
    }
    assert(after.tracks.take(end) =~= service.take(end));
}

/// Once every row that the service has is confirmed, the step that ends the walk leaves exactly the
/// service's list.
pub proof fn law_finished_walk_leaves_the_service_list(v: LikedView, service: Seq<TrackView>, want: usize)
    requires
        agrees_with(v, service),
        !v.meta.fresh,
        v.meta.total == Some(v.meta.fetched_through),
        v.meta.fetched_through == service.len(),
        want + SAVED_TRACKS_MARGIN > v.meta.fetched_through,
    ensures
        !(v.walk_step(want) is Fetch),
        v.after_step(want).tracks == service,
        v.after_step(want).meta.fresh,
{
    assert(v.tracks.take(service.len() as int) =~= service);
}

/// The list after a walk to `want` on a service that has this list and hands it out in pages of `size`
/// rows, if the fetch after the first `fetches` ones fails.
pub open spec fn walked(v: LikedView, service: Seq<TrackView>, want: usize, size: nat, fetches: nat) -> LikedView
    decreases fetches,
{
    match v.walk_step(want) {
        WalkStep::Fetch { offset } => if fetches == 0 {
            v
        } else {
            walked(
                v.with_page(
                    v.meta.fetched_through,
                    service_page(service, offset as int, size as int),
                    service.len() as usize,
                ),
                service,
                want,
                size,
                (fetches - 1) as nat,
            )
        },
        _ => v.after_step(want),
    }
}

/// Wherever a walk ends, the rows that are held to be confirmed are those of the service's list. One of
/// which no fetch fails ends with exactly the service's list, which is then trusted, or with the wanted
/// row and the margin beyond it confirmed. Left out are a list that counts fewer songs than the service
/// has, for it is cut to that number, and offsets past the largest that a request can name.
pub proof fn law_walk_follows_the_service(
    v: LikedView,
    service: Seq<TrackView>,
    want: usize,
    size: nat,
    fetches: nat,
)
    requires
        service.len() <= usize::MAX,
        size > 0,
        agrees_with(v, service),
        !v.meta.fresh,
        v.meta.total matches Some(total) ==> total >= service.len(),
        want + SAVED_TRACKS_MARGIN <= u32::MAX || service.len() <= u32::MAX,
    ensures
        ({
            let after = walked(v, service, want, size, fetches);
            &&& agrees_with(after, service)
            &&& fetches > service.len() - v.meta.fetched_through ==> {
                ||| after.meta.fresh && after.tracks == service
                ||| want + SAVED_TRACKS_MARGIN <= after.meta.fetched_through
            }
        }),
    decreases fetches,
{
    if v.walk_step(want) is Fetch {
        if fetches > 0 {
            law_page_agrees_with_the_service(v, service, want, size);
            let items = service_page(service, v.walk_step(want)->offset as int, size as int);
            let next = v.with_page(v.meta.fetched_through, items, service.len() as usize);
            law_walk_follows_the_service(next, service, want, size, (fetches - 1) as nat);
            if next.meta.fetched_through == v.meta.fetched_through {
                if want + SAVED_TRACKS_MARGIN > next.meta.fetched_through {
                    law_finished_walk_leaves_the_service_list(next, service, want);
                }
            }
        }
    } else if v.all_fetched() && want + SAVED_TRACKS_MARGIN > v.meta.fetched_through {
        law_finished_walk_leaves_the_service_list(v, service, want);
        assert(service.take(service.len() as int) =~= service);
    }
}

/// From whatever was cached: once the first page has been reconciled, the list is trusted because its
/// head and its length match the service's, or a walk of which no fetch fails ends with exactly the
/// service's list or with the wanted row and the margin beyond it confirmed.
pub proof fn law_revalidated_walk_follows_the_service(
    v: LikedView,
    service: Seq<TrackView>,
    want: usize,
    size: nat,
    fetches: nat,
)
    requires
        service.len() <= usize::MAX,
        size > 0,
        want + SAVED_TRACKS_MARGIN <= u32::MAX || service.len() <= u32::MAX,
        fetches > service.len(),
    ensures
        ({
            let first = v.revalidated(service_page(service, 0, size as int), service.len() as usize);
            let after = walked(first, service, want, size, fetches);
            ||| first.meta.fresh && after == first
            ||| after.meta.fresh && after.tracks == service
            ||| agrees_with(after, service) && want + SAVED_TRACKS_MARGIN <= after.meta.fetched_through
        }),
{
    let first = v.revalidated(service_page(service, 0, size as int), service.len() as usize);
    law_revalidation_agrees_with_the_service(v, service, size);
    if !first.meta.fresh {
        law_walk_follows_the_service(first, service, want, size, fetches);
    }
}

/// Unliking tracks keeps the agreement with a service that drops the same tracks.
pub proof fn law_unliking_keeps_the_agreement(v: LikedView, service: Seq<TrackView>, tracks: Seq<TrackView>)
    requires
        agrees_with(v, service),
        v.tracks.len() <= usize::MAX,
    ensures
        agrees_with(v.unliked(tracks), with_removed(service, tracks)),
{
    let through = v.meta.fetched_through as int;
    let head = v.tracks.take(through);
    let kept = with_removed(head, tracks);
    let keep = |t: TrackView| !lists_id(tracks, t.id);
    assert(v.tracks =~= head + v.tracks.skip(through));
    assert(service =~= head + service.skip(through));
    Seq::filter_distributes_over_add(head, v.tracks.skip(through), keep);
    Seq::filter_distributes_over_add(head, service.skip(through), keep);
    lemma_filter_shortens(v.tracks, keep);
    assert(with_removed(v.tracks, tracks).take(kept.len() as int) =~= kept);
    assert(with_removed(service, tracks).take(kept.len() as int) =~= kept);
}

/// A filter makes no list longer.
proof fn lemma_filter_shortens(list: Seq<TrackView>, keep: spec_fn(TrackView) -> bool)
    ensures
        list.filter(keep).len() <= list.len(),
    decreases list.len(),
{
    reveal(Seq::filter);
    if list.len() > 0 {
        lemma_filter_shortens(list.drop_last(), keep);
    }
}

/// Liking tracks keeps the agreement with a service that puts the same tracks in front of its list,
/// if neither list had any of them.
pub proof fn law_liking_keeps_the_agreement(v: LikedView, service: Seq<TrackView>, tracks: Seq<TrackView>)
    requires
        agrees_with(v, service),
        with_added(v.tracks, tracks).len() <= usize::MAX,
        forall|k: int|
            0 <= k < tracks.len() ==> !lists_id(v.tracks, (#[trigger] tracks[k]).id) && !lists_id(
                service,
                tracks[k].id,
            ),
    ensures
        agrees_with(v.liked(tracks), with_added(service, tracks)),
{
    let through = v.meta.fetched_through as int;
    let ours = with_added(v.tracks, tracks);
    let theirs = with_added(service, tracks);
    let new = with_added(Seq::<TrackView>::empty(), tracks);
    lemma_added_in_front(v.tracks, tracks);
    lemma_added_in_front(service, tracks);
    assert(ours == new + v.tracks && theirs == new + service);
    assert forall|i: int| 0 <= i < through implies ours[i] == theirs[i] by {
        if i >= new.len() {
            let j = i - new.len();
            assert(v.tracks.take(through)[j] == service.take(through)[j]);
        }
    }
    assert(ours.take(through) =~= theirs.take(through));
}

/// Tracks that the list does not have yet are put in front of it, each once.
proof fn lemma_added_in_front(list: Seq<TrackView>, tracks: Seq<TrackView>)
    requires
        forall|k: int| 0 <= k < tracks.len() ==> !lists_id(list, (#[trigger] tracks[k]).id),
    ensures
        with_added(list, tracks) == with_added(Seq::<TrackView>::empty(), tracks) + list,
    decreases tracks.len(),
{
    let none = Seq::<TrackView>::empty();
    if tracks.len() == 0 {
        assert(none + list =~= list);
    } else {
        let tail = tracks.skip(1);
        assert forall|k: int| 0 <= k < tail.len() implies !lists_id(list, (#[trigger] tail[k]).id) by {
            assert(tail[k] == tracks[k + 1]);
        }
        lemma_added_in_front(list, tail);
        let new = with_added(none, tail);
        let rest = with_added(list, tail);
        let id = tracks[0].id;
        assert(!lists_id(list, id));
        if lists_id(new, id) {
            let j = choose|j: int| 0 <= j < new.len() && (#[trigger] new[j]).id == id;
            assert(rest[j].id == id);
        }
        if lists_id(rest, id) {
            let j = choose|j: int| 0 <= j < rest.len() && (#[trigger] rest[j]).id == id;
            if j < new.len() {
                assert(new[j].id == id);
            } else {
                assert(list[j - new.len()].id == id);
            }
        } else {
            assert(seq![tracks[0]] + (new + list) =~= (seq![tracks[0]] + new) + list);
        }
    }
}

/// Newly liked tracks come in front of the list, which stays behind them as it was; afterwards
/// each of them is listed.
pub proof fn law_added_tracks_lead(list: Seq<TrackView>, tracks: Seq<TrackView>)
    ensures
        with_added(list, tracks).len() >= list.len(),
        with_added(list, tracks).skip(with_added(list, tracks).len() - list.len()) == list,
        forall|k: int| 0 <= k < tracks.len() ==> lists_id(with_added(list, tracks), (#[trigger] tracks[k]).id),
    decreases tracks.len(),
{
    let all = with_added(list, tracks);
    if tracks.len() == 0 {
        assert(list.skip(0) =~= list);
    } else {
        let rest = with_added(list, tracks.skip(1));
        law_added_tracks_lead(list, tracks.skip(1));
        if lists_id(rest, tracks[0].id) {
        } else {
            assert(all.skip(all.len() - list.len()) =~= rest.skip(rest.len() - list.len()));
            assert(all[0].id == tracks[0].id);
        }
        assert forall|k: int| 0 <= k < tracks.len() implies lists_id(all, (#[trigger] tracks[k]).id) by {
            if k > 0 {
                assert(tracks.skip(1)[k - 1] == tracks[k]);
                assert(lists_id(rest, tracks.skip(1)[k - 1].id));
                let j = choose|j: int| 0 <= j < rest.len() && (#[trigger] rest[j]).id == tracks[k].id;
                if all != rest {
                    assert(all[j + 1] == rest[j]);
                }
            }
        }
    }
}

/// Whether no two rows share an id.
pub open spec fn distinct_ids(list: Seq<TrackView>) -> bool {
    forall|i: int, j: int| 0 <= i < j < list.len() ==> (#[trigger] list[i]).id != (#[trigger] list[j]).id
}

/// Liking tracks never lists one twice.
pub proof fn law_added_ids_stay_distinct(list: Seq<TrackView>, tracks: Seq<TrackView>)
    requires
        distinct_ids(list),
    ensures
        distinct_ids(with_added(list, tracks)),
    decreases tracks.len(),
{
    if tracks.len() > 0 {
        let rest = with_added(list, tracks.skip(1));
        law_added_ids_stay_distinct(list, tracks.skip(1));
        if !lists_id(rest, tracks[0].id) {
            let all = seq![tracks[0]] + rest;
            assert forall|i: int, j: int| 0 <= i < j < all.len() implies (#[trigger] all[i]).id != (
            #[trigger] all[j]).id by {
                assert(all[j] == rest[j - 1]);
                if i > 0 {
                    assert(all[i] == rest[i - 1]);
                }
            }
        }
    }
}

/// Unliked tracks are gone and every other row is still there.
pub proof fn law_removed_tracks_go(list: Seq<TrackView>, tracks: Seq<TrackView>)
    ensures
        forall|k: int| 0 <= k < tracks.len() ==> !lists_id(with_removed(list, tracks), (#[trigger] tracks[k]).id),
        forall|i: int|
            0 <= i < list.len() && !lists_id(tracks, list[i].id) ==> with_removed(list, tracks).contains(
                #[trigger] list[i],
            ),
        with_removed(list, tracks).len() <= list.len(),
{
    let keep = |t: TrackView| !lists_id(tracks, t.id);
    broadcast use vstd::seq_lib::group_filter_ensures;

    let kept = with_removed(list, tracks);
    assert forall|k: int| 0 <= k < tracks.len() implies !lists_id(kept, (#[trigger] tracks[k]).id) by {
        if lists_id(kept, tracks[k].id) {
            let j = choose|j: int| 0 <= j < kept.len() && (#[trigger] kept[j]).id == tracks[k].id;
            assert(keep(kept[j]));
        }
    }
}

/// Unliking what was just liked gives the list back.
pub proof fn law_remove_undoes_add(list: Seq<TrackView>, tracks: Seq<TrackView>)
    requires
        forall|k: int| 0 <= k < tracks.len() ==> !lists_id(list, (#[trigger] tracks[k]).id),
    ensures
        with_removed(with_added(list, tracks), tracks) == list,
{
    lemma_filter_added(list, tracks, tracks);
    let keep = |t: TrackView| !lists_id(tracks, t.id);
    assert forall|i: int| 0 <= i < list.len() implies keep(#[trigger] list[i]) by {
        if lists_id(tracks, list[i].id) {
            let k = choose|k: int| 0 <= k < tracks.len() && (#[trigger] tracks[k]).id == list[i].id;
            assert(lists_id(list, tracks[k].id));
        }
    }
    lemma_filter_all(list, keep);
}

/// Unliking what was just liked gives back the list and the number of liked songs, in two steps of the
/// version.
pub proof fn law_unliking_undoes_liking(v: LikedView, tracks: Seq<TrackView>)
    requires
        v.version + 2 <= u64::MAX,
        v.meta.total matches Some(total) ==> total + tracks.len() <= usize::MAX,
        forall|k: int| 0 <= k < tracks.len() ==> !lists_id(v.tracks, (#[trigger] tracks[k]).id),
    ensures
        v.liked(tracks).unliked(tracks).tracks == v.tracks,
        v.liked(tracks).unliked(tracks).meta.total == v.meta.total,
        v.liked(tracks).unliked(tracks).version == v.version + 2,
{
    law_remove_undoes_add(v.tracks, tracks);
    law_added_tracks_lead(v.tracks, tracks);
    lemma_added_at_most(v.tracks, tracks);
}

/// Liking puts at most as many rows in front as tracks are given.
proof fn lemma_added_at_most(list: Seq<TrackView>, tracks: Seq<TrackView>)
    ensures
        with_added(list, tracks).len() <= list.len() + tracks.len(),
    decreases tracks.len(),
{
    if tracks.len() > 0 {
        lemma_added_at_most(list, tracks.skip(1));
    }
}

/// Liking and unliking leave as many rows to be loaded as before: the list is as far from the number of
/// liked songs as it was.
pub proof fn law_local_changes_keep_what_is_missing(v: LikedView, tracks: Seq<TrackView>)
    requires
        v.meta.total is Some,
        v.tracks.len() <= v.meta.total->0,
        v.meta.total->0 + tracks.len() <= usize::MAX,
    ensures
        v.liked(tracks).meta.total->0 - v.liked(tracks).tracks.len() == v.meta.total->0 - v.tracks.len(),
        v.unliked(tracks).meta.total->0 - v.unliked(tracks).tracks.len() == v.meta.total->0 - v.tracks.len(),
{
    law_added_tracks_lead(v.tracks, tracks);
    lemma_added_at_most(v.tracks, tracks);
    law_removed_tracks_go(v.tracks, tracks);
}

/// Filtering out everything among `gone` leaves nothing of what was put in front of the list.
proof fn lemma_filter_added(list: Seq<TrackView>, tracks: Seq<TrackView>, gone: Seq<TrackView>)
    requires
        forall|k: int| 0 <= k < tracks.len() ==> lists_id(gone, (#[trigger] tracks[k]).id),
    ensures
        with_removed(with_added(list, tracks), gone) == with_removed(list, gone),
    decreases tracks.len(),
{
    if tracks.len() > 0 {
        let rest = with_added(list, tracks.skip(1));
        assert forall|k: int| 0 <= k < tracks.skip(1).len() implies lists_id(gone, (#[trigger] tracks.skip(1)[k]).id) by {
            assert(tracks.skip(1)[k] == tracks[k + 1]);
        }
        lemma_filter_added(list, tracks.skip(1), gone);
        if !lists_id(rest, tracks[0].id) {
            let keep = |t: TrackView| !lists_id(gone, t.id);
            let front = seq![tracks[0]];
            assert(!keep(tracks[0]));
            Seq::filter_distributes_over_add(front, rest, keep);
            assert(front.filter(keep) =~= Seq::<TrackView>::empty()) by {
                reveal(Seq::filter);
                assert(front.drop_last() =~= Seq::<TrackView>::empty());
                assert(front.last() == tracks[0]);
                assert(front.drop_last().filter(keep) =~= Seq::<TrackView>::empty());
            }
            assert(Seq::<TrackView>::empty() + rest.filter(keep) =~= rest.filter(keep));
        }
    }
}

/// The first page makes the whole list trusted if and only if the service has as many songs as the list has
/// rows and every row of the page has the id of the list's row at the same place.
pub proof fn law_revalidation_compares_every_id(v: LikedView, head: Seq<TrackView>, total: usize)
    ensures
        v.revalidated(head, total).meta.fresh <==> {
            &&& total == v.tracks.len()
            &&& head.len() <= v.tracks.len()
            &&& forall|i: int| 0 <= i < head.len() ==> (#[trigger] head[i]).id == v.tracks[i].id
        },
{
}

/// If some row of the first page has another id than the list has there, or the list does not reach so far,
/// the list is not trusted: no more rows are held to be confirmed than the page has, and than 150, so that a
/// row further down that the service has makes for a walk.
pub proof fn law_changed_head_is_not_trusted(v: LikedView, head: Seq<TrackView>, total: usize, i: int, want: usize)
    requires
        0 <= i < head.len(),
        i >= v.tracks.len() || head[i].id != v.tracks[i].id,
    ensures
        ({
            let after = v.revalidated(head, total);
            &&& !after.meta.fresh
            &&& after.meta.fetched_through <= head.len()
            &&& after.meta.fetched_through <= 150
            &&& want > 0 && head.len() < total ==> after.needs_walk(want)
        }),
{
    assert(!head_matches(head, v.tracks));
}

/// After the first page has been reconciled, the list starts with the page's rows, goes on with its own from
/// there, and is no shorter than before; the total is the service's, the version has gone up by one, and as
/// many rows are confirmed as there are, or else as the page, the service and the margin of 150 allow.
pub proof fn law_revalidation_row_by_row(v: LikedView, head: Seq<TrackView>, total: usize)
    requires
        v.version < u64::MAX,
        v.tracks.len() <= usize::MAX,
    ensures
        ({
            let after = v.revalidated(head, total);
            let through = after.meta.fetched_through as int;
            &&& after.tracks.len() == if head.len() > v.tracks.len() {
                head.len()
            } else {
                v.tracks.len()
            }
            &&& forall|i: int|
                0 <= i < after.tracks.len() ==> #[trigger] after.tracks[i] == if i < head.len() {
                    head[i]
                } else {
                    v.tracks[i]
                }
            &&& after.meta.total == Some(total)
            &&& after.version == v.version + 1
            &&& after.meta.fresh ==> through == after.tracks.len()
            &&& !after.meta.fresh ==> through <= head.len() && through <= total && through <= 150 && (through
                == head.len() || through == total || through == 150)
        }),
{
}

/// Seeding the list takes the stored rows and the stored total as they are and confirms nothing; whether the
/// list is trusted does not change.
pub proof fn law_seeding_confirms_nothing(v: LikedView, cached: Seq<TrackView>, total: Option<usize>)
    requires
        v.version < u64::MAX,
    ensures
        ({
            let after = v.seeded(cached, total);
            &&& after.tracks == cached
            &&& after.meta.total == total
            &&& after.meta.fetched_through == 0
            &&& after.meta.fresh == v.meta.fresh
            &&& after.version == v.version + 1
        }),
{
}

/// A page that starts within the list or right behind it replaces the rows at its places and no other; the
/// list grows only as far as the page reaches past its end. The total is the service's, or the page's start
/// if the page is empty, and the confirmed rows reach to the end of the page. What is trusted and the version
/// stay.
pub proof fn law_page_row_by_row(v: LikedView, through: usize, items: Seq<TrackView>, total: usize)
    requires
        through <= v.tracks.len(),
        through + items.len() <= usize::MAX,
    ensures
        ({
            let after = v.with_page(through, items, total);
            let end = through + items.len();
            &&& after.tracks.len() == if end > v.tracks.len() {
                end
            } else {
                v.tracks.len() as int
            }
            &&& forall|i: int|
                0 <= i < after.tracks.len() ==> #[trigger] after.tracks[i] == if through <= i < end {
                    items[i - through]
                } else {
                    v.tracks[i]
                }
            &&& items.len() > 0 ==> after.meta.total == Some(total) && after.meta.fetched_through == end
            &&& items.len() == 0 ==> after.meta.total == Some(through) && after.meta.fetched_through
                == v.meta.fetched_through
            &&& after.meta.fresh == v.meta.fresh
            &&& after.version == v.version
        }),
{
}

/// A page past the end of the list is put behind it.
pub proof fn law_page_past_the_end_is_appended(v: LikedView, through: usize, items: Seq<TrackView>, total: usize)
    requires
        through >= v.tracks.len(),
    ensures
        v.with_page(through, items, total).tracks == v.tracks + items,
{
}

/// A walk is needed if and only if the list is not trusted, the 150 rows past the wanted one are not all
/// confirmed, and there is something left: rows that the service has, an unknown number of them, or rows that
/// it does not have.
pub proof fn law_walk_is_needed_while_something_is_left(v: LikedView, want: usize)
    ensures
        v.needs_walk(want) <==> {
            &&& !v.meta.fresh
            &&& v.meta.fetched_through < want + 150
            &&& match v.meta.total {
                None => true,
                Some(total) => v.meta.fetched_through < total || total < v.tracks.len(),
            }
        },
{
}

/// What a walk does next: nothing more if the list is trusted or the wanted row and the 150 past it are
/// confirmed; a fetch of the page at the first unconfirmed row if the service may have more rows; otherwise
/// the list is cut to the service's length, which is told if it was longer, and trusted from then on.
pub proof fn law_walk_step_by_step(v: LikedView, want: usize)
    ensures
        ({
            let after = v.after_step(want);
            if v.meta.fresh || v.meta.fetched_through >= want + 150 {
                v.walk_step(want) is Stop && after == v
            } else {
                match v.meta.total {
                    Some(total) if v.meta.fetched_through >= total => {
                        &&& v.walk_step(want) == (if v.tracks.len() > total {
                            WalkStep::Truncate { len: total }
                        } else {
                            WalkStep::Stop
                        })
                        &&& after.meta.fresh
                        &&& after.meta.total == Some(total)
                        &&& after.meta.fetched_through == v.meta.fetched_through
                        &&& after.version == v.version
                        &&& after.tracks.len() <= total
                        &&& after.tracks.len() == v.tracks.len() || after.tracks.len() == total
                        &&& forall|i: int| 0 <= i < after.tracks.len() ==> #[trigger] after.tracks[i] == v.tracks[i]
                    },
                    _ => {
                        &&& v.walk_step(want) matches WalkStep::Fetch { offset }
                        &&& v.meta.fetched_through <= u32::MAX ==> offset == v.meta.fetched_through
                        &&& after == v
                    },
                }
            }
        }),
{
}

/// Liking one track puts it in front of the list, unless a row of the list has its id already; an absent id
/// is like any other.
pub proof fn law_liking_one_track(list: Seq<TrackView>, track: TrackView)
    ensures
        with_added(list, Seq::empty()) == list,
        with_added(list, seq![track]) == (if exists|i: int| 0 <= i < list.len() && (#[trigger] list[i]).id == track.id {
            list
        } else {
            seq![track] + list
        }),
{
    let one = seq![track];
    assert(one.skip(1) =~= Seq::<TrackView>::empty());
    assert(with_added(list, one.skip(1)) == list);
    if exists|i: int| 0 <= i < list.len() && (#[trigger] list[i]).id == track.id {
        let i = choose|i: int| 0 <= i < list.len() && (#[trigger] list[i]).id == track.id;
        assert(list[i].id == track.id);
        assert(lists_id(list, track.id));
    }
}

/// Liking several tracks is liking them one by one, the last one first, so that they end up in their order.
pub proof fn law_liking_goes_one_by_one(list: Seq<TrackView>, track: TrackView, rest: Seq<TrackView>)
    ensures
        with_added(list, seq![track] + rest) == with_added(with_added(list, rest), seq![track]),
{
    let all = seq![track] + rest;
    assert(all.skip(1) =~= rest);
    assert(all[0] == track);
    law_liking_one_track(with_added(list, rest), track);
    let one = seq![track];
    assert(one.skip(1) =~= Seq::<TrackView>::empty());
}

/// Tracks with distinct ids, none of which the list has, come in front of it in their order.
pub proof fn law_new_tracks_lead_in_their_order(list: Seq<TrackView>, tracks: Seq<TrackView>)
    requires
        distinct_ids(tracks),
        forall|k: int, i: int|
            0 <= k < tracks.len() && 0 <= i < list.len() ==> (#[trigger] tracks[k]).id != (#[trigger] list[i]).id,
    ensures
        with_added(list, tracks) == tracks + list,
    decreases tracks.len(),
{
    if tracks.len() == 0 {
        assert(tracks + list =~= list);
    } else {
        let rest = tracks.skip(1);
        assert forall|i: int, j: int| 0 <= i < j < rest.len() implies (#[trigger] rest[i]).id != (#[trigger] rest[j]).id by {
            assert(rest[i] == tracks[i + 1] && rest[j] == tracks[j + 1]);
        }
        assert forall|k: int, i: int| 0 <= k < rest.len() && 0 <= i < list.len() implies (#[trigger] rest[k]).id != (
        #[trigger] list[i]).id by {
            assert(rest[k] == tracks[k + 1]);
        }
        law_new_tracks_lead_in_their_order(list, rest);
        let behind = rest + list;
        assert(!lists_id(behind, tracks[0].id)) by {
            if lists_id(behind, tracks[0].id) {
                let j = choose|j: int| 0 <= j < behind.len() && (#[trigger] behind[j]).id == tracks[0].id;
                if j < rest.len() {
                    assert(behind[j] == tracks[j + 1]);
                } else {
                    assert(behind[j] == list[j - rest.len()]);
                }
            }
        }
        assert(seq![tracks[0]] + behind =~= tracks + list);
    }
}

/// Unliking leaves, in their order, exactly the rows whose id none of the tracks has.
pub proof fn law_unliking_keeps_the_other_rows(list: Seq<TrackView>, tracks: Seq<TrackView>)
    ensures
        picked_from(
            list,
            |t: TrackView| forall|k: int| 0 <= k < tracks.len() ==> (#[trigger] tracks[k]).id != t.id,
            with_removed(list, tracks),
        ),
{
    let keep = |t: TrackView| !lists_id(tracks, t.id);
    let plain = |t: TrackView| forall|k: int| 0 <= k < tracks.len() ==> (#[trigger] tracks[k]).id != t.id;
    assert forall|t: TrackView| #[trigger] keep(t) == plain(t) by {
        if lists_id(tracks, t.id) {
            let k = choose|k: int| 0 <= k < tracks.len() && (#[trigger] tracks[k]).id == t.id;
            assert(tracks[k].id == t.id);
        } else {
            assert forall|k: int| 0 <= k < tracks.len() implies (#[trigger] tracks[k]).id != t.id by {}
        }
    }
    assert(keep =~= plain);
    let at = lemma_filter_picks(list, keep);
}

/// Liking and unliking change the list and count the version up by one; a known number of liked songs goes
/// up or down by as many rows as the list, an unknown one stays unknown, and whether the list is trusted does
/// not change. After liking no more rows are held to be confirmed than before.
pub proof fn law_local_changes_of_the_counters(v: LikedView, tracks: Seq<TrackView>)
    requires
        v.version < u64::MAX,
        v.tracks.len() <= usize::MAX,
        with_added(v.tracks, tracks).len() <= usize::MAX,
    ensures
        ({
            let after = v.liked(tracks);
            let grown = after.tracks.len() - v.tracks.len();
            &&& after.tracks == with_added(v.tracks, tracks)
            &&& after.version == v.version + 1
            &&& after.meta.fresh == v.meta.fresh
            &&& v.meta.total is None ==> after.meta.total is None
            &&& v.meta.total matches Some(total) ==> after.meta.total == Some(
                if total + grown <= usize::MAX {
                    (total + grown) as usize
                } else {
                    usize::MAX
                },
            )
            &&& v.meta.fetched_through <= v.tracks.len() ==> after.meta.fetched_through == v.meta.fetched_through
        }),
        ({
            let after = v.unliked(tracks);
            let gone = v.tracks.len() - after.tracks.len();
            &&& after.tracks == with_removed(v.tracks, tracks)
            &&& after.version == v.version + 1
            &&& after.meta.fresh == v.meta.fresh
            &&& v.meta.total is None ==> after.meta.total is None
            &&& v.meta.total matches Some(total) ==> after.meta.total == Some(
                if total >= gone {
                    (total - gone) as usize
                } else {
                    0
                },
            )
        }),
{
    law_added_tracks_lead(v.tracks, tracks);
    law_removed_tracks_go(v.tracks, tracks);
}

/// Of the rows that were confirmed as many stay confirmed as are not unliked.
pub proof fn law_unliking_counts_the_confirmed_rows(v: LikedView, tracks: Seq<TrackView>)
    requires
        v.tracks.len() <= usize::MAX,
        v.meta.fetched_through <= v.tracks.len(),
    ensures
        v.unliked(tracks).meta.fetched_through == Set::new(
            |i: int|
                0 <= i < v.meta.fetched_through && forall|k: int|
                    0 <= k < tracks.len() ==> (#[trigger] tracks[k]).id != v.tracks[i].id,
        ).len(),
{
    let through = v.meta.fetched_through as int;
    let head = v.tracks.take(through);
    let keep = |t: TrackView| !lists_id(tracks, t.id);
    let at = lemma_filter_picks(head, keep);
    lemma_picks_count(head, at, keep, head.filter(keep));
    let ours = Set::new(|i: int| 0 <= i < head.len() && keep(head[i]));
    let plain = Set::new(
        |i: int|
            0 <= i < v.meta.fetched_through && forall|k: int|
                0 <= k < tracks.len() ==> (#[trigger] tracks[k]).id != v.tracks[i].id,
    );
    assert forall|i: int| ours.contains(i) == plain.contains(i) by {
        if 0 <= i < through {
            assert(head[i] == v.tracks[i]);
            if lists_id(tracks, v.tracks[i].id) {
                let k = choose|k: int| 0 <= k < tracks.len() && (#[trigger] tracks[k]).id == v.tracks[i].id;
                assert(tracks[k].id == v.tracks[i].id);
            }
        }
    }
    assert(ours =~= plain);
    Seq::filter_distributes_over_add(head, v.tracks.skip(through), keep);
    assert(v.tracks =~= head + v.tracks.skip(through));
    law_removed_tracks_go(v.tracks, tracks);
    assert(head.filter(keep).len() <= with_removed(v.tracks, tracks).len());
}

// --- Laws of the operations ------------------------------------------------------------------

/// [`LikedSongs::revalidate`] trusts the list if and only if the service has as many songs as it has rows and
/// the page's ids are, row by row, those of the list; it puts the page's rows in front, keeps the rows behind
/// them, and asks for the page to be written at the start with the service's total.
pub proof fn law_revalidate(liked: &mut LikedSongs, head: &Vec<Track>, total: usize, r: Option<Persistence>)
    requires
        call_ensures(LikedSongs::revalidate, (liked, Some((head, total))), r),
        old(liked)@.version < u64::MAX,
        old(liked)@.tracks.len() <= usize::MAX,
    ensures
        ({
            let before = old(liked)@.tracks;
            let after = final(liked)@;
            &&& after.meta.fresh <==> {
                &&& total == before.len()
                &&& head@.len() <= before.len()
                &&& forall|i: int| 0 <= i < head@.len() ==> (#[trigger] head@[i])@.id == before[i].id
            }
            &&& forall|i: int| 0 <= i < head@.len() ==> after.tracks[i] == (#[trigger] head@[i])@
            &&& forall|i: int| head@.len() <= i < before.len() ==> #[trigger] after.tracks[i] == before[i]
            &&& after.tracks.len() == before.len() || after.tracks.len() == head@.len()
            &&& after.tracks.len() >= before.len() && after.tracks.len() >= head@.len()
            &&& !after.meta.fresh ==> after.meta.fetched_through <= head@.len() && after.meta.fetched_through <= 150
            &&& after.meta.total == Some(total)
            &&& after.version == old(liked)@.version + 1
            &&& r == Some(Persistence { write: ListWrite::Page { start: 0 }, total: Some(total) })
        }),
{
    let rows = tracks_of(head@);
    law_revalidation_compares_every_id(old(liked)@, rows, total);
    law_revalidation_row_by_row(old(liked)@, rows, total);
    assert forall|i: int| 0 <= i < head@.len() implies rows[i] == (#[trigger] head@[i])@ by {}
    if final(liked)@.meta.fresh {
        assert forall|i: int| 0 <= i < head@.len() implies (#[trigger] head@[i])@.id == old(liked)@.tracks[i].id by {
            assert(rows[i].id == old(liked)@.tracks[i].id);
        }
    }
}

/// [`LikedSongs::revalidate`] changes nothing and asks for nothing if the page could not be fetched.
pub proof fn law_revalidate_without_a_page(liked: &mut LikedSongs, r: Option<Persistence>)
    requires
        call_ensures(LikedSongs::revalidate, (liked, None), r),
    ensures
        final(liked)@ == old(liked)@,
        r is None,
{
}

/// [`LikedSongs::load_cache`] takes the stored rows and total as they are and confirms nothing.
pub proof fn law_load_cache(liked: &mut LikedSongs, cached: Vec<Track>, total: Option<usize>)
    requires
        call_ensures(LikedSongs::load_cache, (liked, cached, total), ()),
        old(liked)@.version < u64::MAX,
    ensures
        final(liked)@.tracks.len() == cached@.len(),
        forall|i: int| 0 <= i < cached@.len() ==> final(liked)@.tracks[i] == (#[trigger] cached@[i])@,
        final(liked)@.meta.total == total,
        final(liked)@.meta.fetched_through == 0,
        final(liked)@.version == old(liked)@.version + 1,
{
    assert forall|i: int| 0 <= i < cached@.len() implies final(liked)@.tracks[i] == (#[trigger] cached@[i])@ by {
        assert(tracks_of(cached@)[i] == cached@[i]@);
    }
}

/// [`LikedSongs::ensure_through`] starts a walk to the wanted row, from the first unconfirmed one, if and only
/// if the list is not trusted, not all of the 150 rows past the wanted one are confirmed, and the service has
/// or may have rows that are not, or the list has rows that the service does not have.
pub proof fn law_ensure_through(liked: &LikedSongs, want: usize, r: Option<PageWalk>)
    requires
        call_ensures(LikedSongs::ensure_through, (liked, want), r),
    ensures
        r is Some <==> {
            &&& !liked@.meta.fresh
            &&& liked@.meta.fetched_through < want + 150
            &&& match liked@.meta.total {
                None => true,
                Some(total) => liked@.meta.fetched_through < total || total < liked@.tracks.len(),
            }
        },
        r matches Some(walk) ==> walk.want == want && walk.through == liked@.meta.fetched_through && !walk.changed,
{
    law_walk_is_needed_while_something_is_left(liked@, want);
}

/// [`LikedSongs::next_step`] fetches at the first unconfirmed row while the service may have more rows within
/// 150 of the wanted one; once every row that the service has is confirmed it trusts the list, and tells of the
/// cut if the list was longer.
pub proof fn law_next_step(liked: &mut LikedSongs, walk: &mut PageWalk, r: WalkStep)
    requires
        call_ensures(LikedSongs::next_step, (liked, walk), r),
    ensures
        ({
            let meta = old(liked)@.meta;
            let rows = old(liked)@.tracks;
            let after = final(liked)@;
            let through = meta.fetched_through;
            let wanted = !meta.fresh && through < old(walk).want + 150;
            let more = match meta.total {
                None => true,
                Some(total) => through < total,
            };
            &&& r is Fetch <==> wanted && more
            &&& r matches WalkStep::Fetch { offset } ==> (through <= u32::MAX ==> offset == through)
            &&& !(wanted && !more) ==> after == old(liked)@
            &&& wanted && !more ==> {
                let total = meta.total->0;
                &&& after.meta.fresh
                &&& after.meta.total == Some(total)
                &&& r is Truncate <==> rows.len() > total
                &&& r is Truncate ==> r == (WalkStep::Truncate { len: total }) && after.tracks == rows.take(total as int)
                &&& !(r is Truncate) ==> after.tracks == rows
                &&& after.version == old(liked)@.version
            }
            &&& final(walk).through == through
            &&& final(walk).want == old(walk).want
            &&& final(walk).changed == (old(walk).changed || r is Truncate)
        }),
{
    law_walk_step_by_step(old(liked)@, old(walk).want);
    let rows = old(liked)@.tracks;
    assert(rows.take(rows.len() as int) =~= rows);
}

/// [`LikedSongs::page_arrived`] replaces the rows at the page's places, keeps all others, confirms the rows up to
/// the page's end, and asks for the page to be written where it starts; an empty page ends the list there.
pub proof fn law_page_arrived(
    liked: &mut LikedSongs,
    walk: &mut PageWalk,
    items: &Vec<Track>,
    total: usize,
    r: Persistence,
)
    requires
        call_ensures(LikedSongs::page_arrived, (liked, walk, items, total), r),
        old(walk).through <= old(liked)@.tracks.len(),
        old(walk).through + items@.len() <= usize::MAX,
    ensures
        ({
            let start = old(walk).through;
            let before = old(liked)@.tracks;
            let after = final(liked)@;
            &&& forall|i: int|
                0 <= i < before.len() && !(start <= i < start + items@.len()) ==> #[trigger] after.tracks[i] == before[i]
            &&& forall|i: int| 0 <= i < items@.len() ==> after.tracks[start + i] == (#[trigger] items@[i])@
            &&& after.tracks.len() == before.len() || after.tracks.len() == start + items@.len()
            &&& after.tracks.len() >= before.len() && after.tracks.len() >= start + items@.len()
            &&& after.meta.total == (if items@.len() == 0 {
                Some(start)
            } else {
                Some(total)
            })
            &&& items@.len() > 0 ==> after.meta.fetched_through == start + items@.len()
            &&& items@.len() == 0 ==> after.meta.fetched_through == old(liked)@.meta.fetched_through
            &&& after.meta.fresh == old(liked)@.meta.fresh
            &&& r == (Persistence { write: ListWrite::Page { start }, total: after.meta.total })
            &&& final(walk).changed
        }),
{
    let rows = tracks_of(items@);
    law_page_row_by_row(old(liked)@, old(walk).through, rows, total);
    assert forall|i: int| 0 <= i < items@.len() implies final(liked)@.tracks[old(walk).through + i] == (
    #[trigger] items@[i])@ by {
        assert(rows[i] == items@[i]@);
    }
}

/// [`LikedSongs::finish_walk`] tells whether the walk changed the list, and only then the version goes up; the
/// list itself stays.
pub proof fn law_finish_walk(liked: &mut LikedSongs, walk: PageWalk, r: bool)
    requires
        call_ensures(LikedSongs::finish_walk, (liked, walk), r),
    ensures
        r == walk.changed,
        walk.changed ==> final(liked)@.version == old(liked)@.version + 1,
        !walk.changed ==> final(liked)@.version == old(liked)@.version,
        final(liked)@.tracks == old(liked)@.tracks,
        final(liked)@.meta == old(liked)@.meta,
{
}

/// [`LikedSongs::apply_saved_added`] puts tracks that the list does not have in front of it in their order, moves
/// a known total by as many, and asks for the whole list to be written.
pub proof fn law_apply_saved_added(liked: &mut LikedSongs, tracks: &Vec<Track>, r: Persistence)
    requires
        call_ensures(LikedSongs::apply_saved_added, (liked, tracks), r),
        old(liked)@.version < u64::MAX,
        old(liked)@.tracks.len() + tracks@.len() <= usize::MAX,
        forall|i: int, j: int|
            0 <= i < j < tracks@.len() ==> (#[trigger] tracks@[i])@.id != (#[trigger] tracks@[j])@.id,
        forall|k: int, i: int|
            0 <= k < tracks@.len() && 0 <= i < old(liked)@.tracks.len() ==> (#[trigger] tracks@[k])@.id != (
            #[trigger] old(liked)@.tracks[i]).id,
    ensures
        ({
            let after = final(liked)@;
            &&& after.tracks.len() == tracks@.len() + old(liked)@.tracks.len()
            &&& forall|k: int| 0 <= k < tracks@.len() ==> after.tracks[k] == (#[trigger] tracks@[k])@
            &&& after.tracks.skip(tracks@.len() as int) == old(liked)@.tracks
            &&& old(liked)@.meta.total is None ==> after.meta.total is None
            &&& old(liked)@.meta.total matches Some(total) ==> (total + tracks@.len() <= usize::MAX ==> after.meta.total
                == Some((total + tracks@.len()) as usize))
            &&& after.version == old(liked)@.version + 1
            &&& r == (Persistence { write: ListWrite::All, total: after.meta.total })
        }),
{
    let added = tracks_of(tracks@);
    let list = old(liked)@.tracks;
    assert forall|i: int, j: int| 0 <= i < j < added.len() implies (#[trigger] added[i]).id != (#[trigger] added[j]).id by {
        assert(added[i] == tracks@[i]@ && added[j] == tracks@[j]@);
    }
    assert forall|k: int, i: int| 0 <= k < added.len() && 0 <= i < list.len() implies (#[trigger] added[k]).id != (
    #[trigger] list[i]).id by {
        assert(added[k] == tracks@[k]@);
    }
    law_new_tracks_lead_in_their_order(list, added);
    law_local_changes_of_the_counters(old(liked)@, added);
    assert((added + list).skip(tracks@.len() as int) =~= list);
    assert forall|k: int| 0 <= k < tracks@.len() implies final(liked)@.tracks[k] == (#[trigger] tracks@[k])@ by {
        assert(added[k] == tracks@[k]@);
    }
}

/// [`LikedSongs::apply_saved_removed`] leaves, in their order, the rows with ids that none of the tracks has,
/// moves a known total by as many rows as have gone, and asks for the whole list to be written.
pub proof fn law_apply_saved_removed(liked: &mut LikedSongs, tracks: &Vec<Track>, r: Persistence)
    requires
        call_ensures(LikedSongs::apply_saved_removed, (liked, tracks), r),
        old(liked)@.version < u64::MAX,
        old(liked)@.tracks.len() + tracks@.len() <= usize::MAX,
    ensures
        picked_from(
            old(liked)@.tracks,
            |t: TrackView| forall|k: int| 0 <= k < tracks@.len() ==> (#[trigger] tracks@[k])@.id != t.id,
            final(liked)@.tracks,
        ),
        ({
            let after = final(liked)@;
            let gone = old(liked)@.tracks.len() - after.tracks.len();
            &&& old(liked)@.meta.total is None ==> after.meta.total is None
            &&& old(liked)@.meta.total matches Some(total) ==> (total >= gone ==> after.meta.total == Some(
                (total - gone) as usize,
            ))
            &&& after.version == old(liked)@.version + 1
            &&& r == (Persistence { write: ListWrite::All, total: after.meta.total })
        }),
{
    let gone = tracks_of(tracks@);
    let list = old(liked)@.tracks;
    law_unliking_keeps_the_other_rows(list, gone);
    let plain = |t: TrackView| forall|k: int| 0 <= k < gone.len() ==> (#[trigger] gone[k]).id != t.id;
    let ours = |t: TrackView| forall|k: int| 0 <= k < tracks@.len() ==> (#[trigger] tracks@[k])@.id != t.id;
    assert forall|t: TrackView| #[trigger] plain(t) == ours(t) by {
        if plain(t) {
            assert forall|k: int| 0 <= k < tracks@.len() implies (#[trigger] tracks@[k])@.id != t.id by {
                assert(gone[k] == tracks@[k]@);
            }
        }
        if ours(t) {
            assert forall|k: int| 0 <= k < gone.len() implies (#[trigger] gone[k]).id != t.id by {
                assert(gone[k] == tracks@[k]@);
            }
        }
    }
    assert(plain =~= ours);
    lemma_added_at_most(list, gone);
    law_local_changes_of_the_counters(old(liked)@, gone);
}

/// A list that was just made is empty, with nothing confirmed, and what [`LikedSongs::load_cache`] is given is what
/// [`LikedSongs::saved_tracks`], [`LikedSongs::total`] and [`LikedSongs::meta`] give; [`LikedSongs::version`] tells
/// that the list has changed.
pub proof fn law_cache_is_read_back(
    made: LikedSongs,
    none: &Vec<Track>,
    first: u64,
    liked: &mut LikedSongs,
    cached: Vec<Track>,
    total: Option<usize>,
    tracks: &Vec<Track>,
    count: Option<usize>,
    meta: SavedTracksMeta,
    version: u64,
)
    requires
        call_ensures(LikedSongs::new, (), made),
        call_ensures(LikedSongs::saved_tracks, (&made,), none),
        call_ensures(LikedSongs::version, (&made,), first),
        *old(liked) == made,
        call_ensures(LikedSongs::load_cache, (liked, cached, total), ()),
        call_ensures(LikedSongs::saved_tracks, (&*final(liked),), tracks),
        call_ensures(LikedSongs::total, (&*final(liked),), count),
        call_ensures(LikedSongs::meta, (&*final(liked),), meta),
        call_ensures(LikedSongs::version, (&*final(liked),), version),
    ensures
        none@.len() == 0 && first == 0,
        tracks@.len() == cached@.len(),
        forall|i: int| 0 <= i < cached@.len() ==> (#[trigger] tracks@[i])@ == cached@[i]@,
        count == total,
        meta == (SavedTracksMeta { total, fetched_through: 0, fresh: false }),
        version == 1,
{
    assert(tracks_of(none@).len() == none@.len());
    assert(tracks_of(tracks@).len() == tracks@.len());
    assert(tracks_of(cached@).len() == cached@.len());
    assert forall|i: int| 0 <= i < cached@.len() implies (#[trigger] tracks@[i])@ == cached@[i]@ by {
        assert(tracks_of(tracks@)[i] == tracks@[i]@);
        assert(tracks_of(cached@)[i] == cached@[i]@);
    }
}

} // verus!
