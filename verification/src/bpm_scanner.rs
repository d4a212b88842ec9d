//! The schedule of local BPM detection.
//!
//! One background worker owns a cursor over the Liked Songs list and walks it forward, detecting
//! the BPM of each track that does not have one, no faster than a minimum interval. Resting the
//! selection on a row moves the cursor there (after a delay), so browsing prioritises what is on
//! screen. The track that is *playing* jumps the cursor entirely and is analysed off the rate
//! limit, but from the audio cache once playback has filled it, not by a competing fetch. Until
//! that cache file shows up the playing track is just checked again every few seconds, for up to
//! [`PLAY_CACHE_GRACE`].
//!
//! By default the cursor also pages more of the list in as it reaches the end and wraps around, so
//! left running it fills in the whole library. Scanning can be turned off at runtime (see
//! [`BpmScanner::toggle_enabled`]).
//!
//! All times are milliseconds of one clock that never goes back. Sleeping, detecting and storing
//! are the caller's.

use vstd::hash_map::StringHashMap;
use vstd::prelude::*;

use crate::bpm::{BpmOutcome, ScanOptions};
use crate::liked_songs::LikedSongs;
use crate::model::Track;
#[allow(unused_imports)]
use crate::model::{tracks_of, TrackView};
use crate::text::same_text;
#[allow(unused_imports)]
use crate::text::text_of;

verus! {

/// Default seconds the selection must rest on a row before the cursor follows it there.
pub const DEFAULT_BPM_SCAN_DELAY_SECS: u64 = 1;

/// Default minimum seconds between two audio fetches.
pub const DEFAULT_BPM_SCAN_MIN_INTERVAL_SECS: u64 = 15;

/// How often the worker wakes, in milliseconds.
pub const TICK: u64 = 400;

/// After this many failed detections for one track, stop trying it this session.
pub const MAX_DETECT_ATTEMPTS: u8 = 3;

/// Back off this long when there is nothing to analyse within reach.
pub const IDLE: u64 = 30_000;

/// Back off this long once a fully loaded library has been fully analysed.
pub const IDLE_COMPLETE: u64 = 600_000;

/// Back off this long after requesting another page of the list.
pub const PAGE_LOAD_WAIT: u64 = 5_000;

/// Rows to request past the loaded end when the cursor catches up to it.
pub const PAGE: usize = 200;

/// How long to keep waiting for playback to fill the audio cache for the playing track before
/// giving up on it and fetching it directly, like any other track.
pub const PLAY_CACHE_GRACE: u64 = 150_000;

/// Gap between checks for the playing track's cache file while still within the grace period.
pub const PLAY_CACHE_POLL: u64 = 8_000;

/// The bitrate that is fetched if none is configured.
pub const DEFAULT_BITRATE: u32 = 320;

/// The configuration values that the scanner goes by; an absent one has its default.
#[derive(Clone, Copy, Debug)]
pub struct ScannerConfig {
    pub enrich_metadata: Option<bool>,
    pub bpm_scan_enabled: Option<bool>,
    pub bpm_scan_delay_secs: Option<u64>,
    pub bpm_scan_min_interval_secs: Option<u64>,
    pub bpm_scan_full_library: Option<bool>,
    pub bpm_scan_cache_full: Option<bool>,
    pub bitrate: Option<u32>,
}

/// The playing track while the scanner waits for playback to cache its audio.
pub struct PlayingTrack {
    pub track: Track,
    /// When playback of this track started.
    pub since: u64,
    /// Earliest time of the next attempt, so that a cache miss does not spin.
    pub retry_after: u64,
}

/// Owns the known tempos and decides what to analyse next.
pub struct BpmScanner {
    /// BPM by track id, as the bits of an IEEE 754 single-precision number.
    bpm_cache: StringHashMap<u32>,
    /// Number of failed detections by track id.
    failures: StringHashMap<u8>,
    playing: Option<PlayingTrack>,
    /// The row the selection is resting on, and since when.
    focus: Option<(String, u64)>,
    enabled: bool,
    cfg: ScannerConfig,
}

/// The contents of a [`PlayingTrack`].
#[verifier::ext_equal]
pub struct PlayingView {
    pub track: TrackView,
    pub since: u64,
    pub retry_after: u64,
}

/// The contents of a [`BpmScanner`].
#[verifier::ext_equal]
pub struct ScannerView {
    pub bpm: Map<Seq<char>, u32>,
    pub failures: Map<Seq<char>, u8>,
    pub playing: Option<PlayingView>,
    pub focus: Option<(Seq<char>, u64)>,
    pub enabled: bool,
    pub cfg: ScannerConfig,
}

impl View for PlayingTrack {
    type V = PlayingView;

    open spec fn view(&self) -> PlayingView {
        PlayingView { track: self.track@, since: self.since, retry_after: self.retry_after }
    }
}

impl View for BpmScanner {
    type V = ScannerView;

    closed spec fn view(&self) -> ScannerView {
        ScannerView {
            bpm: self.bpm_cache@,
            failures: self.failures@,
            playing: match self.playing {
                Some(p) => Some(p@),
                None => None,
            },
            focus: match self.focus {
                Some((id, since)) => Some((id@, since)),
                None => None,
            },
            enabled: self.enabled,
            cfg: self.cfg,
        }
    }
}

/// Where the walk through the list stands.
#[derive(Clone, Copy, Debug)]
pub struct ScanWalk {
    /// The row to look at next.
    pub cursor: usize,
    /// When the last fetch ended.
    pub last_fetch: Option<u64>,
    /// Do not look at the list before this time.
    pub backoff_until: Option<u64>,
    /// Consecutive passes over a complete library that found nothing.
    pub idle_passes: u32,
}

/// What to do in a tick of the walk.
pub enum WalkAction {
    Nothing,
    /// Analyse the track of this row with these options, then see [`BpmScanner::walk_analyzed`].
    Analyze(usize, Track, ScanOptions),
    /// Ask for the list to be loaded up to this row.
    LoadThrough(usize),
}

/// The contents of a [`WalkAction`].
#[verifier::ext_equal]
pub enum WalkActionView {
    Nothing,
    Analyze(usize, TrackView, ScanOptions),
    LoadThrough(usize),
}

impl View for WalkAction {
    type V = WalkActionView;

    open spec fn view(&self) -> WalkActionView {
        match self {
            WalkAction::Nothing => WalkActionView::Nothing,
            WalkAction::Analyze(i, track, options) => WalkActionView::Analyze(*i, track@, *options),
            WalkAction::LoadThrough(row) => WalkActionView::LoadThrough(*row),
        }
    }
}

/// An attempt on the playing track.
pub struct PlayingAttempt {
    pub track: Track,
    pub options: ScanOptions,
    /// Whether the time for playback to fill the cache is over.
    pub grace_elapsed: bool,
}

/// What looking after the playing track comes to.
pub enum PlayingStep {
    /// Nothing is to be done for it now: the rest of the tick is for the walk.
    Walk,
    /// It needs no more attempts and was dropped; the tick is over.
    Dropped,
    /// Analyse it, then see [`BpmScanner::playing_analyzed`]; the tick is over after that.
    Attempt(PlayingAttempt),
}

/// How to analyse a track.
#[derive(Clone, Copy, Debug, PartialEq, Eq, Structural)]
pub enum AnalyzeStep {
    /// The outcome is known without looking at the audio.
    Known(BpmOutcome),
    /// Detect the BPM from the audio, then see [`BpmScanner::analyzed`].
    Detect,
}

// --- What the decisions mean -----------------------------------------------------------------

/// Time since `since`.
pub open spec fn elapsed(now: u64, since: u64) -> int {
    if now >= since {
        now - since
    } else {
        0
    }
}

/// An optional switch that is on unless it is set to off.
pub open spec fn on_by_default(value: Option<bool>) -> bool {
    match value {
        Some(b) => b,
        None => true,
    }
}

pub open spec fn value_or(value: Option<u64>, default: u64) -> u64 {
    match value {
        Some(v) => v,
        None => default,
    }
}

/// The first track from `from` on that passes the test.
pub open spec fn first_row(tracks: Seq<TrackView>, from: int, test: spec_fn(TrackView) -> bool) -> Option<int>
    decreases tracks.len() - from,
{
    if from < 0 || from >= tracks.len() {
        None
    } else if test(tracks[from]) {
        Some(from)
    } else {
        first_row(tracks, from + 1, test)
    }
}

/// The tempos of a list of pairs of a track id and its BPM: of two pairs with one id the later
/// counts.
pub open spec fn tempos_of(pairs: Seq<(String, u32)>) -> Map<Seq<char>, u32>
    decreases pairs.len(),
{
    if pairs.len() == 0 {
        Map::empty()
    } else {
        tempos_of(pairs.drop_last()).insert(pairs.last().0@, pairs.last().1)
    }
}

/// Where the walk stands once the row has been analysed.
pub open spec fn past_row(walk: ScanWalk, row: usize, now: u64) -> ScanWalk {
    ScanWalk {
        cursor: (row + 1) as usize,
        last_fetch: Some(now),
        backoff_until: walk.backoff_until,
        idle_passes: 0,
    }
}

impl ScannerConfig {
    /// The options of a fetch: by default the player's bitrate and the whole file, so that it is
    /// cached for playback.
    pub open spec fn fetch_options(self) -> ScanOptions {
        if on_by_default(self.bpm_scan_cache_full) {
            ScanOptions {
                require_cached: false,
                bitrate: Some(
                    match self.bitrate {
                        Some(b) => b,
                        None => DEFAULT_BITRATE,
                    },
                ),
                cache_full: true,
            }
        } else {
            ScanOptions { require_cached: false, bitrate: None, cache_full: false }
        }
    }
}

/// The number of failures that count against a track.
pub open spec fn failures_of(v: ScannerView, id: Seq<char>) -> int {
    if v.failures.contains_key(id) {
        v.failures[id] as int
    } else {
        0
    }
}

/// One failure more, up to the number at which a track is given up on.
pub open spec fn counted(failures: int) -> u8 {
    if failures < MAX_DETECT_ATTEMPTS {
        (failures + 1) as u8
    } else {
        MAX_DETECT_ATTEMPTS
    }
}

impl ScannerView {
    /// No track has failed more often than it may.
    pub open spec fn wf(self) -> bool {
        forall|id: Seq<char>| #[trigger]
            self.failures.contains_key(id) ==> self.failures[id] <= MAX_DETECT_ATTEMPTS
    }

    /// Whether a further lookup is pointless: the BPM is known, or detection has failed too often
    /// this session.
    pub open spec fn settled(self, id: Seq<char>) -> bool {
        ||| self.bpm.contains_key(id)
        ||| self.failures.contains_key(id) && self.failures[id] >= MAX_DETECT_ATTEMPTS
    }

    /// Whether it is worth analysing the track: metadata enrichment is on, it is a remote track,
    /// and it is not settled.
    pub open spec fn wants(self, track: TrackView) -> bool {
        &&& on_by_default(self.cfg.enrich_metadata)
        &&& !track.is_local
        &&& track.id is Some
        &&& !self.settled(track.id->0)
    }

    /// Whether the selection is on the row with the id.
    pub open spec fn rests_on(self, id: Seq<char>) -> bool {
        match self.focus {
            Some((focused, _)) => focused == id,
            None => false,
        }
    }

    /// The scanner after the selection has been seen on the track's row.
    pub open spec fn selected(self, track: TrackView, now: u64) -> ScannerView {
        match track.id {
            Some(id) => if self.rests_on(id) {
                self
            } else {
                ScannerView { focus: Some((id, now)), ..self }
            },
            None => self,
        }
    }

    /// The row that has been rested on for the delay, if any.
    pub open spec fn dwelled(self, now: u64) -> Option<Seq<char>> {
        match self.focus {
            Some((id, since)) => if elapsed(now, since) >= 1000 * value_or(
                self.cfg.bpm_scan_delay_secs,
                DEFAULT_BPM_SCAN_DELAY_SECS,
            ) {
                Some(id)
            } else {
                None
            },
            None => None,
        }
    }

    /// Whether the playing track needs no more attempts: it has no id, or it is settled.
    pub open spec fn playing_done(self) -> bool {
        &&& self.playing matches Some(p)
        &&& p.track.id matches Some(id) ==> self.settled(id)
    }

    /// Whether the playing track is due for an attempt.
    pub open spec fn playing_due(self, now: u64) -> bool {
        &&& self.playing matches Some(p)
        &&& !self.playing_done()
        &&& now >= p.retry_after
    }

    /// The scanner after an attempt on the playing track, whose id is given.
    pub open spec fn after_attempt(
        self,
        id: Option<Seq<char>>,
        grace_elapsed: bool,
        outcome: BpmOutcome,
        now: u64,
    ) -> ScannerView {
        ScannerView {
            playing: match self.playing {
                Some(p) => if p.track.id != id {
                    Some(p)
                } else if outcome is Unavailable && !grace_elapsed {
                    Some(PlayingView { retry_after: (now + PLAY_CACHE_POLL) as u64, ..p })
                } else {
                    None
                },
                None => None,
            },
            ..self
        }
    }

    /// Whether the last fetch is too recent for another.
    pub open spec fn rate_limited(self, walk: ScanWalk, now: u64) -> bool {
        &&& walk.last_fetch is Some
        &&& elapsed(now, walk.last_fetch->0) < 1000 * value_or(
            self.cfg.bpm_scan_min_interval_secs,
            DEFAULT_BPM_SCAN_MIN_INTERVAL_SECS,
        )
    }

    /// The walk after it has followed the selection.
    pub open spec fn followed(self, tracks: Seq<TrackView>, walk: ScanWalk, now: u64) -> ScanWalk {
        match self.dwelled(now) {
            Some(id) => match first_row(tracks, 0, |t: TrackView| t.id == Some(id)) {
                Some(row) => ScanWalk {
                    cursor: row as usize,
                    last_fetch: walk.last_fetch,
                    backoff_until: None,
                    idle_passes: 0,
                },
                None => walk,
            },
            None => walk,
        }
    }

    /// What a walk that is neither rate-limited nor backing off does, and where it stands
    /// afterwards.
    pub open spec fn looked(self, tracks: Seq<TrackView>, total: Option<usize>, walk: ScanWalk, now: u64) -> (
        WalkActionView,
        ScanWalk,
    ) {
        match first_row(tracks, walk.cursor as int, |t: TrackView| self.wants(t)) {
            Some(row) => (
                WalkActionView::Analyze(row as usize, tracks[row], self.cfg.fetch_options()),
                ScanWalk { backoff_until: None, ..walk },
            ),
            None => if !on_by_default(self.cfg.bpm_scan_full_library) {
                (WalkActionView::Nothing, ScanWalk { backoff_until: Some((now + IDLE) as u64), ..walk })
            } else if total is Some && tracks.len() >= total->0 {
                (
                    WalkActionView::Nothing,
                    ScanWalk {
                        cursor: 0,
                        last_fetch: walk.last_fetch,
                        backoff_until: if walk.idle_passes + 1 >= 2 {
                            Some((now + IDLE_COMPLETE) as u64)
                        } else {
                            None
                        },
                        idle_passes: (walk.idle_passes + 1) as u32,
                    },
                )
            } else {
                (
                    WalkActionView::LoadThrough((tracks.len() + PAGE) as usize),
                    ScanWalk { backoff_until: Some((now + PAGE_LOAD_WAIT) as u64), ..walk },
                )
            },
        }
    }

    /// What a tick of the walk does, and where the walk stands afterwards.
    pub open spec fn ticked(self, tracks: Seq<TrackView>, total: Option<usize>, walk: ScanWalk, now: u64) -> (
        WalkActionView,
        ScanWalk,
    ) {
        if !self.enabled {
            (WalkActionView::Nothing, walk)
        } else {
            let walk = self.followed(tracks, walk, now);
            if self.rate_limited(walk, now) {
                (WalkActionView::Nothing, walk)
            } else if walk.backoff_until is Some && now < walk.backoff_until->0 {
                (WalkActionView::Nothing, walk)
            } else {
                self.looked(tracks, total, walk, now)
            }
        }
    }

    /// The scanner after an outcome of detection: a tempo is kept, a failure is counted, unless
    /// the audio was only looked for in the cache.
    pub open spec fn with_outcome(self, id: Seq<char>, require_cached: bool, outcome: BpmOutcome) -> ScannerView {
        match outcome {
            BpmOutcome::Detected(bpm) => ScannerView {
                bpm: self.bpm.insert(id, bpm),
                failures: self.failures.remove(id),
                ..self
            },
            _ => if outcome is Unavailable && require_cached {
                self
            } else {
                ScannerView { failures: self.failures.insert(id, counted(failures_of(self, id))), ..self }
            },
        }
    }
}

// --- The scanner -----------------------------------------------------------------------------

/// An optional switch that is on unless it is set to off.
fn is_on(value: Option<bool>) -> (r: bool)
    ensures
        r == on_by_default(value),
{
    match value {
        Some(b) => b,
        None => true,
    }
}

/// Whether at least `secs` seconds have passed between `since` and `now`.
fn has_passed(now: u64, since: u64, secs: u64) -> (r: bool)
    ensures
        r == (elapsed(now, since) >= 1000 * secs),
{
    let ms: u64 = if now >= since {
        now - since
    } else {
        0
    };
    ms / 1000 >= secs
}

impl BpmScanner {
    /// A scanner that knows nothing and is on.
    fn build(cfg: ScannerConfig) -> (r: Self)
        ensures
            r@ == (ScannerView {
                bpm: Map::empty(),
                failures: Map::empty(),
                playing: None,
                focus: None,
                enabled: true,
                cfg,
            }),
    {
        BpmScanner {
            bpm_cache: StringHashMap::new(),
            failures: StringHashMap::new(),
            playing: None,
            focus: None,
            enabled: true,
            cfg,
        }
    }

    /// A scanner that starts without any known tempo.
    pub fn disconnected(cfg: ScannerConfig) -> (r: Self)
        ensures
            r@.wf(),
            r@ == (ScannerView {
                bpm: Map::empty(),
                failures: Map::empty(),
                playing: None,
                focus: None,
                enabled: true,
                cfg,
            }),
    {
        BpmScanner::build(cfg)
    }

    /// A scanner with the tempos that the store held, on unless the configuration says otherwise.
    pub fn new(cfg: ScannerConfig, stored: &Vec<(String, u32)>) -> (r: Self)
        ensures
            r@.wf(),
            r@ == (ScannerView {
                bpm: tempos_of(stored@),
                failures: Map::empty(),
                playing: None,
                focus: None,
                enabled: on_by_default(cfg.bpm_scan_enabled),
                cfg,
            }),
    {
        let mut scanner = BpmScanner::build(cfg);
        assert(stored@.take(0) =~= Seq::empty());
        for i in 0..stored.len()
            invariant
                scanner@ == (ScannerView {
                    bpm: tempos_of(stored@.take(i as int)),
                    failures: Map::empty(),
                    playing: None,
                    focus: None,
                    enabled: true,
                    cfg,
                }),
        {
            assert(stored@.take(i + 1).drop_last() =~= stored@.take(i as int));
            scanner.bpm_cache.insert(stored[i].0.clone(), stored[i].1);
        }
        assert(stored@.take(stored@.len() as int) =~= stored@);
        scanner.enabled = is_on(cfg.bpm_scan_enabled);
        scanner
    }

    /// Whether the background walk is currently running.
    pub fn is_enabled(&self) -> (r: bool)
        ensures
            r == self@.enabled,
    {
        self.enabled
    }

    /// Flip the background walk on or off. The playing track keeps being analysed regardless.
    /// Returns the new state.
    pub fn toggle_enabled(&mut self) -> (r: bool)
        ensures
            r == !old(self)@.enabled,
            final(self)@ == (ScannerView { enabled: r, ..old(self)@ }),
    {
        self.enabled = !self.enabled;
        self.enabled
    }

    /// Use another configuration from now on.
    pub fn set_config(&mut self, cfg: ScannerConfig)
        ensures
            final(self)@ == (ScannerView { cfg, ..old(self)@ }),
    {
        self.cfg = cfg;
    }

    /// The BPM of the track, if it is known.
    pub fn bpm_for(&self, track_id: &String) -> (r: Option<u32>)
        ensures
            r == (if self@.bpm.contains_key(track_id@) {
                Some(self@.bpm[track_id@])
            } else {
                None
            }),
    {
        match self.bpm_cache.get(track_id.as_str()) {
            Some(bpm) => Some(*bpm),
            None => None,
        }
    }

    /// Whether a further lookup for the track is pointless.
    pub fn settled(&self, track_id: &String) -> (r: bool)
        ensures
            r == self@.settled(track_id@),
    {
        if self.bpm_for(track_id).is_some() {
            return true;
        }
        match self.failures.get(track_id.as_str()) {
            Some(n) => *n >= MAX_DETECT_ATTEMPTS,
            None => false,
        }
    }

    /// Whether it is worth analysing the track.
    pub fn wants_bpm_scan(&self, track: &Track) -> (r: bool)
        ensures
            r == self@.wants(track@),
    {
        if !is_on(self.cfg.enrich_metadata) || track.is_local {
            return false;
        }
        match &track.id {
            Some(id) => !self.settled(id),
            None => false,
        }
    }

    /// Register the track as the row the selection is on. The cursor follows it once it has been
    /// the focus for the delay, so scrolling *past* a row never moves the cursor.
    pub fn note_track_selection(&mut self, track: &Track, now: u64)
        ensures
            final(self)@ == old(self)@.selected(track@, now),
    {
        match &track.id {
            Some(id) => {
                let same = match &self.focus {
                    Some((focused, _)) => *focused == *id,
                    None => false,
                };
                if !same {
                    self.focus = Some((id.clone(), now));
                }
            },
            None => {},
        }
    }

    /// Note that the track has just started playing.
    pub fn note_track_played(&mut self, track: &Track, now: u64)
        ensures
            final(self)@ == (if old(self)@.wants(track@) {
                ScannerView {
                    playing: Some(PlayingView { track: track@, since: now, retry_after: now }),
                    ..old(self)@
                }
            } else {
                old(self)@
            }),
    {
        if self.wants_bpm_scan(track) {
            self.playing = Some(PlayingTrack { track: track.clone(), since: now, retry_after: now });
        }
    }

    /// The focused row's id, if it has been rested on for at least the delay. It is consumed.
    pub fn take_dwelled_focus(&mut self, now: u64) -> (r: Option<String>)
        ensures
            text_of(r) == old(self)@.dwelled(now),
            final(self)@ == (if r is Some {
                ScannerView { focus: None, ..old(self)@ }
            } else {
                old(self)@
            }),
    {
        let delay: u64 = self.cfg_secs(self.cfg.bpm_scan_delay_secs, DEFAULT_BPM_SCAN_DELAY_SECS);
        let due = match &self.focus {
            Some((_, since)) => has_passed(now, *since, delay),
            None => false,
        };
        if due {
            match self.focus.take() {
                Some((id, _)) => Some(id),
                None => None,
            }
        } else {
            None
        }
    }

    /// A configured number of seconds or its default.
    fn cfg_secs(&self, value: Option<u64>, default: u64) -> (r: u64)
        ensures
            r == value_or(value, default),
    {
        match value {
            Some(v) => v,
            None => default,
        }
    }

    /// The options of a fetch that both ways of scanning share; `require_cached` is filled in by
    /// the caller.
    pub fn cdn_scan_options(&self) -> (r: ScanOptions)
        ensures
            r == self@.cfg.fetch_options(),
    {
        if is_on(self.cfg.bpm_scan_cache_full) {
            let bitrate: u32 = match self.cfg.bitrate {
                Some(b) => b,
                None => DEFAULT_BITRATE,
            };
            ScanOptions { require_cached: false, bitrate: Some(bitrate), cache_full: true }
        } else {
            ScanOptions { require_cached: false, bitrate: None, cache_full: false }
        }
    }

    /// One tick of the walk through the list, which is neither to be made while an attempt on the
    /// playing track is under way nor instead of one.
    pub fn run(&mut self, liked: &LikedSongs, walk: &mut ScanWalk, now: u64) -> (r: WalkAction)
        requires
            now + IDLE_COMPLETE <= u64::MAX,
            liked@.tracks.len() + PAGE <= usize::MAX,
            old(walk).idle_passes < u32::MAX,
        ensures
            (r@, *final(walk)) == old(self)@.ticked(liked@.tracks, liked@.meta.total, *old(walk), now),
            final(self)@ == (if old(self)@.enabled && old(self)@.dwelled(now) is Some {
                ScannerView { focus: None, ..old(self)@ }
            } else {
                old(self)@
            }),
    {
        let ghost view = self@;
        if !self.is_enabled() {
            return WalkAction::Nothing;
        }
        let tracks = liked.saved_tracks();
        if let Some(id) = self.take_dwelled_focus(now) {
            if let Some(row) = row_of(tracks, &id) {
                walk.cursor = row;
                walk.backoff_until = None;
                walk.idle_passes = 0;
            }
        }
        assert(*walk == view.followed(tracks_of(tracks@), *old(walk), now));
        let interval: u64 = self.cfg_secs(
            self.cfg.bpm_scan_min_interval_secs,
            DEFAULT_BPM_SCAN_MIN_INTERVAL_SECS,
        );
        if let Some(last) = walk.last_fetch {
            if !has_passed(now, last, interval) {
                return WalkAction::Nothing;
            }
        }
        if let Some(until) = walk.backoff_until {
            if now < until {
                return WalkAction::Nothing;
            }
        }
        walk.backoff_until = None;
        let loaded: usize = tracks.len();
        let next = self.next_wanted(tracks, walk.cursor);
        assert((|t: TrackView| self@.wants(t)) =~= (|t: TrackView| view.wants(t)));
        match next {
            Some(row) => WalkAction::Analyze(row, tracks[row].clone(), self.cdn_scan_options()),
            None => {
                let complete = match liked.total() {
                    Some(total) => loaded >= total,
                    None => false,
                };
                if !is_on(self.cfg.bpm_scan_full_library) {
                    walk.backoff_until = Some(now + IDLE);
                    WalkAction::Nothing
                } else if complete {
                    walk.cursor = 0;
                    walk.idle_passes = walk.idle_passes + 1;
                    if walk.idle_passes >= 2 {
                        walk.backoff_until = Some(now + IDLE_COMPLETE);
                    }
                    WalkAction::Nothing
                } else {
                    walk.backoff_until = Some(now + PAGE_LOAD_WAIT);
                    WalkAction::LoadThrough(loaded + PAGE)
                }
            },
        }
    }

    /// The first row from `from` on that is worth analysing.
    fn next_wanted(&self, tracks: &Vec<Track>, from: usize) -> (r: Option<usize>)
        ensures
            match r {
                Some(row) => row < tracks@.len() && first_row(
                    tracks_of(tracks@),
                    from as int,
                    |t: TrackView| self@.wants(t),
                ) == Some(row as int),
                None => first_row(tracks_of(tracks@), from as int, |t: TrackView| self@.wants(t)) is None,
            },
    {
        let ghost all = tracks_of(tracks@);
        let ghost test = |t: TrackView| self@.wants(t);
        let mut i: usize = from;
        while i < tracks.len()
            invariant
                all == tracks_of(tracks@),
                test == (|t: TrackView| self@.wants(t)),
                first_row(all, from as int, test) == first_row(all, i as int, test),
            decreases tracks.len() - i,
        {
            assert(all[i as int] == tracks@[i as int]@);
            if self.wants_bpm_scan(&tracks[i]) {
                return Some(i);
            }
            i += 1;
        }
        None
    }

    /// Note that the row that a tick gave out has been analysed.
    pub fn walk_analyzed(walk: &mut ScanWalk, row: usize, now: u64)
        requires
            row < usize::MAX,
        ensures
            *final(walk) == past_row(*old(walk), row, now),
    {
        walk.cursor = row + 1;
        walk.idle_passes = 0;
        walk.last_fetch = Some(now);
    }

    /// Look after the playing track, if there is one. Either an attempt on it is due, or it needs
    /// no more attempts and is dropped: both use up the tick. Between two looks into the cache the
    /// tick is left to the walk. While playback is still filling the cache the attempt insists on
    /// reading from it; only once the grace period is over it may fetch, which by then does not
    /// compete with playback.
    pub fn handle_playing(&mut self, now: u64) -> (r: PlayingStep)
        ensures
            r is Dropped == old(self)@.playing_done(),
            r is Attempt == old(self)@.playing_due(now),
            r matches PlayingStep::Attempt(attempt) ==> {
                let playing = old(self)@.playing->0;
                &&& attempt.track@ == playing.track
                &&& attempt.grace_elapsed == (elapsed(now, playing.since) >= PLAY_CACHE_GRACE)
                &&& attempt.options == (ScanOptions {
                    require_cached: !attempt.grace_elapsed,
                    ..old(self)@.cfg.fetch_options()
                })
            },
            final(self)@ == (if r is Dropped {
                ScannerView { playing: None, ..old(self)@ }
            } else {
                old(self)@
            }),
    {
        let step = match &self.playing {
            Some(pending) => match &pending.track.id {
                Some(id) => if self.settled(id) {
                    PlayingStep::Dropped
                } else if now < pending.retry_after {
                    PlayingStep::Walk
                } else {
                    let grace_elapsed = has_passed(now, pending.since, PLAY_CACHE_GRACE / 1000);
                    let mut options = self.cdn_scan_options();
                    options.require_cached = !grace_elapsed;
                    PlayingStep::Attempt(
                        PlayingAttempt { track: pending.track.clone(), options, grace_elapsed },
                    )
                },
                None => PlayingStep::Dropped,
            },
            None => PlayingStep::Walk,
        };
        if let PlayingStep::Dropped = &step {
            self.playing = None;
        }
        step
    }

    /// Note how an attempt on the playing track ended. A newer track may have replaced it
    /// meanwhile, and is then left alone. Otherwise a missing cache file is looked for again after
    /// a while, unless the grace period is over; any other outcome settles the matter.
    pub fn playing_analyzed(&mut self, attempt: &PlayingAttempt, outcome: BpmOutcome, now: u64)
        requires
            now + PLAY_CACHE_POLL <= u64::MAX,
        ensures
            final(self)@ == old(self)@.after_attempt(attempt.track@.id, attempt.grace_elapsed, outcome, now),
    {
        let same = match &self.playing {
            Some(p) => same_text(&p.track.id, &attempt.track.id),
            None => false,
        };
        if !same {
            return;
        }
        let again = match outcome {
            BpmOutcome::Unavailable => !attempt.grace_elapsed,
            _ => false,
        };
        if again {
            match self.playing.take() {
                Some(p) => {
                    self.playing = Some(
                        PlayingTrack { track: p.track, since: p.since, retry_after: now + PLAY_CACHE_POLL },
                    );
                },
                None => {},
            }
        } else {
            self.playing = None;
        }
    }

    /// Whether the track's audio has to be looked at: not if its BPM is known, nor if it has failed
    /// too often, nor without a session with the service. A track without an id is unavailable.
    pub fn analyze(&self, track: &Track, has_session: bool) -> (r: AnalyzeStep)
        ensures
            r == (match track@.id {
                None => AnalyzeStep::Known(BpmOutcome::Unavailable),
                Some(id) => if self@.bpm.contains_key(id) {
                    AnalyzeStep::Known(BpmOutcome::Detected(self@.bpm[id]))
                } else if self@.settled(id) {
                    AnalyzeStep::Known(BpmOutcome::Indeterminate)
                } else if !has_session {
                    AnalyzeStep::Known(BpmOutcome::Unavailable)
                } else {
                    AnalyzeStep::Detect
                },
            }),
    {
        match &track.id {
            Some(id) => {
                if let Some(bpm) = self.bpm_for(id) {
                    return AnalyzeStep::Known(BpmOutcome::Detected(bpm));
                }
                if self.settled(id) {
                    return AnalyzeStep::Known(BpmOutcome::Indeterminate);
                }
                if !has_session {
                    return AnalyzeStep::Known(BpmOutcome::Unavailable);
                }
                AnalyzeStep::Detect
            },
            None => AnalyzeStep::Known(BpmOutcome::Unavailable),
        }
    }

    /// Take note of a detection that ran. A cache miss (nothing available although only the cache
    /// was to be looked at) does not count as a failure, since the audio may simply not have been
    /// downloaded yet; a failed fetch and an analysis without result do. Returns the BPM to store,
    /// if there is one; the list then has to be drawn again.
    pub fn analyzed(&mut self, track_id: &String, require_cached: bool, outcome: BpmOutcome) -> (r: Option<u32>)
        ensures
            old(self)@.wf() ==> final(self)@.wf(),
            final(self)@ == old(self)@.with_outcome(track_id@, require_cached, outcome),
            r == (match outcome {
                BpmOutcome::Detected(bpm) => Some(bpm),
                _ => None,
            }),
    {
        match outcome {
            BpmOutcome::Detected(bpm) => {
                self.bpm_cache.insert(track_id.clone(), bpm);
                self.failures.remove(track_id.as_str());
                Some(bpm)
            },
            _ => {
                let is_miss = match outcome {
                    BpmOutcome::Unavailable => require_cached,
                    _ => false,
                };
                if !is_miss {
                    let n: u8 = match self.failures.get(track_id.as_str()) {
                        Some(n) => *n,
                        None => 0,
                    };
                    let counted: u8 = if n < MAX_DETECT_ATTEMPTS {
                        n + 1
                    } else {
                        MAX_DETECT_ATTEMPTS
                    };
                    self.failures.insert(track_id.clone(), counted);
                }
                None
            },
        }
    }
}

/// The first row with the id.
fn row_of(tracks: &Vec<Track>, id: &String) -> (r: Option<usize>)
    ensures
        match r {
            Some(row) => first_row(tracks_of(tracks@), 0, |t: TrackView| t.id == Some(id@)) == Some(row as int),
            None => first_row(tracks_of(tracks@), 0, |t: TrackView| t.id == Some(id@)) is None,
        },
{
    let ghost all = tracks_of(tracks@);
    let ghost test = |t: TrackView| t.id == Some(id@);
    for i in 0..tracks.len()
        invariant
            all == tracks_of(tracks@),
            test == (|t: TrackView| t.id == Some(id@)),
            first_row(all, 0, test) == first_row(all, i as int, test),
    {
        assert(all[i as int] == tracks@[i as int]@);
        let found = match &tracks[i].id {
            Some(own) => *own == *id,
            None => false,
        };
        if found {
            return Some(i);
        }
    }
    None
}

/// The row that is found passes the test, and none before it does.
proof fn lemma_first_row(tracks: Seq<TrackView>, from: int, test: spec_fn(TrackView) -> bool)
    requires
        0 <= from,
    ensures
        match first_row(tracks, from, test) {
            Some(row) => {
                &&& from <= row < tracks.len()
                &&& test(tracks[row])
                &&& forall|i: int| from <= i < row ==> !test(#[trigger] tracks[i])
            },
            None => forall|i: int| from <= i < tracks.len() ==> !test(#[trigger] tracks[i]),
        },
    decreases tracks.len() - from,
{
    if from < tracks.len() && !test(tracks[from]) {
        lemma_first_row(tracks, from + 1, test);
    }
}

// --- Laws ------------------------------------------------------------------------------------

/// With the walk turned off a tick does nothing.
pub proof fn law_disabled_walk_rests(
    v: ScannerView,
    tracks: Seq<TrackView>,
    total: Option<usize>,
    walk: ScanWalk,
    now: u64,
)
    requires
        !v.enabled,
    ensures
        v.ticked(tracks, total, walk, now) == (WalkActionView::Nothing, walk),
{
}

/// The walk gives out only rows that are worth analysing, each with the options of a fetch, skips only
/// rows that are not, and never gives one out before the minimum interval since the last fetch is over.
pub proof fn law_walk_goes_by_the_rules(
    v: ScannerView,
    tracks: Seq<TrackView>,
    total: Option<usize>,
    walk: ScanWalk,
    now: u64,
)
    requires
        tracks.len() <= usize::MAX,
    ensures
        v.ticked(tracks, total, walk, now).0 matches WalkActionView::Analyze(row, track, options) ==> {
            let from = v.followed(tracks, walk, now).cursor;
            &&& from <= row < tracks.len()
            &&& track == tracks[row as int]
            &&& v.wants(track)
            &&& options == v.cfg.fetch_options()
            &&& forall|i: int| from <= i < row ==> !v.wants(#[trigger] tracks[i])
            &&& walk.last_fetch matches Some(last) ==> elapsed(now, last) >= 1000 * value_or(
                v.cfg.bpm_scan_min_interval_secs,
                DEFAULT_BPM_SCAN_MIN_INTERVAL_SECS,
            )
        },
{
    let met = v.followed(tracks, walk, now);
    lemma_first_row(tracks, met.cursor as int, |t: TrackView| v.wants(t));
}

/// Between the end of one analysis and the start of the next at least the minimum interval passes,
/// however often the walk ticks, and without a rested selection the next row lies behind the last.
pub proof fn law_analyses_keep_their_distance(
    v: ScannerView,
    tracks: Seq<TrackView>,
    total: Option<usize>,
    walk: ScanWalk,
    row: usize,
    ended: u64,
    now: u64,
)
    requires
        row < usize::MAX,
        tracks.len() <= usize::MAX,
    ensures
        v.ticked(tracks, total, past_row(walk, row, ended), now).0 matches WalkActionView::Analyze(next, _, _) ==> {
            &&& elapsed(now, ended) >= 1000 * value_or(
                v.cfg.bpm_scan_min_interval_secs,
                DEFAULT_BPM_SCAN_MIN_INTERVAL_SECS,
            )
            &&& v.dwelled(now) is None ==> next > row
        },
        v.ticked(tracks, total, past_row(walk, row, ended), now).1.last_fetch == Some(ended),
{
    law_walk_goes_by_the_rules(v, tracks, total, past_row(walk, row, ended), now);
}

/// If a track from the cursor on is worth analysing, a tick that may act gives out a track.
pub proof fn law_walk_misses_no_track(
    v: ScannerView,
    tracks: Seq<TrackView>,
    total: Option<usize>,
    walk: ScanWalk,
    now: u64,
    row: int,
)
    requires
        v.enabled,
        ({
            let met = v.followed(tracks, walk, now);
            &&& met.cursor <= row < tracks.len()
            &&& v.wants(tracks[row])
            &&& !v.rate_limited(met, now)
            &&& met.backoff_until matches Some(until) ==> now >= until
        }),
    ensures
        v.ticked(tracks, total, walk, now).0 is Analyze,
{
    let met = v.followed(tracks, walk, now);
    let test = |t: TrackView| v.wants(t);
    lemma_first_row(tracks, met.cursor as int, test);
    if first_row(tracks, met.cursor as int, test) is None {
        assert(!test(tracks[row]));
    }
}

/// The cursor follows a selection that has been rested on for the delay, and no other.
pub proof fn law_cursor_follows_a_rested_selection(
    v: ScannerView,
    tracks: Seq<TrackView>,
    walk: ScanWalk,
    now: u64,
    row: int,
)
    requires
        0 <= row < tracks.len() <= usize::MAX,
        tracks[row].id is Some,
        forall|i: int| 0 <= i < row ==> (#[trigger] tracks[i]).id != tracks[row].id,
    ensures
        v.dwelled(now) == tracks[row].id ==> v.followed(tracks, walk, now).cursor == row,
        v.dwelled(now) is None ==> v.followed(tracks, walk, now) == walk,
{
    if v.dwelled(now) == tracks[row].id {
        let id = v.dwelled(now)->0;
        let test = |t: TrackView| t.id == Some(id);
        lemma_first_row(tracks, 0, test);
        assert(test(tracks[row]));
    }
}

/// A track whose BPM has been detected is never analysed again, and its BPM is the detected one.
pub proof fn law_detected_track_is_settled(v: ScannerView, track: TrackView, require_cached: bool, bpm: u32)
    requires
        track.id is Some,
    ensures
        ({
            let after = v.with_outcome(track.id->0, require_cached, BpmOutcome::Detected(bpm));
            &&& after.bpm[track.id->0] == bpm
            &&& after.settled(track.id->0)
            &&& !after.wants(track)
        }),
{
}

/// Every counted failure brings a track closer to being given up on, a cache miss does not, and
/// with the last attempt it is settled.
pub proof fn law_track_is_given_up_after_its_attempts(
    v: ScannerView,
    id: Seq<char>,
    require_cached: bool,
    outcome: BpmOutcome,
)
    requires
        v.wf(),
        !v.settled(id),
        !(outcome is Detected),
    ensures
        ({
            let after = v.with_outcome(id, require_cached, outcome);
            if outcome is Unavailable && require_cached {
                after == v
            } else {
                &&& failures_of(after, id) == failures_of(v, id) + 1
                &&& after.settled(id) == (failures_of(v, id) + 1 >= MAX_DETECT_ATTEMPTS)
            }
        }),
{
}

/// An outcome for one track changes nothing for another.
pub proof fn law_outcome_concerns_one_track(
    v: ScannerView,
    id: Seq<char>,
    other: Seq<char>,
    require_cached: bool,
    outcome: BpmOutcome,
)
    requires
        id != other,
    ensures
        ({
            let after = v.with_outcome(id, require_cached, outcome);
            &&& after.settled(other) == v.settled(other)
            &&& after.bpm.contains_key(other) == v.bpm.contains_key(other)
            &&& v.bpm.contains_key(other) ==> after.bpm[other] == v.bpm[other]
            &&& failures_of(after, other) == failures_of(v, other)
        }),
{
}

/// A complete library in which nothing is left to analyse is looked through twice, then left alone
/// for the long pause.
pub proof fn law_complete_library_is_left_alone(
    v: ScannerView,
    tracks: Seq<TrackView>,
    total: usize,
    walk: ScanWalk,
    now: u64,
    later: u64,
)
    requires
        v.enabled,
        v.focus is None,
        on_by_default(v.cfg.bpm_scan_full_library),
        tracks.len() >= total,
        forall|i: int| 0 <= i < tracks.len() ==> !v.wants(#[trigger] tracks[i]),
        now + IDLE_COMPLETE <= u64::MAX,
        now <= later < now + IDLE_COMPLETE,
        walk.idle_passes == 1,
        walk.last_fetch is None || !v.rate_limited(walk, now),
        walk.backoff_until is None,
    ensures
        ({
            let after = v.ticked(tracks, Some(total), walk, now).1;
            &&& v.ticked(tracks, Some(total), walk, now).0 is Nothing
            &&& after.cursor == 0
            &&& v.ticked(tracks, Some(total), after, later) == (WalkActionView::Nothing, after)
        }),
{
    lemma_first_row(tracks, walk.cursor as int, |t: TrackView| v.wants(t));
}

/// Whether the walk is on makes no difference to the playing track.
pub proof fn law_playing_track_ignores_the_switch(v: ScannerView, enabled: bool, now: u64)
    ensures
        (ScannerView { enabled, ..v }).playing_due(now) == v.playing_due(now),
        (ScannerView { enabled, ..v }).playing_done() == v.playing_done(),
{
}

/// After a look into the cache that found nothing, the next attempt on the same track is at least
/// the polling gap away.
pub proof fn law_playing_track_does_not_spin(v: ScannerView, now: u64, later: u64)
    requires
        v.playing is Some,
        now + PLAY_CACHE_POLL <= u64::MAX,
        later < now + PLAY_CACHE_POLL,
    ensures
        !v.after_attempt(v.playing->0.track.id, false, BpmOutcome::Unavailable, now).playing_due(later),
{
}

/// An attempt that settles the matter, or that comes after the grace period, is the last; an
/// attempt on a track that is not playing any more leaves the one that is alone.
pub proof fn law_playing_track_is_attempted_until_settled(
    v: ScannerView,
    id: Option<Seq<char>>,
    grace_elapsed: bool,
    outcome: BpmOutcome,
    now: u64,
)
    requires
        v.playing is Some,
    ensures
        ({
            let after = v.after_attempt(id, grace_elapsed, outcome, now);
            if v.playing->0.track.id != id {
                after == v
            } else {
                after.playing is None == (grace_elapsed || !(outcome is Unavailable))
            }
        }),
{
}

/// The waiting times, in milliseconds, and the other fixed numbers: a tick of 0.4 s, pauses of half a minute,
/// ten minutes and five seconds, 200 rows to a page request, two and a half minutes for playback to fill the
/// cache with a look every eight seconds, three attempts for a track, and defaults of one and 15 seconds.
pub proof fn law_fixed_times()
    ensures
        TICK == 400,
        IDLE == 30 * 1000,
        IDLE_COMPLETE == 10 * 60 * 1000,
        PAGE_LOAD_WAIT == 5 * 1000,
        PAGE == 200,
        PLAY_CACHE_GRACE == 150 * 1000,
        PLAY_CACHE_POLL == 8 * 1000,
        MAX_DETECT_ATTEMPTS == 3,
        DEFAULT_BPM_SCAN_DELAY_SECS == 1,
        DEFAULT_BPM_SCAN_MIN_INTERVAL_SECS == 15,
        DEFAULT_BITRATE == 320,
{
}

/// A track is wanted if and only if metadata enrichment is not switched off, it is no local file and has an
/// id, and under that id no BPM is known and fewer than three failures count.
pub proof fn law_tracks_are_wanted_until_settled(v: ScannerView, track: TrackView)
    ensures
        v.wants(track) <==> {
            &&& v.cfg.enrich_metadata != Some(false)
            &&& !track.is_local
            &&& track.id is Some
            &&& !v.bpm.contains_key(track.id->0)
            &&& v.failures.contains_key(track.id->0) ==> v.failures[track.id->0] < 3
        },
{
}

/// A switch that is written out as on works like one that is left out, for enrichment, for going through the
/// whole library, for fetching whole files and for starting with the walk on.
pub proof fn law_on_is_the_default(
    v: ScannerView,
    track: TrackView,
    tracks: Seq<TrackView>,
    total: Option<usize>,
    walk: ScanWalk,
    now: u64,
)
    ensures
        ({
            let on = ScannerConfig {
                enrich_metadata: Some(true),
                bpm_scan_enabled: Some(true),
                bpm_scan_full_library: Some(true),
                bpm_scan_cache_full: Some(true),
                ..v.cfg
            };
            let unset = ScannerConfig {
                enrich_metadata: None,
                bpm_scan_enabled: None,
                bpm_scan_full_library: None,
                bpm_scan_cache_full: None,
                ..v.cfg
            };
            let a = ScannerView { cfg: on, ..v };
            let b = ScannerView { cfg: unset, ..v };
            &&& a.wants(track) == b.wants(track)
            &&& a.ticked(tracks, total, walk, now) == b.ticked(tracks, total, walk, now)
            &&& on.fetch_options() == unset.fetch_options()
            &&& on_by_default(on.bpm_scan_enabled) && on_by_default(unset.bpm_scan_enabled)
            &&& !on_by_default(Some(false))
        }),
{
    let on = ScannerConfig {
        enrich_metadata: Some(true),
        bpm_scan_enabled: Some(true),
        bpm_scan_full_library: Some(true),
        bpm_scan_cache_full: Some(true),
        ..v.cfg
    };
    let unset = ScannerConfig {
        enrich_metadata: None,
        bpm_scan_enabled: None,
        bpm_scan_full_library: None,
        bpm_scan_cache_full: None,
        ..v.cfg
    };
    let a = ScannerView { cfg: on, ..v };
    let b = ScannerView { cfg: unset, ..v };
    assert((|t: TrackView| a.wants(t)) =~= (|t: TrackView| b.wants(t)));
}

/// A track is given up on with its third failure and not before; further ones change nothing, and its tempo,
/// once it is detected, settles it at once.
pub proof fn law_three_failures_settle_a_track(v: ScannerView, id: Seq<char>, outcome: BpmOutcome)
    requires
        !(outcome is Detected),
        !v.bpm.contains_key(id),
        !v.failures.contains_key(id),
    ensures
        v.settled(id) == false,
        ({
            let once = v.with_outcome(id, false, outcome);
            let twice = once.with_outcome(id, false, outcome);
            let thrice = twice.with_outcome(id, false, outcome);
            &&& !once.settled(id) && !twice.settled(id) && thrice.settled(id)
            &&& thrice.bpm == v.bpm
            &&& thrice.failures == v.failures.insert(id, 3)
            &&& thrice.with_outcome(id, false, outcome) == thrice
        }),
        forall|bpm: u32| (#[trigger] v.with_outcome(id, false, BpmOutcome::Detected(bpm))).settled(id),
{
    let once = v.with_outcome(id, false, outcome);
    let twice = once.with_outcome(id, false, outcome);
    let thrice = twice.with_outcome(id, false, outcome);
    assert(thrice.failures =~= v.failures.insert(id, 3));
    assert(thrice.with_outcome(id, false, outcome) =~= thrice);
}

/// What an outcome does: a BPM is kept and clears the failures of its track, anything else counts as one
/// failure more, up to three, unless only the cache was looked at and nothing was there. Nothing but the
/// tempos and the failures of that track changes.
pub proof fn law_outcomes_are_counted(v: ScannerView, id: Seq<char>, require_cached: bool, outcome: BpmOutcome)
    ensures
        ({
            let after = v.with_outcome(id, require_cached, outcome);
            let counts = outcome is Indeterminate || outcome is Unavailable && !require_cached;
            &&& after == (ScannerView { bpm: after.bpm, failures: after.failures, ..v })
            &&& outcome matches BpmOutcome::Detected(bpm) ==> after.bpm == v.bpm.insert(id, bpm) && after.failures
                == v.failures.remove(id)
            &&& !(outcome is Detected) ==> after.bpm == v.bpm
            &&& !(outcome is Detected) && !counts ==> after.failures == v.failures
            &&& !(outcome is Detected) && counts ==> {
                &&& after.failures.contains_key(id)
                &&& after.failures.remove(id) == v.failures.remove(id)
                &&& !v.failures.contains_key(id) ==> after.failures[id] == 1
                &&& v.failures.contains_key(id) && v.failures[id] < 3 ==> after.failures[id] == v.failures[id] + 1
                &&& v.failures.contains_key(id) && v.failures[id] >= 3 ==> after.failures[id] == 3
            }
        }),
{
    let after = v.with_outcome(id, require_cached, outcome);
    assert(after.failures.remove(id) =~= v.failures.remove(id));
}

/// Of several stored tempos of one track the last counts.
pub proof fn law_the_last_stored_tempo_counts(pairs: Seq<(String, u32)>, i: int)
    requires
        0 <= i < pairs.len(),
        forall|j: int| i < j < pairs.len() ==> (#[trigger] pairs[j]).0@ != pairs[i].0@,
    ensures
        tempos_of(pairs).contains_pair(pairs[i].0@, pairs[i].1),
    decreases pairs.len(),
{
    let head = pairs.drop_last();
    let last = pairs.len() - 1;
    if i < last {
        assert(pairs[last].0@ != pairs[i].0@);
        assert forall|j: int| i < j < head.len() implies (#[trigger] head[j]).0@ != head[i].0@ by {
            assert(head[j] == pairs[j]);
        }
        law_the_last_stored_tempo_counts(head, i);
    }
}

/// A tempo is known at the start only if it was stored.
pub proof fn law_known_tempos_were_stored(pairs: Seq<(String, u32)>, id: Seq<char>)
    requires
        tempos_of(pairs).contains_key(id),
    ensures
        exists|i: int| 0 <= i < pairs.len() && (#[trigger] pairs[i]).0@ == id,
    decreases pairs.len(),
{
    let head = pairs.drop_last();
    let last = pairs.len() - 1;
    if pairs[last].0@ != id {
        law_known_tempos_were_stored(head, id);
        let i = choose|i: int| 0 <= i < head.len() && (#[trigger] head[i]).0@ == id;
        assert(pairs[i].0@ == id);
    }
}

/// A fetch takes the whole file at the configured bitrate, 320 if none is configured, unless whole files are
/// switched off: then it takes what it needs of the smallest. It is never for the cache alone.
pub proof fn law_fetches_take_the_whole_file(cfg: ScannerConfig)
    ensures
        !cfg.fetch_options().require_cached,
        cfg.fetch_options().cache_full <==> cfg.bpm_scan_cache_full != Some(false),
        cfg.fetch_options().bitrate == (if cfg.bpm_scan_cache_full == Some(false) {
            None
        } else if cfg.bitrate is Some {
            cfg.bitrate
        } else {
            Some(320u32)
        }),
{
}

/// The selection rests on a row from when it came to it: seeing it there again does not start its time anew,
/// another row does, and a track without an id changes nothing; nor does anything but the selection change.
pub proof fn law_selection_rests_from_its_start(v: ScannerView, a: TrackView, b: TrackView, then: u64, now: u64)
    ensures
        v.selected(a, then).selected(a, now) == v.selected(a, then),
        a.id is None ==> v.selected(a, then) == v,
        a.id is Some && v.focus is None ==> v.selected(a, then).focus == Some((a.id->0, then)),
        a.id is Some && b.id is Some && a.id != b.id ==> v.selected(a, then).selected(b, now).focus == Some(
            (b.id->0, now),
        ),
        v.selected(a, then) == (ScannerView { focus: v.selected(a, then).focus, ..v }),
{
}

/// The cursor is sent to a row once the selection has rested on it for the configured seconds, one if none
/// are configured, and not before; a clock that seems to go back counts as no time.
pub proof fn law_selection_has_to_rest(v: ScannerView, id: Seq<char>, since: u64, now: u64)
    requires
        v.focus == Some((id, since)),
    ensures
        ({
            let delay: int = match v.cfg.bpm_scan_delay_secs {
                Some(secs) => secs as int,
                None => 1,
            };
            &&& now >= since ==> (v.dwelled(now) == Some(id) <==> now - since >= 1000 * delay)
            &&& now < since ==> (v.dwelled(now) == Some(id) <==> delay == 0)
            &&& v.dwelled(now) is Some ==> v.dwelled(now) == Some(id)
            &&& (ScannerView { focus: None, ..v }).dwelled(now) is None
        }),
{
}

/// A walk follows a selection that has rested to the first row with its id, forgetting its pause and its empty
/// passes but not its last fetch; it stays where it is if no row has the id or nothing has rested.
pub proof fn law_walk_follows_to_the_first_row(v: ScannerView, tracks: Seq<TrackView>, walk: ScanWalk, now: u64)
    requires
        tracks.len() <= usize::MAX,
    ensures
        ({
            let met = v.followed(tracks, walk, now);
            &&& v.dwelled(now) is None ==> met == walk
            &&& v.dwelled(now) matches Some(id) ==> if forall|i: int|
                0 <= i < tracks.len() ==> (#[trigger] tracks[i]).id != Some(id) {
                met == walk
            } else {
                &&& met.cursor < tracks.len()
                &&& tracks[met.cursor as int].id == Some(id)
                &&& forall|i: int| 0 <= i < met.cursor ==> (#[trigger] tracks[i]).id != Some(id)
                &&& met.last_fetch == walk.last_fetch
                &&& met.backoff_until is None
                &&& met.idle_passes == 0
            }
        }),
{
    if v.dwelled(now) is Some {
        let id = v.dwelled(now)->0;
        let test = |t: TrackView| t.id == Some(id);
        lemma_first_row(tracks, 0, test);
        match first_row(tracks, 0, test) {
            Some(row) => {
                assert(test(tracks[row]));
                assert forall|i: int| 0 <= i < row implies (#[trigger] tracks[i]).id != Some(id) by {
                    assert(!test(tracks[i]));
                }
            },
            None => {
                assert forall|i: int| 0 <= i < tracks.len() implies (#[trigger] tracks[i]).id != Some(id) by {
                    assert(!test(tracks[i]));
                }
            },
        }
    }
}

/// What a tick of a walk that is on does, told step by step. Before the configured seconds since the last
/// fetch, 15 if none are configured, or before the end of a pause it only follows the selection. Otherwise it
/// gives out the first wanted row from the cursor on, if there is one. If not, it pauses for half a minute
/// where it is not to go through the whole library, starts over where the library is complete, with a pause
/// of ten minutes from the second time on, and else asks for 200 rows more and pauses for five seconds.
pub proof fn law_tick_by_tick(
    v: ScannerView,
    tracks: Seq<TrackView>,
    total: Option<usize>,
    walk: ScanWalk,
    now: u64,
)
    requires
        v.enabled,
        tracks.len() + 200 <= usize::MAX,
        now + 600_000 <= u64::MAX,
        walk.idle_passes < u32::MAX,
    ensures
        ({
            let met = v.followed(tracks, walk, now);
            let (action, after) = v.ticked(tracks, total, walk, now);
            let interval: int = match v.cfg.bpm_scan_min_interval_secs {
                Some(secs) => secs as int,
                None => 15,
            };
            let limited = met.last_fetch matches Some(last) && if now >= last {
                now - last < 1000 * interval
            } else {
                interval > 0
            };
            let paused = met.backoff_until matches Some(until) && now < until;
            if limited || paused {
                action == WalkActionView::Nothing && after == met
            } else if exists|i: int| met.cursor <= i < tracks.len() && v.wants(#[trigger] tracks[i]) {
                &&& action matches WalkActionView::Analyze(row, track, options)
                &&& met.cursor <= row < tracks.len()
                &&& v.wants(tracks[row as int])
                &&& forall|i: int| met.cursor <= i < row ==> !v.wants(#[trigger] tracks[i])
                &&& track == tracks[row as int]
                &&& options == v.cfg.fetch_options()
                &&& after == (ScanWalk { backoff_until: None, ..met })
            } else if v.cfg.bpm_scan_full_library == Some(false) {
                &&& action == WalkActionView::Nothing
                &&& after == (ScanWalk { backoff_until: Some((now + 30_000) as u64), ..met })
            } else if total is Some && total->0 <= tracks.len() {
                &&& action == WalkActionView::Nothing
                &&& after.cursor == 0
                &&& after.last_fetch == met.last_fetch
                &&& after.idle_passes == met.idle_passes + 1
                &&& met.idle_passes == 0 ==> after.backoff_until is None
                &&& met.idle_passes > 0 ==> after.backoff_until == Some((now + 600_000) as u64)
            } else {
                &&& action == WalkActionView::LoadThrough((tracks.len() + 200) as usize)
                &&& after == (ScanWalk { backoff_until: Some((now + 5_000) as u64), ..met })
            }
        }),
{
    let met = v.followed(tracks, walk, now);
    let test = |t: TrackView| v.wants(t);
    lemma_first_row(tracks, met.cursor as int, test);
    match first_row(tracks, met.cursor as int, test) {
        Some(row) => {
            assert(test(tracks[row]));
            assert(v.wants(tracks[row]));
            assert forall|i: int| met.cursor <= i < row implies !v.wants(#[trigger] tracks[i]) by {
                assert(!test(tracks[i]));
            }
        },
        None => {
            assert forall|i: int| met.cursor <= i < tracks.len() implies !v.wants(#[trigger] tracks[i]) by {
                assert(!test(tracks[i]));
            }
        },
    }
}

/// Once a row has been analysed the walk stands right behind it, has just fetched, and has no empty pass
/// behind it; its pause is as it was.
pub proof fn law_walk_goes_on_behind_the_row(walk: ScanWalk, row: usize, now: u64)
    requires
        row < usize::MAX,
    ensures
        past_row(walk, row, now).cursor == row + 1,
        past_row(walk, row, now).last_fetch == Some(now),
        past_row(walk, row, now).idle_passes == 0,
        past_row(walk, row, now).backoff_until == walk.backoff_until,
{
}

/// The playing track is done with if and only if there is one and it has no id, a known BPM or three failures;
/// one that is not done with is due from the time on that its last look into the cache set.
pub proof fn law_playing_track_is_due_until_done(v: ScannerView, now: u64)
    ensures
        v.playing is None ==> !v.playing_done() && !v.playing_due(now),
        v.playing matches Some(p) ==> {
            let done = p.track.id is None || v.bpm.contains_key(p.track.id->0) || v.failures.contains_key(
                p.track.id->0,
            ) && v.failures[p.track.id->0] >= 3;
            &&& v.playing_done() == done
            &&& v.playing_due(now) == (!done && now >= p.retry_after)
        },
{
}

/// What an attempt on the playing track leaves: the same track to be looked at again after eight seconds if
/// nothing was available within the time for playback to fill the cache, and else no track; another track that
/// is playing by then, and everything else, stays as it is.
pub proof fn law_attempts_on_the_playing_track(
    v: ScannerView,
    id: Option<Seq<char>>,
    grace_elapsed: bool,
    outcome: BpmOutcome,
    now: u64,
)
    requires
        now + 8_000 <= u64::MAX,
    ensures
        ({
            let after = v.after_attempt(id, grace_elapsed, outcome, now);
            &&& after == (ScannerView { playing: after.playing, ..v })
            &&& v.playing is None ==> after.playing is None
            &&& v.playing matches Some(p) ==> if p.track.id != id {
                after.playing == Some(p)
            } else if outcome == BpmOutcome::Unavailable && !grace_elapsed {
                &&& after.playing matches Some(q)
                &&& q.track == p.track
                &&& q.since == p.since
                &&& q.retry_after == now + 8_000
            } else {
                after.playing is None
            }
        }),
{
}

// --- Laws of the operations ------------------------------------------------------------------

/// [`BpmScanner::wants_bpm_scan`] is true if and only if enrichment is not switched off, the track is no local file
/// and has an id, no BPM is known under it, and fewer than three failures count against it.
pub proof fn law_wants_bpm_scan(scanner: &BpmScanner, track: &Track, r: bool)
    requires
        call_ensures(BpmScanner::wants_bpm_scan, (scanner, track), r),
    ensures
        r <==> {
            &&& scanner@.cfg.enrich_metadata != Some(false)
            &&& !track.is_local
            &&& track.id is Some
            &&& !scanner@.bpm.contains_key(track.id->0@)
            &&& scanner@.failures.contains_key(track.id->0@) ==> scanner@.failures[track.id->0@] < 3
        },
{
    law_tracks_are_wanted_until_settled(scanner@, track@);
}

/// [`BpmScanner::new`] knows the stored tempos and nothing else, and the walk is on unless the configuration says
/// otherwise; [`BpmScanner::toggle_enabled`] switches it, and twice leaves it as it was.
pub proof fn law_switch(
    cfg: ScannerConfig,
    stored: &Vec<(String, u32)>,
    made: BpmScanner,
    once: &mut BpmScanner,
    first: bool,
    twice: &mut BpmScanner,
    second: bool,
)
    requires
        call_ensures(BpmScanner::new, (cfg, stored), made),
        *old(once) == made,
        call_ensures(BpmScanner::toggle_enabled, (once,), first),
        *old(twice) == *final(once),
        call_ensures(BpmScanner::toggle_enabled, (twice,), second),
    ensures
        made@.enabled <==> cfg.bpm_scan_enabled != Some(false),
        made@.playing is None && made@.focus is None && made@.cfg == cfg,
        forall|id: Seq<char>| !#[trigger] made@.failures.contains_key(id),
        forall|id: Seq<char>| #[trigger]
            made@.bpm.contains_key(id) ==> exists|i: int| 0 <= i < stored@.len() && (#[trigger] stored@[i]).0@ == id,
        first == !made@.enabled,
        second == made@.enabled,
        final(twice)@ == made@,
{
    assert forall|id: Seq<char>| #[trigger] made@.bpm.contains_key(id) implies exists|i: int|
        0 <= i < stored@.len() && (#[trigger] stored@[i]).0@ == id by {
        law_known_tempos_were_stored(stored@, id);
    }
}

/// A BPM that [`BpmScanner::analyzed`] took note of is the one that [`BpmScanner::bpm_for`] gives from then on, for
/// that track and no other; it is handed back to be stored, and [`BpmScanner::analyze`] gives it without looking at
/// the audio again.
pub proof fn law_detected_bpm_is_given_back(
    scanner: &mut BpmScanner,
    id: &String,
    require_cached: bool,
    bpm: u32,
    stored: Option<u32>,
    other: &String,
    known: Option<u32>,
    before: Option<u32>,
    track: &Track,
    has_session: bool,
    step: AnalyzeStep,
)
    requires
        call_ensures(BpmScanner::analyzed, (scanner, id, require_cached, BpmOutcome::Detected(bpm)), stored),
        call_ensures(BpmScanner::bpm_for, (&*final(scanner), other), known),
        call_ensures(BpmScanner::bpm_for, (&*old(scanner), other), before),
        call_ensures(BpmScanner::analyze, (&*final(scanner), track, has_session), step),
        track.id is Some,
    ensures
        stored == Some(bpm),
        other@ == id@ ==> known == Some(bpm),
        other@ != id@ ==> known == before,
        track.id->0@ == id@ ==> step == AnalyzeStep::Known(BpmOutcome::Detected(bpm)),
{
}

/// [`BpmScanner::analyzed`] hands nothing back without a BPM, and counts one failure of the track, up to three,
/// unless only the cache was looked at and nothing was there; other tracks keep their counts.
pub proof fn law_analyzed_counts_failures(
    scanner: &mut BpmScanner,
    id: &String,
    require_cached: bool,
    outcome: BpmOutcome,
    r: Option<u32>,
)
    requires
        call_ensures(BpmScanner::analyzed, (scanner, id, require_cached, outcome), r),
        !(outcome is Detected),
    ensures
        r is None,
        final(scanner)@.bpm == old(scanner)@.bpm,
        ({
            let before = old(scanner)@.failures;
            let after = final(scanner)@.failures;
            let counts = outcome is Indeterminate || !require_cached;
            &&& !counts ==> after == before
            &&& counts ==> after.contains_key(id@) && after.remove(id@) == before.remove(id@)
            &&& counts && !before.contains_key(id@) ==> after[id@] == 1
            &&& counts && before.contains_key(id@) && before[id@] < 3 ==> after[id@] == before[id@] + 1
            &&& counts && before.contains_key(id@) && before[id@] >= 3 ==> after[id@] == 3
        }),
{
    law_outcomes_are_counted(old(scanner)@, id@, require_cached, outcome);
}

/// [`BpmScanner::analyze`] looks at the audio if and only if the track has an id, no BPM is known under it, fewer
/// than three failures count, and there is a session; a track that was given up on is indeterminate, and one
/// without an id or a session unavailable.
pub proof fn law_analyze(scanner: &BpmScanner, track: &Track, has_session: bool, r: AnalyzeStep)
    requires
        call_ensures(BpmScanner::analyze, (scanner, track, has_session), r),
    ensures
        ({
            let known = track.id is Some && scanner@.bpm.contains_key(track.id->0@);
            let given_up = track.id is Some && scanner@.failures.contains_key(track.id->0@)
                && scanner@.failures[track.id->0@] >= 3;
            &&& r == AnalyzeStep::Detect <==> track.id is Some && !known && !given_up && has_session
            &&& known ==> r == AnalyzeStep::Known(BpmOutcome::Detected(scanner@.bpm[track.id->0@]))
            &&& !known && given_up ==> r == AnalyzeStep::Known(BpmOutcome::Indeterminate)
            &&& !known && !given_up && (track.id is None || !has_session) ==> r == AnalyzeStep::Known(
                BpmOutcome::Unavailable,
            )
        }),
{
}

/// The row that [`BpmScanner::note_track_selection`] was told of is what [`BpmScanner::take_dwelled_focus`] gives once
/// the configured seconds are over since it was first told, one if none are configured; it gives it once.
pub proof fn law_selection_is_taken_once(
    told: &mut BpmScanner,
    track: &Track,
    then: u64,
    taken: &mut BpmScanner,
    now: u64,
    r: Option<String>,
    again: &mut BpmScanner,
    later: u64,
    s: Option<String>,
)
    requires
        call_ensures(BpmScanner::note_track_selection, (told, track, then), ()),
        *old(taken) == *final(told),
        call_ensures(BpmScanner::take_dwelled_focus, (taken, now), r),
        *old(again) == *final(taken),
        call_ensures(BpmScanner::take_dwelled_focus, (again, later), s),
        old(told)@.focus is None,
        track.id is Some,
        then <= now,
    ensures
        ({
            let delay: int = match old(told)@.cfg.bpm_scan_delay_secs {
                Some(secs) => secs as int,
                None => 1,
            };
            &&& r is Some <==> now - then >= 1000 * delay
            &&& r is Some ==> r->0@ == track.id->0@
            &&& r is Some ==> s is None
        }),
{
    law_selection_has_to_rest(final(told)@, track.id->0@, then, now);
}

/// [`BpmScanner::run`] does nothing, and follows no selection, while the walk is off; while it is on, it gives out
/// the first wanted row from the cursor on, with the options of a fetch, unless 15 seconds, or as many as are
/// configured, have not passed since the last fetch or a pause is not over, and never another row.
pub proof fn law_run_gives_out_the_next_wanted_row(
    scanner: &mut BpmScanner,
    liked: &LikedSongs,
    walk: &mut ScanWalk,
    now: u64,
    r: WalkAction,
)
    requires
        call_ensures(BpmScanner::run, (scanner, liked, walk, now), r),
        now + 600_000 <= u64::MAX,
        liked@.tracks.len() + 200 <= usize::MAX,
        old(walk).idle_passes < u32::MAX,
        old(scanner)@.dwelled(now) is None,
    ensures
        ({
            let v = old(scanner)@;
            let tracks = liked@.tracks;
            let before = *old(walk);
            let interval: int = match v.cfg.bpm_scan_min_interval_secs {
                Some(secs) => secs as int,
                None => 15,
            };
            let limited = before.last_fetch matches Some(last) && if now >= last {
                now - last < 1000 * interval
            } else {
                interval > 0
            };
            let paused = before.backoff_until matches Some(until) && now < until;
            let acts = v.enabled && !limited && !paused;
            let left = exists|i: int| before.cursor <= i < tracks.len() && v.wants(#[trigger] tracks[i]);
            &&& !acts ==> r is Nothing && *final(walk) == before
            &&& r is Analyze <==> acts && left
            &&& r matches WalkAction::Analyze(row, track, options) ==> {
                &&& before.cursor <= row < tracks.len()
                &&& track@ == tracks[row as int]
                &&& v.wants(tracks[row as int])
                &&& forall|i: int| before.cursor <= i < row ==> !v.wants(#[trigger] tracks[i])
                &&& !options.require_cached
                &&& options.cache_full <==> v.cfg.bpm_scan_cache_full != Some(false)
            }
            &&& r is LoadThrough <==> acts && !left && v.cfg.bpm_scan_full_library != Some(false) && (
            liked@.meta.total is None || tracks.len() < liked@.meta.total->0)
            &&& r matches WalkAction::LoadThrough(row) ==> row == tracks.len() + 200 && final(walk).backoff_until == Some(
                (now + 5_000) as u64,
            )
            &&& acts && !left && v.cfg.bpm_scan_full_library == Some(false) ==> final(walk).backoff_until == Some(
                (now + 30_000) as u64,
            ) && final(walk).cursor == before.cursor
            &&& acts && !left && r is Nothing && v.cfg.bpm_scan_full_library != Some(false) ==> {
                &&& final(walk).cursor == 0
                &&& final(walk).idle_passes == before.idle_passes + 1
                &&& final(walk).backoff_until == (if before.idle_passes == 0 {
                    None
                } else {
                    Some((now + 600_000) as u64)
                })
            }
            &&& final(scanner)@ == v
        }),
{
    let v = old(scanner)@;
    if v.enabled {
        law_tick_by_tick(v, liked@.tracks, liked@.meta.total, *old(walk), now);
        law_walk_follows_to_the_first_row(v, liked@.tracks, *old(walk), now);
        law_fetches_take_the_whole_file(v.cfg);
    }
}

/// Once a row that [`BpmScanner::run`] gave out is reported by [`BpmScanner::walk_analyzed`], the walk stands right
/// behind it and the time to the next fetch runs from there.
pub proof fn law_walk_analyzed(walk: &mut ScanWalk, row: usize, now: u64)
    requires
        call_ensures(BpmScanner::walk_analyzed, (walk, row, now), ()),
        row < usize::MAX,
    ensures
        final(walk).cursor == row + 1,
        final(walk).last_fetch == Some(now),
        final(walk).idle_passes == 0,
        final(walk).backoff_until == old(walk).backoff_until,
{
}

/// A track that [`BpmScanner::note_track_played`] was told of, if it is wanted, is what
/// [`BpmScanner::handle_playing`] asks to be analysed at once: from the cache alone for 150 seconds, by a fetch if
/// need be after that.
pub proof fn law_played_track_is_attempted(
    told: &mut BpmScanner,
    track: &Track,
    then: u64,
    asked: &mut BpmScanner,
    now: u64,
    r: PlayingStep,
)
    requires
        call_ensures(BpmScanner::note_track_played, (told, track, then), ()),
        *old(asked) == *final(told),
        call_ensures(BpmScanner::handle_playing, (asked, now), r),
        old(told)@.wants(track@),
        then <= now,
    ensures
        r is Attempt,
        r->Attempt_0.track@ == track@,
        r->Attempt_0.grace_elapsed <==> now - then >= 150_000,
        r->Attempt_0.options.require_cached == !r->Attempt_0.grace_elapsed,
        r->Attempt_0.options.cache_full <==> old(told)@.cfg.bpm_scan_cache_full != Some(false),
        final(asked)@ == old(asked)@,
{
    law_fetches_take_the_whole_file(old(told)@.cfg);
}

/// A track that is not wanted is not noted as played, and the one noted before stays.
pub proof fn law_unwanted_track_is_not_noted(told: &mut BpmScanner, track: &Track, then: u64)
    requires
        call_ensures(BpmScanner::note_track_played, (told, track, then), ()),
        !old(told)@.wants(track@),
    ensures
        final(told)@ == old(told)@,
{
}

/// [`BpmScanner::handle_playing`] leaves the tick to the walk if nothing is playing or the next look is not due, and
/// drops a track that has no id, a known BPM or three failures.
pub proof fn law_handle_playing(scanner: &mut BpmScanner, now: u64, r: PlayingStep)
    requires
        call_ensures(BpmScanner::handle_playing, (scanner, now), r),
    ensures
        old(scanner)@.playing is None ==> r is Walk && final(scanner)@ == old(scanner)@,
        old(scanner)@.playing matches Some(p) ==> {
            let v = old(scanner)@;
            let done = p.track.id is None || v.bpm.contains_key(p.track.id->0) || v.failures.contains_key(
                p.track.id->0,
            ) && v.failures[p.track.id->0] >= 3;
            &&& r is Dropped <==> done
            &&& r is Attempt <==> !done && now >= p.retry_after
            &&& r is Dropped ==> final(scanner)@ == (ScannerView { playing: None, ..v })
            &&& !(r is Dropped) ==> final(scanner)@ == v
        },
{
    law_playing_track_is_due_until_done(old(scanner)@, now);
}

/// [`BpmScanner::playing_analyzed`] has the same track looked at again after eight seconds if nothing was available
/// before the grace period was over, and forgets it otherwise; another track that is playing by then stays.
pub proof fn law_playing_analyzed(scanner: &mut BpmScanner, attempt: &PlayingAttempt, outcome: BpmOutcome, now: u64)
    requires
        call_ensures(BpmScanner::playing_analyzed, (scanner, attempt, outcome, now), ()),
        old(scanner)@.playing is Some,
        now + 8_000 <= u64::MAX,
    ensures
        ({
            let p = old(scanner)@.playing->0;
            let after = final(scanner)@;
            &&& p.track.id != attempt.track@.id ==> after == old(scanner)@
            &&& p.track.id == attempt.track@.id && outcome is Unavailable && !attempt.grace_elapsed ==> {
                &&& after.playing matches Some(q)
                &&& q.track == p.track
                &&& q.since == p.since
                &&& q.retry_after == now + 8_000
            }
            &&& p.track.id == attempt.track@.id && (!(outcome is Unavailable) || attempt.grace_elapsed)
                ==> after.playing is None
            &&& after.bpm == old(scanner)@.bpm && after.failures == old(scanner)@.failures
        }),
{
    law_attempts_on_the_playing_track(
        old(scanner)@,
        attempt.track@.id,
        attempt.grace_elapsed,
        outcome,
        now,
    );
}

/// [`BpmScanner::settled`] tells whether a BPM is known or three failures count, and [`BpmScanner::cdn_scan_options`]
/// asks for the whole file at the configured bitrate, or 320, unless that is switched off.
pub proof fn law_settled_and_options(scanner: &BpmScanner, id: &String, r: bool, options: ScanOptions)
    requires
        call_ensures(BpmScanner::settled, (scanner, id), r),
        call_ensures(BpmScanner::cdn_scan_options, (scanner,), options),
    ensures
        r <==> scanner@.bpm.contains_key(id@) || scanner@.failures.contains_key(id@) && scanner@.failures[id@] >= 3,
        !options.require_cached,
        options.cache_full <==> scanner@.cfg.bpm_scan_cache_full != Some(false),
        options.bitrate is Some <==> options.cache_full,
        options.cache_full && scanner@.cfg.bitrate is Some ==> options.bitrate == scanner@.cfg.bitrate,
        options.cache_full && scanner@.cfg.bitrate is None ==> options.bitrate == Some(320u32),
{
    law_fetches_take_the_whole_file(scanner@.cfg);
}

/// A scanner that [`BpmScanner::disconnected`] made is on and knows no tempo and no failure, [`BpmScanner::set_config`]
/// changes nothing but the configuration, and [`BpmScanner::is_enabled`] tells what [`BpmScanner::toggle_enabled`] did.
pub proof fn law_disconnected_and_configured(
    cfg: ScannerConfig,
    made: BpmScanner,
    on: bool,
    id: &String,
    known: Option<u32>,
    given: ScannerConfig,
    configured: &mut BpmScanner,
    scanner: &mut BpmScanner,
    switched: bool,
    now_on: bool,
)
    requires
        call_ensures(BpmScanner::disconnected, (cfg,), made),
        call_ensures(BpmScanner::is_enabled, (&made,), on),
        call_ensures(BpmScanner::bpm_for, (&made, id), known),
        call_ensures(BpmScanner::set_config, (configured, given), ()),
        call_ensures(BpmScanner::toggle_enabled, (scanner,), switched),
        call_ensures(BpmScanner::is_enabled, (&*final(scanner),), now_on),
    ensures
        on && known is None && made@.cfg == cfg && made@.wf(),
        made@.playing is None && made@.focus is None && !made@.failures.contains_key(id@),
        final(configured)@.cfg == given,
        final(configured)@.bpm == old(configured)@.bpm && final(configured)@.failures == old(configured)@.failures,
        final(configured)@.playing == old(configured)@.playing && final(configured)@.focus == old(configured)@.focus,
        final(configured)@.enabled == old(configured)@.enabled,
        now_on == switched && now_on == !old(scanner)@.enabled,
{
}

} // verus!
