//! The decisions of offline BPM detection: which audio file of a track to analyse, how its stream
//! is cut into frames, bands and windows, and how the windows' estimates become one tempo. The
//! signal arithmetic in between works on samples and is the caller's.

use vstd::prelude::*;

use crate::model::Track;

verus! {

/// The real Vorbis data of a stream starts here, behind the service's own header.
pub const SPOTIFY_OGG_HEADER_END: u64 = 0xa7;

/// Samples per second of every stream.
pub const SAMPLE_RATE: usize = 44_100;

/// How many samples, from the start of the track, to analyse: one minute.
pub const ANALYSIS_SAMPLES: usize = 2_646_000;

/// Length and hop of the short-time spectra behind the onset envelope, in samples.
pub const FFT_SIZE: usize = 2048;

pub const HOP: usize = 512;

/// Number of frequency bins of one spectrum.
pub const BINS: usize = 1025;

/// Number of logarithmically spaced frequency bands the spectral flux is split into.
pub const BANDS: usize = 8;

/// Radius, in bins, of the max-filter applied to the reference frame.
pub const MAX_FILTER_RADIUS: usize = 3;

/// The shortest and the longest lag of the tempo search, in hops: 200 and 60 BPM.
pub const MIN_LAG: usize = 25;

pub const MAX_LAG: usize = 87;

/// Length and hop of the windows the tempo is estimated on, in hops: eight and four seconds.
pub const WINDOW: usize = 689;

pub const WINDOW_HOP: usize = 344;

/// Half width of the moving average that is taken off the onset envelope, in hops.
pub const TREND_RADIUS: usize = 43;

/// How many harmonics of a candidate period the comb filter sums over.
pub const COMB_HARMONICS: usize = 4;

/// The tempo that ties are broken towards.
pub const TIE_BPM: i32 = 120;

/// The result of an attempt to detect a BPM.
#[derive(Clone, Copy, Debug, PartialEq, Eq, Structural)]
pub enum BpmOutcome {
    /// A confident estimate, as the bits of an IEEE 754 single-precision number.
    Detected(u32),
    /// The audio was fetched and analysed but no plausible tempo came out. Running the same
    /// analysis again will not help.
    Indeterminate,
    /// The audio could not be obtained or decoded. Worth another try once the cache has filled or
    /// the rate limit has passed.
    Unavailable,
}

/// How the audio of a track is to be obtained.
#[derive(Clone, Copy, Debug, PartialEq, Eq, Structural)]
pub struct ScanOptions {
    /// Only read from the audio cache, never fetch.
    pub require_cached: bool,
    /// The bitrate to fetch, if not the smallest.
    pub bitrate: Option<u32>,
    /// Whether to fetch the whole file, so that it is cached for playback.
    pub cache_full: bool,
}

impl Default for ScanOptions {
    fn default() -> (r: Self)
        ensures
            r == (ScanOptions { require_cached: false, bitrate: None, cache_full: false }),
    {
        ScanOptions { require_cached: false, bitrate: None, cache_full: false }
    }
}

// --- A detection from start to end -----------------------------------------------------------

/// What a URI of the service names, with its id where it has one.
#[derive(Clone, Copy, Debug, PartialEq, Eq, Structural)]
pub enum ItemUri {
    Album(u128),
    Artist(u128),
    Episode(u128),
    Playlist(u128),
    Show(u128),
    Track(u128),
    Local,
    Unknown,
}

/// How a detection starts.
#[derive(Clone, Copy, Debug, PartialEq, Eq, Structural)]
pub enum DetectStep {
    /// There is nothing to look at.
    Known(BpmOutcome),
    /// Open the audio of the item (see [`find_available`] and [`choose_format`]), then see
    /// [`detection_ended`]. The key to the audio is asked for under this id even where an alternative
    /// of the item is used.
    OpenAudio(ItemUri, u128),
}

/// How far a detection got.
#[derive(Clone, Copy, Debug, PartialEq, Eq, Structural)]
pub enum DetectEnd {
    /// The audio could not be opened.
    NoStream,
    /// The part behind the service's header could not be reached.
    NoPart,
    /// The audio could not be decoded, or is too short.
    NoAudio,
    /// The analysis ran, with this estimate.
    Analyzed(Option<u32>),
}

/// What `librespot_core` reads from the text of a URI, `None` for a text that is no URI of the service.
pub uninterp spec fn parsed_uri(uri: Seq<char>) -> Option<ItemUri>;

/// `librespot_core::SpotifyUri::from_uri`: what it returns is named, not described, by [`parsed_uri`].
#[verifier::external_body]
fn parse_uri(uri: &str) -> (r: Option<ItemUri>)
    ensures
        r == parsed_uri(uri@),
{
    match librespot_core::SpotifyUri::from_uri(uri).ok()? {
        librespot_core::SpotifyUri::Album { id } => Some(ItemUri::Album(id.id)),
        librespot_core::SpotifyUri::Artist { id } => Some(ItemUri::Artist(id.id)),
        librespot_core::SpotifyUri::Episode { id } => Some(ItemUri::Episode(id.id)),
        librespot_core::SpotifyUri::Playlist { id, .. } => Some(ItemUri::Playlist(id.id)),
        librespot_core::SpotifyUri::Show { id } => Some(ItemUri::Show(id.id)),
        librespot_core::SpotifyUri::Track { id } => Some(ItemUri::Track(id.id)),
        librespot_core::SpotifyUri::Local { .. } => Some(ItemUri::Local),
        librespot_core::SpotifyUri::Unknown { .. } => Some(ItemUri::Unknown),
    }
}

impl ItemUri {
    /// The id, which everything but a local file and what is unknown has.
    pub open spec fn id_of(self) -> Option<u128> {
        match self {
            ItemUri::Album(id) => Some(id),
            ItemUri::Artist(id) => Some(id),
            ItemUri::Episode(id) => Some(id),
            ItemUri::Playlist(id) => Some(id),
            ItemUri::Show(id) => Some(id),
            ItemUri::Track(id) => Some(id),
            ItemUri::Local => None,
            ItemUri::Unknown => None,
        }
    }

    /// The id, which everything but a local file and what is unknown has.
    pub fn id(self) -> (r: Option<u128>)
        ensures
            r == self.id_of(),
    {
        match self {
            ItemUri::Album(id) => Some(id),
            ItemUri::Artist(id) => Some(id),
            ItemUri::Episode(id) => Some(id),
            ItemUri::Playlist(id) => Some(id),
            ItemUri::Show(id) => Some(id),
            ItemUri::Track(id) => Some(id),
            ItemUri::Local => None,
            ItemUri::Unknown => None,
        }
    }
}

/// Start to detect the BPM of a track from its audio. Without a runtime to fetch with, nothing can
/// be obtained.
pub fn detect_bpm(track: &Track, has_runtime: bool) -> (r: DetectStep)
    ensures
        r == begun(parsed_uri(track@.uri), has_runtime),
{
    begin_detection(parse_uri(track.uri.as_str()), has_runtime)
}

/// The start of the detection for what the track's URI names.
pub open spec fn begun(item: Option<ItemUri>, has_runtime: bool) -> DetectStep {
    if item is Some && item->0.id_of() is Some && has_runtime {
        DetectStep::OpenAudio(item->0, item->0.id_of()->0)
    } else {
        DetectStep::Known(BpmOutcome::Unavailable)
    }
}

/// Start the detection for what the track's URI names, if it is a URI and names something with an id.
pub fn begin_detection(item: Option<ItemUri>, has_runtime: bool) -> (r: DetectStep)
    ensures
        r == begun(item, has_runtime),
{
    let id = match item {
        Some(uri) => uri.id(),
        None => None,
    };
    match (item, id) {
        (Some(uri), Some(id)) => if has_runtime {
            DetectStep::OpenAudio(uri, id)
        } else {
            DetectStep::Known(BpmOutcome::Unavailable)
        },
        _ => DetectStep::Known(BpmOutcome::Unavailable),
    }
}

/// The outcome of a detection: an estimate, no estimate although the analysis ran, or no audio to
/// run it on.
pub fn detection_ended(end: DetectEnd) -> (r: BpmOutcome)
    ensures
        r == (match end {
            DetectEnd::Analyzed(Some(bpm)) => BpmOutcome::Detected(bpm),
            DetectEnd::Analyzed(None) => BpmOutcome::Indeterminate,
            _ => BpmOutcome::Unavailable,
        }),
{
    match end {
        DetectEnd::Analyzed(Some(bpm)) => BpmOutcome::Detected(bpm),
        DetectEnd::Analyzed(None) => BpmOutcome::Indeterminate,
        _ => BpmOutcome::Unavailable,
    }
}

// --- Choosing the audio file -----------------------------------------------------------------

/// The Ogg Vorbis formats that can be analysed, smallest first.
#[derive(Clone, Copy, Debug, PartialEq, Eq, Structural)]
pub enum OggFormat {
    Vorbis96,
    Vorbis160,
    Vorbis320,
}

/// The Ogg Vorbis files of a track: for each format whether there is a file and, if so, whether it
/// is in the audio cache.
#[derive(Clone, Copy, Debug)]
pub struct OggFiles {
    pub vorbis_96: Option<bool>,
    pub vorbis_160: Option<bool>,
    pub vorbis_320: Option<bool>,
}

impl OggFiles {
    /// What is known of the file of one format.
    pub open spec fn of(self, format: OggFormat) -> Option<bool> {
        match format {
            OggFormat::Vorbis96 => self.vorbis_96,
            OggFormat::Vorbis160 => self.vorbis_160,
            OggFormat::Vorbis320 => self.vorbis_320,
        }
    }
}

/// Place of a format by size.
pub open spec fn format_rank(format: OggFormat) -> int {
    match format {
        OggFormat::Vorbis96 => 0,
        OggFormat::Vorbis160 => 1,
        OggFormat::Vorbis320 => 2,
    }
}

/// Whether the file of this format may be chosen: a cached one always, another only if nothing is
/// cached and it need not be.
pub open spec fn may_choose(files: OggFiles, require_cached: bool, format: OggFormat) -> bool {
    ||| files.of(format) == Some(true)
    ||| files.of(format) is Some && !require_cached && forall|f: OggFormat| #[trigger] files.of(f) != Some(true)
}

/// Choose the file to analyse. One that is already in the audio cache is preferred, so that the
/// analysis reuses those bytes; only when nothing is cached the smallest available file is taken,
/// unless only the cache may be used.
pub fn choose_format(files: OggFiles, require_cached: bool) -> (r: Option<OggFormat>)
    ensures
        match r {
            Some(format) => {
                &&& may_choose(files, require_cached, format)
                &&& forall|f: OggFormat| #[trigger]
                    may_choose(files, require_cached, f) ==> format_rank(format) <= format_rank(f)
            },
            None => forall|f: OggFormat| !#[trigger] may_choose(files, require_cached, f),
        },
        r is None <==> !may_choose(files, require_cached, OggFormat::Vorbis96) && !may_choose(
            files,
            require_cached,
            OggFormat::Vorbis160,
        ) && !may_choose(files, require_cached, OggFormat::Vorbis320),
{
    let hit_96 = match files.vorbis_96 {
        Some(cached) => cached,
        None => false,
    };
    let hit_160 = match files.vorbis_160 {
        Some(cached) => cached,
        None => false,
    };
    let hit_320 = match files.vorbis_320 {
        Some(cached) => cached,
        None => false,
    };
    if hit_96 {
        Some(OggFormat::Vorbis96)
    } else if hit_160 {
        Some(OggFormat::Vorbis160)
    } else if hit_320 {
        Some(OggFormat::Vorbis320)
    } else if require_cached {
        None
    } else if files.vorbis_96.is_some() {
        Some(OggFormat::Vorbis96)
    } else if files.vorbis_160.is_some() {
        Some(OggFormat::Vorbis160)
    } else if files.vorbis_320.is_some() {
        Some(OggFormat::Vorbis320)
    } else {
        None
    }
}

/// Nominal bytes per second of a format, used to size streaming reads: kilobytes times 1024.
pub fn stream_data_rate(format: OggFormat) -> (r: usize)
    ensures
        r == 1024 * match format {
            OggFormat::Vorbis96 => 12int,
            OggFormat::Vorbis160 => 20,
            OggFormat::Vorbis320 => 40,
        },
{
    match format {
        OggFormat::Vorbis96 => 12 * 1024,
        OggFormat::Vorbis160 => 20 * 1024,
        OggFormat::Vorbis320 => 40 * 1024,
    }
}

/// What is known of an item of the service's catalogue.
#[derive(Clone, Copy, Debug, PartialEq, Eq, Structural)]
pub struct ItemState {
    pub available: bool,
    pub has_files: bool,
}

/// What to do to find a playable item.
#[derive(Clone, Copy, Debug, PartialEq, Eq, Structural)]
pub enum FindStep {
    /// The item itself can be used.
    UseItem,
    /// Fetch the alternative with this index, then see [`judge_alternative`].
    TryAlternative(usize),
    /// The alternative with this index can be used.
    UseAlternative(usize),
    /// Nothing is playable.
    Unplayable,
}

/// The step that looks at the alternative with this index, if there is one.
pub open spec fn try_alternative(index: int, count: int) -> FindStep {
    if index < count {
        FindStep::TryAlternative(index as usize)
    } else {
        FindStep::Unplayable
    }
}

/// An item is playable as it is if it is available and has files. Of any other the alternatives
/// (region-relinked equivalents, `None` if it has not even a list of them) are looked at, and the
/// first playable of them is used.
pub fn find_available(item: ItemState, alternatives: Option<usize>) -> (r: FindStep)
    ensures
        r == (if item.available && item.has_files {
            FindStep::UseItem
        } else {
            match alternatives {
                Some(count) => try_alternative(0, count as int),
                None => FindStep::Unplayable,
            }
        }),
{
    if item.available && item.has_files {
        return FindStep::UseItem;
    }
    match alternatives {
        Some(count) => {
            if 0 < count {
                FindStep::TryAlternative(0)
            } else {
                FindStep::Unplayable
            }
        },
        None => FindStep::Unplayable,
    }
}

/// Whether an item could be fetched and can be played.
pub open spec fn is_playable(fetched: Option<ItemState>) -> bool {
    fetched == Some(ItemState { available: true, has_files: true })
}

/// What follows from what was fetched for the alternative with this index.
pub open spec fn judged(index: usize, count: int, fetched: Option<ItemState>) -> FindStep {
    if is_playable(fetched) {
        FindStep::UseAlternative(index)
    } else {
        try_alternative(index + 1, count)
    }
}

/// Judge an alternative, `None` if it could not be fetched: use it if it is available and has
/// files, otherwise go on to the next.
pub fn judge_alternative(index: usize, count: usize, fetched: Option<ItemState>) -> (r: FindStep)
    requires
        index < count,
    ensures
        r == judged(index, count as int, fetched),
{
    let playable = match fetched {
        Some(item) => item.available && item.has_files,
        None => false,
    };
    if playable {
        FindStep::UseAlternative(index)
    } else if index + 1 < count {
        FindStep::TryAlternative(index + 1)
    } else {
        FindStep::Unplayable
    }
}

/// Where looking at the alternatives one after the other, from the one at `from` on, ends.
pub open spec fn search_end(alternatives: Seq<Option<ItemState>>, from: int) -> FindStep
    decreases alternatives.len() - from,
{
    match try_alternative(from, alternatives.len() as int) {
        FindStep::TryAlternative(index) => if from < 0 || from >= alternatives.len() {
            FindStep::Unplayable
        } else {
            match judged(index, alternatives.len() as int, alternatives[from]) {
                FindStep::TryAlternative(_) => search_end(alternatives, from + 1),
                end => end,
            }
        },
        end => end,
    }
}

/// Of the alternatives the first that can be played is used; there is none only if none can be
/// played.
pub proof fn law_first_playable_alternative_is_used(alternatives: Seq<Option<ItemState>>)
    requires
        alternatives.len() <= usize::MAX,
    ensures
        match search_end(alternatives, 0) {
            FindStep::UseAlternative(i) => {
                &&& i < alternatives.len()
                &&& is_playable(alternatives[i as int])
                &&& forall|j: int| 0 <= j < i ==> !is_playable(#[trigger] alternatives[j])
            },
            FindStep::Unplayable => forall|j: int|
                0 <= j < alternatives.len() ==> !is_playable(#[trigger] alternatives[j]),
            _ => false,
        },
{
    lemma_search_end(alternatives, 0);
}

proof fn lemma_search_end(alternatives: Seq<Option<ItemState>>, from: int)
    requires
        0 <= from,
        alternatives.len() <= usize::MAX,
    ensures
        match search_end(alternatives, from) {
            FindStep::UseAlternative(i) => {
                &&& from <= i < alternatives.len()
                &&& is_playable(alternatives[i as int])
                &&& forall|j: int| from <= j < i ==> !is_playable(#[trigger] alternatives[j])
            },
            FindStep::Unplayable => forall|j: int|
                from <= j < alternatives.len() ==> !is_playable(#[trigger] alternatives[j]),
            _ => false,
        },
    decreases alternatives.len() - from,
{
    if from < alternatives.len() {
        lemma_search_end(alternatives, from + 1);
    }
}

// --- Reading the stream ----------------------------------------------------------------------

/// A position to seek to.
#[derive(Clone, Copy, Debug, PartialEq, Eq, Structural)]
pub enum SeekTarget {
    Start(u64),
    End(i64),
    Current(i64),
}

/// Where `target` of the part that starts at `offset` lies in the whole stream.
pub open spec fn whole_target(target: SeekTarget, offset: u64) -> SeekTarget {
    match target {
        SeekTarget::Start(at) => SeekTarget::Start((at + offset) as u64),
        other => other,
    }
}

/// The position in the part that starts at `offset` of a position in the whole stream; what lies
/// before the part counts as its start.
pub open spec fn part_position(position: u64, offset: u64) -> int {
    if position >= offset {
        position - offset
    } else {
        0
    }
}

/// Where to seek in a stream so as to seek to `target` in the part of it that starts at `offset`.
pub fn subfile_seek(target: SeekTarget, offset: u64) -> (r: SeekTarget)
    requires
        target matches SeekTarget::Start(at) ==> at + offset <= u64::MAX,
    ensures
        r == whole_target(target, offset),
{
    match target {
        SeekTarget::Start(at) => SeekTarget::Start(at + offset),
        other => other,
    }
}

/// The position in the part of a stream that starts at `offset`.
pub fn subfile_position(position: u64, offset: u64) -> (r: u64)
    ensures
        r == part_position(position, offset),
{
    position.saturating_sub(offset)
}

/// Whoever seeks to a position of the part is told to be there.
pub proof fn law_seek_reports_the_position(at: u64, offset: u64)
    requires
        at + offset <= u64::MAX,
    ensures
        whole_target(SeekTarget::Start(at), offset) matches SeekTarget::Start(position) && part_position(
            position,
            offset,
        ) == at,
{
}

/// Whether to go on decoding with so many samples at hand.
pub fn wants_samples(have: usize) -> (r: bool)
    ensures
        r == (have < ANALYSIS_SAMPLES),
{
    have < ANALYSIS_SAMPLES
}

/// Whether so many samples are enough for an analysis: eight spectra.
pub fn enough_samples(have: usize) -> (r: bool)
    ensures
        r == (have >= 8 * FFT_SIZE),
{
    have >= FFT_SIZE * 8
}

// --- Frames, bands and windows ---------------------------------------------------------------

/// How many stretches of `size`, one every `hop`, lie within `len`.
pub open spec fn stretch_count(len: nat, size: nat, hop: nat) -> nat {
    if len < size {
        0
    } else {
        (len - size) as nat / hop + 1
    }
}

/// The starts of all stretches of `size`, one every `hop`, that lie within `len`.
pub open spec fn stretch_starts(len: nat, size: nat, hop: nat) -> Seq<int> {
    Seq::new(stretch_count(len, size, hop), |i: int| i * hop)
}

/// The starts as numbers.
pub open spec fn numbers_of(v: Seq<usize>) -> Seq<int> {
    v.map_values(|x: usize| x as int)
}

/// The starts of all stretches of `size`, one every `hop`, within `len`.
fn starts(len: usize, size: usize, hop: usize) -> (r: Vec<usize>)
    requires
        0 < hop <= size,
    ensures
        numbers_of(r@) == stretch_starts(len as nat, size as nat, hop as nat),
{
    let mut out: Vec<usize> = Vec::new();
    let mut pos: usize = 0;
    assert(0 * hop == 0) by (nonlinear_arith);
    while len >= size && pos <= len - size
        invariant
            0 < hop <= size,
            pos == out@.len() * hop,
            pos <= len,
            len >= size ==> pos <= len - size + hop,
            len < size ==> pos == 0,
            forall|j: int| 0 <= j < out@.len() ==> #[trigger] out@[j] == j * hop,
        decreases len + 1 - pos,
    {
        out.push(pos);
        assert((out@.len() - 1) * hop + hop == out@.len() * hop) by (nonlinear_arith);
        pos += hop;
    }
    proof {
        let n = out@.len();
        let count = stretch_count(len as nat, size as nat, hop as nat);
        if len < size {
            assert(n == 0) by (nonlinear_arith)
                requires
                    n * hop == 0,
                    hop > 0,
            ;
        } else {
            let span = len - size;
            assert(n > 0) by (nonlinear_arith)
                requires
                    n * hop > span,
                    span >= 0,
            ;
            assert(span / hop as int == n - 1) by (nonlinear_arith)
                requires
                    n * hop > span,
                    n * hop <= span + hop,
                    hop > 0,
                    span >= 0,
                    n > 0,
            ;
        }
        assert(numbers_of(out@) =~= stretch_starts(len as nat, size as nat, hop as nat));
    }
    out
}

/// The first samples of the short-time spectra of a signal of this length.
pub fn frame_starts(len: usize) -> (r: Vec<usize>)
    ensures
        numbers_of(r@) == stretch_starts(len as nat, FFT_SIZE as nat, HOP as nat),
{
    starts(len, FFT_SIZE, HOP)
}

/// The starts of the windows that the tempo of an onset envelope of this length is estimated on.
pub fn window_starts(len: usize) -> (r: Vec<usize>)
    ensures
        numbers_of(r@) == stretch_starts(len as nat, WINDOW as nat, WINDOW_HOP as nat),
{
    starts(len, WINDOW, WINDOW_HOP)
}

/// Every stretch lies within the whole, and one more would not fit.
pub proof fn law_stretches_fit(len: nat, size: nat, hop: nat)
    requires
        0 < hop,
    ensures
        forall|i: int|
            0 <= i < stretch_starts(len, size, hop).len() ==> #[trigger] stretch_starts(len, size, hop)[i] + size
                <= len,
        stretch_count(len, size, hop) * hop + size > len,
{
    let n = stretch_count(len, size, hop);
    if len >= size {
        let span = (len - size) as nat;
        assert(n * hop > span) by (nonlinear_arith)
            requires
                n == span / hop + 1,
                hop > 0,
        ;
        assert forall|i: int| 0 <= i < n implies #[trigger] stretch_starts(len, size, hop)[i] + size <= len by {
            assert(i * hop <= span) by (nonlinear_arith)
                requires
                    0 <= i <= span / hop,
                    hop > 0,
            ;
        }
    }
}

/// Whether an onset envelope of this length is long enough for an estimate.
pub fn long_enough(len: usize) -> (r: bool)
    ensures
        r == (len >= 4 * MAX_LAG),
{
    let span: usize = 4 * MAX_LAG;
    let need: usize = if WINDOW < span {
        WINDOW
    } else {
        span
    };
    len >= need
}

/// The longest lag to search in a window of this length, or `None` if the window is too short.
pub fn longest_lag(window_len: usize) -> (r: Option<usize>)
    ensures
        r == (if window_len / 2 <= MIN_LAG {
            None
        } else if window_len / 2 < MAX_LAG {
            Some((window_len / 2) as usize)
        } else {
            Some(MAX_LAG)
        }),
{
    let half: usize = window_len / 2;
    let lag: usize = if half < MAX_LAG {
        half
    } else {
        MAX_LAG
    };
    if lag <= MIN_LAG {
        None
    } else {
        Some(lag)
    }
}

/// The lag and its multiples, up to the number of harmonics and no longer than `max_lag`.
pub fn comb_lags(lag: usize, max_lag: usize) -> (r: Vec<usize>)
    requires
        0 < lag,
        lag * COMB_HARMONICS <= usize::MAX,
    ensures
        r@.len() <= COMB_HARMONICS,
        forall|i: int| 0 <= i < r@.len() ==> #[trigger] r@[i] == lag * (i + 1) && r@[i] <= max_lag,
        r@.len() < COMB_HARMONICS ==> lag * (r@.len() + 1) > max_lag,
{
    let mut out: Vec<usize> = Vec::new();
    let mut harmonic: usize = 1;
    while harmonic <= COMB_HARMONICS
        invariant
            1 <= harmonic <= COMB_HARMONICS + 1,
            lag * COMB_HARMONICS <= usize::MAX,
            out@.len() == harmonic - 1,
            forall|i: int| 0 <= i < out@.len() ==> #[trigger] out@[i] == lag * (i + 1) && out@[i] <= max_lag,
        decreases COMB_HARMONICS + 1 - harmonic,
    {
        assert(lag * harmonic <= lag * COMB_HARMONICS) by (nonlinear_arith)
            requires
                harmonic <= COMB_HARMONICS,
        ;
        let multiple: usize = lag * harmonic;
        if multiple > max_lag {
            return out;
        }
        out.push(multiple);
        harmonic += 1;
    }
    out
}

/// The bins of the reference frame that bin `k` is compared with: from the first to before the
/// second.
pub fn reference_range(k: usize, bins: usize) -> (r: (usize, usize))
    requires
        k < bins <= usize::MAX - MAX_FILTER_RADIUS - 1,
    ensures
        r.0 == if k >= MAX_FILTER_RADIUS {
            k - MAX_FILTER_RADIUS
        } else {
            0
        },
        r.1 == if k + MAX_FILTER_RADIUS + 1 <= bins {
            k + MAX_FILTER_RADIUS + 1
        } else {
            bins as int
        },
        r.0 <= k < r.1 <= bins,
{
    let lo: usize = k.saturating_sub(MAX_FILTER_RADIUS);
    let reach: usize = k + MAX_FILTER_RADIUS + 1;
    let hi: usize = if reach < bins {
        reach
    } else {
        bins
    };
    (lo, hi)
}

/// The stretch of an envelope of length `len` that value `i` is averaged over: from the first to
/// before the second.
pub fn trend_range(i: usize, radius: usize, len: usize) -> (r: (usize, usize))
    requires
        i < len,
        i + radius + 1 <= usize::MAX,
    ensures
        r.0 == if i >= radius {
            i - radius
        } else {
            0
        },
        r.1 == if i + radius + 1 <= len {
            i + radius + 1
        } else {
            len as int
        },
        r.0 <= i < r.1 <= len,
{
    let lo: usize = i.saturating_sub(radius);
    let reach: usize = i + radius + 1;
    let hi: usize = if reach < len {
        reach
    } else {
        len
    };
    (lo, hi)
}

/// The bins nearest to nine frequencies that are spaced evenly, on a logarithmic scale, from 30 to
/// 11000 Hz.
pub open spec fn band_bins() -> Seq<int> {
    seq![1, 3, 6, 13, 27, 56, 117, 244, 511]
}

/// The bin at or below `bins` that lies nearest to `bin`.
pub open spec fn within_bins(bin: int, bins: int) -> int {
    if bin <= bins {
        bin
    } else {
        bins
    }
}

/// Bin indices splitting the frequencies that are looked at into bands; each edge ends one band and
/// starts the next.
pub fn log_spaced_band_edges(bins: usize) -> (r: Vec<usize>)
    requires
        bins >= 1,
    ensures
        numbers_of(r@) == band_bins().map_values(|bin: int| within_bins(bin, bins as int)),
        r@.len() == BANDS + 1,
        forall|i: int, j: int| 0 <= i <= j < r@.len() ==> #[trigger] r@[i] <= #[trigger] r@[j],
        forall|i: int| 0 <= i < r@.len() ==> 1 <= #[trigger] r@[i] <= bins,
{
    let all: Vec<usize> = vec![1, 3, 6, 13, 27, 56, 117, 244, 511];
    assert(numbers_of(all@) =~= band_bins());
    let mut out: Vec<usize> = Vec::new();
    for i in 0..all.len()
        invariant
            all@.len() == 9,
            numbers_of(all@) == band_bins(),
            out@.len() == i,
            forall|j: int| 0 <= j < i ==> #[trigger] out@[j] == within_bins(band_bins()[j], bins as int),
    {
        let edge: usize = all[i];
        assert(numbers_of(all@)[i as int] == edge);
        out.push(
            if edge <= bins {
                edge
            } else {
                bins
            },
        );
    }
    assert(numbers_of(out@) =~= band_bins().map_values(|bin: int| within_bins(bin, bins as int)));
    assert forall|i: int, j: int| 0 <= i <= j < out@.len() implies #[trigger] out@[i] <= #[trigger] out@[j] by {
        assert(band_bins()[i] <= band_bins()[j]);
    }
    assert forall|i: int| 0 <= i < out@.len() implies 1 <= #[trigger] out@[i] <= bins by {
        assert(band_bins()[i] >= 1);
    }
    out
}

// --- From estimates to a tempo ---------------------------------------------------------------

/// How often a value occurs.
pub open spec fn occurrences(v: Seq<i32>, x: i32) -> nat {
    v.to_multiset().count(x)
}

/// Distance of a tempo from the one that ties are broken towards.
pub open spec fn tie_distance(bpm: i32) -> int {
    if bpm >= TIE_BPM {
        bpm - TIE_BPM
    } else {
        TIE_BPM - bpm
    }
}

/// Whether `a` is a better choice than `b`: more common, or as common and nearer to the tie tempo.
pub open spec fn better_bucket(v: Seq<i32>, a: i32, b: i32) -> bool {
    ||| occurrences(v, a) > occurrences(v, b)
    ||| occurrences(v, a) == occurrences(v, b) && tie_distance(a) < tie_distance(b)
}

/// Whether the value is a better choice than every other that comes before its first place.
pub open spec fn comes_first(v: Seq<i32>, a: i32) -> bool {
    exists|at: int|
        0 <= at < v.len() && #[trigger] v[at] == a && forall|j: int|
            0 <= j < at ==> better_bucket(v, a, #[trigger] v[j])
}

/// How often a value occurs among the first `n`.
spec fn count_upto(v: Seq<i32>, x: i32, n: int) -> nat
    decreases n,
{
    if n <= 0 {
        0
    } else {
        count_upto(v, x, n - 1) + if v[n - 1] == x {
            1nat
        } else {
            0
        }
    }
}

proof fn lemma_count_upto(v: Seq<i32>, x: i32, n: int)
    requires
        0 <= n <= v.len(),
    ensures
        count_upto(v, x, n) == occurrences(v.take(n), x),
    decreases n,
{
    broadcast use vstd::seq_lib::group_to_multiset_ensures;

    if n == 0 {
        assert(v.take(0) =~= Seq::<i32>::empty());
    } else {
        lemma_count_upto(v, x, n - 1);
        assert(v.take(n) =~= v.take(n - 1).push(v[n - 1]));
    }
}

/// Count how often a value occurs.
fn count_of(v: &Vec<i32>, x: i32) -> (r: usize)
    ensures
        r == occurrences(v@, x),
{
    let mut n: usize = 0;
    for i in 0..v.len()
        invariant
            n == count_upto(v@, x, i as int),
            n <= i,
    {
        if v[i] == x {
            n += 1;
        }
    }
    proof {
        lemma_count_upto(v@, x, v@.len() as int);
        assert(v@.take(v@.len() as int) =~= v@);
    }
    n
}

/// The distance of a tempo from the one that ties are broken towards.
fn distance_of(bpm: i32) -> (r: i64)
    ensures
        r == tie_distance(bpm),
{
    if bpm >= TIE_BPM {
        bpm as i64 - TIE_BPM as i64
    } else {
        TIE_BPM as i64 - bpm as i64
    }
}

/// The most common of the estimates, each rounded to a whole BPM; a tie goes to the one nearer to
/// 120. Without any estimate the answer is 120. Of two tempos that are as common and as near, the
/// one that comes first is taken.
pub fn mode_bucket(rounded: &Vec<i32>) -> (r: i32)
    ensures
        rounded@.len() == 0 ==> r == TIE_BPM,
        rounded@.len() > 0 ==> rounded@.contains(r),
        forall|i: int| 0 <= i < rounded@.len() ==> !better_bucket(rounded@, #[trigger] rounded@[i], r),
        rounded@.len() > 0 ==> comes_first(rounded@, r),
{
    if rounded.len() == 0 {
        return TIE_BPM;
    }
    let mut best: i32 = rounded[0];
    let mut best_count: usize = count_of(rounded, best);
    let ghost mut at: int = 0;
    let mut i: usize = 1;
    while i < rounded.len()
        invariant
            1 <= i <= rounded@.len(),
            0 <= at < i,
            rounded@[at] == best,
            forall|j: int| 0 <= j < at ==> better_bucket(rounded@, best, #[trigger] rounded@[j]),
            best_count == occurrences(rounded@, best),
            forall|j: int| 0 <= j < i ==> !better_bucket(rounded@, #[trigger] rounded@[j], best),
        decreases rounded.len() - i,
    {
        let bpm: i32 = rounded[i];
        let count: usize = count_of(rounded, bpm);
        if count > best_count || (count == best_count && distance_of(bpm) < distance_of(best)) {
            best = bpm;
            best_count = count;
            proof {
                at = i as int;
            }
        }
        i += 1;
    }
    best
}

/// Which of the estimates, each rounded to a whole BPM, fall in the bucket.
pub open spec fn in_bucket(rounded: Seq<i32>, bucket: i32) -> Seq<bool> {
    rounded.map_values(|bpm: i32| bpm == bucket)
}

/// Tell which of the estimates fall in the bucket; the tempo is the average of these.
pub fn bucket_members(rounded: &Vec<i32>, bucket: i32) -> (r: Vec<bool>)
    ensures
        r@ == in_bucket(rounded@, bucket),
{
    let mut out: Vec<bool> = Vec::new();
    for i in 0..rounded.len()
        invariant
            out@.len() == i,
            forall|j: int| 0 <= j < i ==> #[trigger] out@[j] == (rounded@[j] == bucket),
    {
        out.push(rounded[i] == bucket);
    }
    assert(out@ =~= in_bucket(rounded@, bucket));
    out
}

/// A candidate tempo of the octave check.
#[derive(Clone, Copy, Debug)]
pub struct OctaveCandidate {
    /// Whether it is nearly as periodic as the most periodic candidate.
    pub periodic: bool,
    /// Its perceptual weight, as a number that orders like it.
    pub weight: i32,
}

/// Whether one of the candidates is periodic.
pub open spec fn any_periodic(candidates: Seq<OctaveCandidate>) -> bool {
    exists|j: int| 0 <= j < candidates.len() && (#[trigger] candidates[j]).periodic
}

/// Choose between a tempo, its half and its double time. If nothing is periodic enough to argue
/// about (`confident` is false) there is no choice; otherwise, of the candidates that are periodic,
/// the one with the greatest weight is chosen, the last of several.
pub fn pick_octave(confident: bool, candidates: &Vec<OctaveCandidate>) -> (r: Option<usize>)
    ensures
        match r {
            Some(i) => {
                &&& confident
                &&& i < candidates@.len()
                &&& candidates@[i as int].periodic
                &&& forall|j: int|
                    0 <= j < candidates@.len() && (#[trigger] candidates@[j]).periodic
                        ==> candidates@[j].weight <= candidates@[i as int].weight
                &&& forall|j: int|
                    i < j < candidates@.len() && (#[trigger] candidates@[j]).periodic
                        ==> candidates@[j].weight < candidates@[i as int].weight
            },
            None => !confident || forall|j: int|
                0 <= j < candidates@.len() ==> !(#[trigger] candidates@[j]).periodic,
        },
        r is Some <==> confident && any_periodic(candidates@),
{
    if !confident {
        return None;
    }
    let mut best: Option<usize> = None;
    for k in 0..candidates.len()
        invariant
            match best {
                Some(i) => {
                    &&& i < k
                    &&& candidates@[i as int].periodic
                    &&& forall|j: int|
                        0 <= j < k && (#[trigger] candidates@[j]).periodic ==> candidates@[j].weight
                            <= candidates@[i as int].weight
                    &&& forall|j: int|
                        i < j < k && (#[trigger] candidates@[j]).periodic ==> candidates@[j].weight
                            < candidates@[i as int].weight
                },
                None => forall|j: int| 0 <= j < k ==> !(#[trigger] candidates@[j]).periodic,
            },
            k <= candidates@.len(),
    {
        let candidate = candidates[k];
        if candidate.periodic {
            match best {
                Some(i) => {
                    if candidate.weight >= candidates[i].weight {
                        best = Some(k);
                    }
                },
                None => {
                    best = Some(k);
                },
            }
        }
    }
    best
}

// --- Laws ------------------------------------------------------------------------------------

/// A detection opens the audio of what the URI names, and asks for the key to it under the very id that the
/// URI carries, whatever kind of item it is. Without a runtime, an id or a URI nothing is opened.
pub proof fn law_detection_goes_by_the_id_of_the_uri(id: u128)
    ensures
        begun(Some(ItemUri::Track(id)), true) == DetectStep::OpenAudio(ItemUri::Track(id), id),
        begun(Some(ItemUri::Episode(id)), true) == DetectStep::OpenAudio(ItemUri::Episode(id), id),
        begun(Some(ItemUri::Album(id)), true) == DetectStep::OpenAudio(ItemUri::Album(id), id),
        begun(Some(ItemUri::Artist(id)), true) == DetectStep::OpenAudio(ItemUri::Artist(id), id),
        begun(Some(ItemUri::Playlist(id)), true) == DetectStep::OpenAudio(ItemUri::Playlist(id), id),
        begun(Some(ItemUri::Show(id)), true) == DetectStep::OpenAudio(ItemUri::Show(id), id),
        begun(Some(ItemUri::Local), true) == DetectStep::Known(BpmOutcome::Unavailable),
        begun(Some(ItemUri::Unknown), true) == DetectStep::Known(BpmOutcome::Unavailable),
        begun(None, true) == DetectStep::Known(BpmOutcome::Unavailable),
        forall|item: Option<ItemUri>| #[trigger]
            begun(item, false) == DetectStep::Known(BpmOutcome::Unavailable),
{
}

/// Detections of different items open different audio, each under an id of its own if the ids differ.
pub proof fn law_detections_are_told_apart(a: ItemUri, b: ItemUri)
    requires
        begun(Some(a), true) == begun(Some(b), true),
        begun(Some(a), true) is OpenAudio,
    ensures
        a == b,
        a.id_of() is Some,
        begun(Some(a), true)->OpenAudio_1 == a.id_of()->0,
{
}

/// The file that is chosen (see [`choose_format`]): one that is in the cache before one that is not, and of
/// several the one with the lowest bitrate; without a cached one nothing if only the cache may be used.
pub proof fn law_smallest_cached_file_is_chosen(files: OggFiles, require_cached: bool, chosen: OggFormat)
    requires
        may_choose(files, require_cached, chosen),
        forall|f: OggFormat| #[trigger]
            may_choose(files, require_cached, f) ==> format_rank(chosen) <= format_rank(f),
    ensures
        ({
            let hit_96 = files.vorbis_96 == Some(true);
            let hit_160 = files.vorbis_160 == Some(true);
            let hit_320 = files.vorbis_320 == Some(true);
            if hit_96 || hit_160 || hit_320 {
                chosen == (if hit_96 {
                    OggFormat::Vorbis96
                } else if hit_160 {
                    OggFormat::Vorbis160
                } else {
                    OggFormat::Vorbis320
                })
            } else {
                &&& !require_cached
                &&& chosen == (if files.vorbis_96 is Some {
                    OggFormat::Vorbis96
                } else if files.vorbis_160 is Some {
                    OggFormat::Vorbis160
                } else {
                    OggFormat::Vorbis320
                })
                &&& chosen is Vorbis320 ==> files.vorbis_320 is Some
            }
        }),
{
    lemma_may_choose(files, require_cached);
    assert(may_choose(files, require_cached, OggFormat::Vorbis96) ==> format_rank(chosen) <= 0);
    assert(may_choose(files, require_cached, OggFormat::Vorbis160) ==> format_rank(chosen) <= 1);
}

/// Which files may be chosen, told by the three files alone.
proof fn lemma_may_choose(files: OggFiles, require_cached: bool)
    ensures
        ({
            let none = files.vorbis_96 != Some(true) && files.vorbis_160 != Some(true) && files.vorbis_320 != Some(true);
            &&& may_choose(files, require_cached, OggFormat::Vorbis96) == (files.vorbis_96 == Some(true)
                || files.vorbis_96 is Some && !require_cached && none)
            &&& may_choose(files, require_cached, OggFormat::Vorbis160) == (files.vorbis_160 == Some(true)
                || files.vorbis_160 is Some && !require_cached && none)
            &&& may_choose(files, require_cached, OggFormat::Vorbis320) == (files.vorbis_320 == Some(true)
                || files.vorbis_320 is Some && !require_cached && none)
        }),
{
    assert(files.of(OggFormat::Vorbis96) == files.vorbis_96);
    assert(files.of(OggFormat::Vorbis160) == files.vorbis_160);
    assert(files.of(OggFormat::Vorbis320) == files.vorbis_320);
    if files.vorbis_96 != Some(true) && files.vorbis_160 != Some(true) && files.vorbis_320 != Some(true) {
        assert forall|f: OggFormat| #[trigger] files.of(f) != Some(true) by {
            match f {
                OggFormat::Vorbis96 => {},
                OggFormat::Vorbis160 => {},
                OggFormat::Vorbis320 => {},
            }
        }
    }
}

/// There is a file to choose if and only if one is in the cache or, where that is not asked for, there is
/// one at all.
pub proof fn law_some_file_is_chosen(files: OggFiles, require_cached: bool)
    ensures
        (exists|f: OggFormat| #[trigger] may_choose(files, require_cached, f)) <==> {
            ||| files.vorbis_96 == Some(true) || files.vorbis_160 == Some(true) || files.vorbis_320 == Some(true)
            ||| !require_cached && (files.vorbis_96 is Some || files.vorbis_160 is Some || files.vorbis_320 is Some)
        },
{
    lemma_may_choose(files, require_cached);
    if exists|f: OggFormat| #[trigger] may_choose(files, require_cached, f) {
        let f = choose|f: OggFormat| #[trigger] may_choose(files, require_cached, f);
        match f {
            OggFormat::Vorbis96 => {},
            OggFormat::Vorbis160 => {},
            OggFormat::Vorbis320 => {},
        }
    }
}

/// Of the alternatives of an item the one that is used is available and has files, and no earlier one that
/// could be fetched is both; every one is tried before the item counts as unplayable.
pub proof fn law_alternatives_are_tried_in_order(alternatives: Seq<Option<ItemState>>)
    requires
        alternatives.len() <= usize::MAX,
    ensures
        match search_end(alternatives, 0) {
            FindStep::UseAlternative(i) => {
                &&& i < alternatives.len()
                &&& alternatives[i as int] matches Some(item)
                &&& item.available && item.has_files
                &&& forall|j: int|
                    0 <= j < i ==> (#[trigger] alternatives[j] matches Some(earlier) ==> !earlier.available
                        || !earlier.has_files)
            },
            FindStep::Unplayable => forall|j: int|
                0 <= j < alternatives.len() ==> (#[trigger] alternatives[j] matches Some(item) ==> !item.available
                    || !item.has_files),
            _ => false,
        },
{
    law_first_playable_alternative_is_used(alternatives);
    match search_end(alternatives, 0) {
        FindStep::UseAlternative(i) => {
            assert forall|j: int| 0 <= j < i implies (#[trigger] alternatives[j] matches Some(earlier)
                ==> !earlier.available || !earlier.has_files) by {
                assert(!is_playable(alternatives[j]));
            }
        },
        _ => {
            assert forall|j: int| 0 <= j < alternatives.len() implies (#[trigger] alternatives[j] matches Some(item)
                ==> !item.available || !item.has_files) by {
                assert(!is_playable(alternatives[j]));
            }
        },
    }
}

/// The search goes from one alternative to the next: the first to look at is the first there is, an
/// alternative that cannot be used is followed by the one behind it, and behind the last there is none.
pub proof fn law_search_looks_at_every_alternative(index: usize, count: usize, fetched: Option<ItemState>)
    requires
        index < count,
    ensures
        try_alternative(0, count as int) == FindStep::TryAlternative(0),
        try_alternative(count as int, count as int) == FindStep::Unplayable,
        judged(index, count as int, fetched) == (match fetched {
            Some(item) if item.available && item.has_files => FindStep::UseAlternative(index),
            _ => if index + 1 < count {
                FindStep::TryAlternative((index + 1) as usize)
            } else {
                FindStep::Unplayable
            },
        }),
{
}

/// Seeking within a part that starts at an offset: a place counted from the start lies that much further in
/// the whole, other places lie where they are; a position of the whole is that much less in the part, and
/// never below its start.
pub proof fn law_part_is_shifted_by_its_offset(at: u64, by: i64, position: u64, offset: u64)
    requires
        at + offset <= u64::MAX,
    ensures
        whole_target(SeekTarget::Start(at), offset) matches SeekTarget::Start(place) && place == at + offset,
        whole_target(SeekTarget::End(by), offset) == SeekTarget::End(by),
        whole_target(SeekTarget::Current(by), offset) == SeekTarget::Current(by),
        offset <= position ==> part_position(position, offset) + offset == position,
        position < offset ==> part_position(position, offset) == 0,
{
}

/// The first stretch starts at the start, and each further one a hop behind the one before; a whole that is
/// too short for one has none.
pub proof fn law_stretches_are_a_hop_apart(len: nat, size: nat, hop: nat)
    requires
        0 < hop,
    ensures
        ({
            let starts = stretch_starts(len, size, hop);
            &&& starts.len() > 0 <==> len >= size
            &&& starts.len() > 0 ==> starts[0] == 0
            &&& forall|i: int| 0 < i < starts.len() ==> #[trigger] starts[i] == starts[i - 1] + hop
            &&& len < starts.len() * hop + size
        }),
{
    let starts = stretch_starts(len, size, hop);
    law_stretches_fit(len, size, hop);
    assert(0 * hop == 0);
    assert forall|i: int| 0 < i < starts.len() implies #[trigger] starts[i] == starts[i - 1] + hop by {
        assert(i * hop == (i - 1) * hop + hop) by (nonlinear_arith);
    }
}

/// The sizes of the analysis belong together: a minute of samples at 44100 a second, spectra of 2048 samples
/// every 512 with half as many bins and one, windows of eight seconds every four, lags from 200 down to 60
/// beats a minute, and a trend of half a second to either side.
pub proof fn law_sizes_belong_together()
    ensures
        SAMPLE_RATE == 44_100,
        ANALYSIS_SAMPLES == 60 * SAMPLE_RATE,
        FFT_SIZE == 2048,
        HOP == 512,
        BINS == FFT_SIZE / 2 + 1,
        WINDOW == 8 * SAMPLE_RATE / HOP as int,
        WINDOW_HOP == 4 * SAMPLE_RATE / HOP as int,
        TREND_RADIUS == SAMPLE_RATE as int / HOP as int / 2,
        MIN_LAG == 60 * SAMPLE_RATE / HOP as int / 200,
        MAX_LAG == 60 * SAMPLE_RATE / HOP as int / 60 + 1,
        BANDS == 8,
        MAX_FILTER_RADIUS == 3,
        COMB_HARMONICS == 4,
        SPOTIFY_OGG_HEADER_END == 167,
{
}

/// A number to the eighth power.
pub open spec fn eighth(x: int) -> int {
    x * x * x * x * x * x * x * x
}

/// The eighth power of 4096 times the frequency with this index, of nine that are spaced evenly on a
/// logarithmic scale from 30 to 11000 Hz: each step multiplies it by 11000 / 30.
pub open spec fn edge_power(k: int) -> int
    decreases k,
{
    if k <= 0 {
        eighth(4096int * 30)
    } else {
        edge_power(k - 1) / 30 * 11000
    }
}

/// The edges of the bands are the bins nearest to nine frequencies that are spaced evenly, on a logarithmic
/// scale, from 30 to 11000 Hz, a bin being 44100 / 2048 Hz wide; where the spectrum ends below one, the edge
/// is its end.
#[verifier::spinoff_prover]
pub proof fn law_band_edges_are_log_spaced(k: int, bins: int)
    requires
        0 <= k <= 8,
    ensures
        band_bins().len() == 9,
        eighth((2 * band_bins()[k] - 1) * 44100) <= edge_power(k) < eighth((2 * band_bins()[k] + 1) * 44100),
        band_bins()[k] <= bins ==> within_bins(band_bins()[k], bins) == band_bins()[k],
        band_bins()[k] > bins ==> within_bins(band_bins()[k], bins) == bins,
{
    reveal_with_fuel(edge_power, 2);
    assert(edge_power(0) == 51981597425608831895124185815449600000000int);
    assert(edge_power(1) == 19059919056056571694878868132331520000000000int);
    assert(edge_power(2) == 6988636987220742954788918315188224000000000000int);
    assert(edge_power(3) == 2562500228647605750089270048902348800000000000000int);
    assert(edge_power(4) == 939583417170788775032732351264194560000000000000000int);
    assert(edge_power(5) == 344513919629289217512001862130204672000000000000000000int);
    assert(edge_power(6) == 126321770530739379754400682781075046400000000000000000000int);
    assert(edge_power(7) == 46317982527937772576613583686394183680000000000000000000000int);
    assert(edge_power(8) == 16983260260243849944758314018344534016000000000000000000000000int);
    assert(eighth(44100) == 14305686902419853283210000000000000000int);
    assert(eighth(132300) == 93859611766776657391140810000000000000000int);
    assert(eighth(220500) == 5588158946257755188753906250000000000000000int);
    assert(eighth(308700) == 82469438160756872626902291210000000000000000int);
    assert(eighth(485100) == 3066551036339075941973071688010000000000000000int);
    assert(eighth(573300) == 11669588291311203563427110494410000000000000000int);
    assert(eighth(1102500) == 2182874588381935620606994628906250000000000000000int);
    assert(eighth(1190700) == 4040348520892751840029026319784010000000000000000int);
    assert(eighth(2337300) == 890667637666521985124470071334548810000000000000000int);
    assert(eighth(2425500) == 1197871498569951539833231128128906250000000000000000int);
    assert(eighth(4895100) == 329679957883804739563603980812017616010000000000000000int);
    assert(eighth(4983300) == 380308702712756635271446783095119350410000000000000000int);
    assert(eighth(10275300) == 124267077267191011065604468928675759705610000000000000000int);
    assert(eighth(10363500) == 133061254580827690951881576800911253906250000000000000000int);
    assert(eighth(21476700) == 45262694646723753483274675277400471342214410000000000000000int);
    assert(eighth(21564900) == 46771315886852239278644708910107989946048010000000000000000int);
    assert(eighth(45026100) == 16893306141326476740096947743187018530985508810000000000000000int);
    assert(eighth(45114300) == 17159861783448242608597131828206852027913392010000000000000000int);
}

/// One tempo is the better choice than another if it is more common among the estimates, and of two that are
/// as common the one whose distance from 120 is smaller.
pub proof fn law_common_tempos_win(v: Seq<i32>, a: i32, b: i32)
    ensures
        v.to_multiset().count(a) > v.to_multiset().count(b) ==> better_bucket(v, a, b),
        v.to_multiset().count(a) < v.to_multiset().count(b) ==> !better_bucket(v, a, b),
        v.to_multiset().count(a) == v.to_multiset().count(b) ==> (better_bucket(v, a, b) <==> vstd::math::abs(a - 120)
            < vstd::math::abs(b - 120)),
{
}

/// Of two tempos neither of which is the better choice both are as common and as far from 120, so that the
/// one that is chosen (see [`mode_bucket`]) is settled but for its side of 120.
pub proof fn law_choice_of_a_tempo_is_settled(v: Seq<i32>, a: i32, b: i32)
    requires
        !better_bucket(v, a, b),
        !better_bucket(v, b, a),
    ensures
        v.to_multiset().count(a) == v.to_multiset().count(b),
        a == b || a - 120 == 120 - b,
{
}

/// An estimate belongs to the bucket if and only if it is the bucket's tempo.
pub proof fn law_bucket_has_its_own_estimates(rounded: Seq<i32>, bucket: i32)
    ensures
        in_bucket(rounded, bucket).len() == rounded.len(),
        forall|i: int| 0 <= i < rounded.len() ==> in_bucket(rounded, bucket)[i] == (#[trigger] rounded[i] == bucket),
{
}

// --- Laws of the operations ------------------------------------------------------------------

/// [`begin_detection`] opens the audio of the item under the very id that the item carries; without a runtime, and
/// for what has no id, nothing is opened.
pub proof fn law_begin_detection(item: ItemUri, has_runtime: bool, r: DetectStep)
    requires
        call_ensures(begin_detection, (Some(item), has_runtime), r),
    ensures
        !has_runtime ==> r == DetectStep::Known(BpmOutcome::Unavailable),
        has_runtime ==> r == (match item {
            ItemUri::Album(id) => DetectStep::OpenAudio(ItemUri::Album(id), id),
            ItemUri::Artist(id) => DetectStep::OpenAudio(ItemUri::Artist(id), id),
            ItemUri::Episode(id) => DetectStep::OpenAudio(ItemUri::Episode(id), id),
            ItemUri::Playlist(id) => DetectStep::OpenAudio(ItemUri::Playlist(id), id),
            ItemUri::Show(id) => DetectStep::OpenAudio(ItemUri::Show(id), id),
            ItemUri::Track(id) => DetectStep::OpenAudio(ItemUri::Track(id), id),
            ItemUri::Local => DetectStep::Known(BpmOutcome::Unavailable),
            ItemUri::Unknown => DetectStep::Known(BpmOutcome::Unavailable),
        }),
{
}

/// [`detect_bpm`] starts as [`begin_detection`] does for what the track's URI is read as, and opens nothing for a text
/// that is no URI.
pub proof fn law_detect_bpm(track: &Track, has_runtime: bool, r: DetectStep, s: DetectStep)
    requires
        call_ensures(detect_bpm, (track, has_runtime), r),
        call_ensures(begin_detection, (parsed_uri(track.uri@), has_runtime), s),
    ensures
        r == s,
        parsed_uri(track.uri@) is None ==> r == DetectStep::Known(BpmOutcome::Unavailable),
{
}

/// [`detection_ended`] gives the estimate if there is one, tells an analysis without one from audio that could not
/// be had, and nothing else.
pub proof fn law_detection_ended(end: DetectEnd, r: BpmOutcome, bpm: u32)
    requires
        call_ensures(detection_ended, (end,), r),
    ensures
        r == BpmOutcome::Detected(bpm) <==> end == DetectEnd::Analyzed(Some(bpm)),
        r is Indeterminate <==> end == DetectEnd::Analyzed(None),
        r is Unavailable <==> end is NoStream || end is NoPart || end is NoAudio,
{
}

/// [`choose_format`] takes the smallest file that is in the cache; without one the smallest file there is, unless only
/// the cache may be used.
pub proof fn law_choose_format(files: OggFiles, require_cached: bool, r: Option<OggFormat>)
    requires
        call_ensures(choose_format, (files, require_cached), r),
    ensures
        r == (if files.vorbis_96 == Some(true) {
            Some(OggFormat::Vorbis96)
        } else if files.vorbis_160 == Some(true) {
            Some(OggFormat::Vorbis160)
        } else if files.vorbis_320 == Some(true) {
            Some(OggFormat::Vorbis320)
        } else if require_cached {
            None
        } else if files.vorbis_96 is Some {
            Some(OggFormat::Vorbis96)
        } else if files.vorbis_160 is Some {
            Some(OggFormat::Vorbis160)
        } else if files.vorbis_320 is Some {
            Some(OggFormat::Vorbis320)
        } else {
            None
        }),
{
    lemma_may_choose(files, require_cached);
    law_some_file_is_chosen(files, require_cached);
    match r {
        Some(format) => {
            law_smallest_cached_file_is_chosen(files, require_cached, format);
        },
        None => {},
    }
}

/// [`stream_data_rate`] is the format's bitrate in bytes, a kilobyte being 1024.
pub proof fn law_stream_data_rate(format: OggFormat, r: usize)
    requires
        call_ensures(stream_data_rate, (format,), r),
    ensures
        8 * r == 1024 * match format {
            OggFormat::Vorbis96 => 96int,
            OggFormat::Vorbis160 => 160,
            OggFormat::Vorbis320 => 320,
        },
{
}

/// [`find_available`] uses an item that is available and has files, and otherwise has the alternatives looked at, the
/// first of them first; [`judge_alternative`] uses one that is available and has files, and otherwise goes on to the
/// next, until there is none left.
pub proof fn law_search_for_a_playable_item(
    item: ItemState,
    alternatives: Option<usize>,
    first: FindStep,
    index: usize,
    count: usize,
    fetched: Option<ItemState>,
    next: FindStep,
)
    requires
        call_ensures(find_available, (item, alternatives), first),
        index < count,
        call_ensures(judge_alternative, (index, count, fetched), next),
    ensures
        first is UseItem <==> item.available && item.has_files,
        !(first is UseItem) ==> first == (if alternatives is Some && alternatives->0 > 0 {
            FindStep::TryAlternative(0)
        } else {
            FindStep::Unplayable
        }),
        next == FindStep::UseAlternative(index) <==> fetched is Some && fetched->0.available && fetched->0.has_files,
        !(next is UseAlternative) ==> next == (if index + 1 < count {
            FindStep::TryAlternative((index + 1) as usize)
        } else {
            FindStep::Unplayable
        }),
{
    law_search_looks_at_every_alternative(index, count, fetched);
}

/// Whoever seeks through [`subfile_seek`] to a place of the part is told by [`subfile_position`] to be there.
pub proof fn law_seek_and_position(at: u64, offset: u64, target: SeekTarget, position: u64, r: u64)
    requires
        call_ensures(subfile_seek, (SeekTarget::Start(at), offset), target),
        at + offset <= u64::MAX,
        target == SeekTarget::Start(position),
        call_ensures(subfile_position, (position, offset), r),
    ensures
        position == at + offset,
        r == at,
{
    law_part_is_shifted_by_its_offset(at, 0, position, offset);
}

/// Decoding goes on until a minute of samples is at hand, [`enough_samples`] are eight spectra, and an envelope is
/// [`long_enough`] with four times the longest lag.
pub proof fn law_amounts_of_audio(have: usize, wants: bool, enough: bool, len: usize, long: bool)
    requires
        call_ensures(wants_samples, (have,), wants),
        call_ensures(enough_samples, (have,), enough),
        call_ensures(long_enough, (len,), long),
    ensures
        wants <==> have < 60 * 44_100,
        enough <==> have >= 8 * 2048,
        long <==> len >= 348,
{
}

/// [`longest_lag`] is half the window, but no more than 87, and there is none if that is not above 25.
pub proof fn law_longest_lag(window_len: usize, r: Option<usize>)
    requires
        call_ensures(longest_lag, (window_len,), r),
    ensures
        r is Some <==> window_len >= 52,
        r matches Some(lag) ==> 25 < lag <= 87 && 2 * lag <= window_len && (lag == 87 || 2 * lag + 1 >= window_len),
{
}

/// [`comb_lags`] are the lag and its multiples up to four times, as far as they are not above the longest lag.
pub proof fn law_comb_lags(lag: usize, max_lag: usize, r: Vec<usize>, k: int)
    requires
        call_ensures(comb_lags, (lag, max_lag), r),
        0 < lag,
        1 <= k <= 4,
    ensures
        r@.len() <= 4,
        k <= r@.len() <==> lag * k <= max_lag,
        k <= r@.len() ==> r@[k - 1] == lag * k,
{
    if k <= r@.len() {
        assert(r@[k - 1] == lag * k);
    } else {
        assert(lag * k >= lag * (r@.len() + 1)) by (nonlinear_arith)
            requires
                k >= r@.len() + 1,
                lag > 0,
        ;
    }
}

/// [`reference_range`] covers the bins that are no more than three away, and [`trend_range`] the values that are no
/// further away than the radius, as far as there are any.
pub proof fn law_neighbourhoods(
    k: usize,
    bins: usize,
    bin_range: (usize, usize),
    i: usize,
    radius: usize,
    len: usize,
    trend: (usize, usize),
    j: int,
)
    requires
        call_ensures(reference_range, (k, bins), bin_range),
        k < bins,
        call_ensures(trend_range, (i, radius, len), trend),
        i < len,
    ensures
        bin_range.0 <= j < bin_range.1 <==> 0 <= j < bins && k - 3 <= j <= k + 3,
        trend.0 <= j < trend.1 <==> 0 <= j < len && i - radius <= j <= i + radius,
{
}

/// [`frame_starts`] are every 512 samples from the start on, as many as have 2048 samples behind them, and
/// [`window_starts`] every 344 values, as many as have 689 behind them.
pub proof fn law_frames_and_windows(len: usize, frames: Vec<usize>, windows: Vec<usize>, i: int)
    requires
        call_ensures(frame_starts, (len,), frames),
        call_ensures(window_starts, (len,), windows),
        0 <= i,
    ensures
        i < frames@.len() <==> 512 * i + 2048 <= len,
        i < frames@.len() ==> frames@[i] == 512 * i,
        i < windows@.len() <==> 344 * i + 689 <= len,
        i < windows@.len() ==> windows@[i] == 344 * i,
{
    let f = stretch_starts(len as nat, 2048, 512);
    let w = stretch_starts(len as nat, 689, 344);
    assert(numbers_of(frames@).len() == frames@.len());
    assert(numbers_of(windows@).len() == windows@.len());
    law_stretches_fit(len as nat, 2048, 512);
    law_stretches_fit(len as nat, 689, 344);
    if i < frames@.len() {
        assert(numbers_of(frames@)[i] == frames@[i]);
        assert(f[i] == i * 512);
    }
    if i < windows@.len() {
        assert(numbers_of(windows@)[i] == windows@[i]);
        assert(w[i] == i * 344);
    }
}

/// [`mode_bucket`] gives one of the estimates, and none of them is more common, or as common and nearer to 120;
/// without any estimate it gives 120.
pub proof fn law_mode_bucket(rounded: &Vec<i32>, r: i32, i: int)
    requires
        call_ensures(mode_bucket, (rounded,), r),
        0 <= i < rounded@.len(),
    ensures
        rounded@.contains(r),
        ({
            let often = rounded@.to_multiset().count(r);
            let other = rounded@.to_multiset().count(rounded@[i]);
            ||| often > other
            ||| often == other && vstd::math::abs(r - 120) <= vstd::math::abs(rounded@[i] - 120)
        }),
{
    law_common_tempos_win(rounded@, rounded@[i], r);
}

/// [`mode_bucket`] of no estimates is 120.
pub proof fn law_mode_bucket_of_nothing(rounded: &Vec<i32>, r: i32)
    requires
        call_ensures(mode_bucket, (rounded,), r),
        rounded@.len() == 0,
    ensures
        r == 120,
{
}

/// [`pick_octave`] chooses nothing without confidence or periodic candidates; else, of those that are periodic, one
/// with the greatest weight, and the last of them.
pub proof fn law_pick_octave(confident: bool, candidates: &Vec<OctaveCandidate>, r: Option<usize>, j: int)
    requires
        call_ensures(pick_octave, (confident, candidates), r),
        0 <= j < candidates@.len(),
        candidates@[j].periodic,
    ensures
        r is Some <==> confident,
        r matches Some(i) ==> i < candidates@.len() && candidates@[i as int].periodic && (candidates@[j].weight
            < candidates@[i as int].weight || candidates@[j].weight == candidates@[i as int].weight && j <= i),
{
    assert(any_periodic(candidates@));
}

/// [`bucket_members`] marks the estimates that are the bucket's tempo, place by place.
pub proof fn law_bucket_members(rounded: &Vec<i32>, bucket: i32, r: Vec<bool>, i: int)
    requires
        call_ensures(bucket_members, (rounded, bucket), r),
        0 <= i < rounded@.len(),
    ensures
        r@.len() == rounded@.len(),
        r@[i] <==> rounded@[i] == bucket,
{
    law_bucket_has_its_own_estimates(rounded@, bucket);
    assert(in_bucket(rounded@, bucket)[i] == (rounded@[i] == bucket));
}

/// [`log_spaced_band_edges`] of a spectrum that reaches far enough are the bins nearest to nine frequencies spaced
/// evenly, on a logarithmic scale, from 30 to 11000 Hz; of a shorter one no edge lies past its end.
pub proof fn law_log_spaced_band_edges(bins: usize, r: Vec<usize>, k: int)
    requires
        call_ensures(log_spaced_band_edges, (bins,), r),
        bins >= 1,
        0 <= k <= 8,
    ensures
        r@.len() == 9,
        r@[k] <= bins,
        r@[k] < bins ==> eighth((2 * r@[k] - 1) * 44100) <= edge_power(k) < eighth((2 * r@[k] + 1) * 44100),
        r@[k] == bins <==> band_bins()[k] >= bins,
{
    law_band_edges_are_log_spaced(k, bins as int);
    let edges = band_bins().map_values(|bin: int| within_bins(bin, bins as int));
    assert(numbers_of(r@).len() == r@.len());
    assert(numbers_of(r@)[k] == r@[k]);
    assert(edges[k] == within_bins(band_bins()[k], bins as int));
}

/// [`ItemUri::id`] gives the id of every kind of item that has one.
pub proof fn law_id_of_an_item(item: ItemUri, r: Option<u128>)
    requires
        call_ensures(ItemUri::id, (item,), r),
    ensures
        r is None <==> item is Local || item is Unknown,
        r matches Some(id) ==> {
            ||| item == ItemUri::Track(id)
            ||| item == ItemUri::Episode(id)
            ||| item == ItemUri::Album(id)
            ||| item == ItemUri::Artist(id)
            ||| item == ItemUri::Playlist(id)
            ||| item == ItemUri::Show(id)
        },
{
}

/// Of tempos that are as common and as near to 120, [`mode_bucket`] gives the one that comes first: before its first
/// place every estimate is less common, or as common and farther from 120.
pub proof fn law_first_of_equal_tempos_wins(rounded: &Vec<i32>, r: i32)
    requires
        call_ensures(mode_bucket, (rounded,), r),
        rounded@.len() > 0,
    ensures
        exists|at: int|
            {
                &&& 0 <= at < rounded@.len()
                &&& #[trigger] rounded@[at] == r
                &&& forall|j: int|
                    0 <= j < at ==> {
                        let often = rounded@.to_multiset().count(r);
                        let other = rounded@.to_multiset().count(#[trigger] rounded@[j]);
                        ||| often > other
                        ||| often == other && vstd::math::abs(r - 120) < vstd::math::abs(rounded@[j] - 120)
                    }
            },
{
    let at = choose|at: int|
        0 <= at < rounded@.len() && #[trigger] rounded@[at] == r && forall|j: int|
            0 <= j < at ==> better_bucket(rounded@, r, #[trigger] rounded@[j]);
    assert forall|j: int| 0 <= j < at implies {
        let often = rounded@.to_multiset().count(r);
        let other = rounded@.to_multiset().count(#[trigger] rounded@[j]);
        ||| often > other
        ||| often == other && vstd::math::abs(r - 120) < vstd::math::abs(rounded@[j] - 120)
    } by {
        assert(better_bucket(rounded@, r, rounded@[j]));
        law_common_tempos_win(rounded@, r, rounded@[j]);
    }
    assert(rounded@[at] == r);
}

} // verus!
