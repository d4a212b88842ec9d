use spotclean::bpm::{
    begin_detection, bucket_members, choose_format, comb_lags, detect_bpm, detection_ended,
    enough_samples, find_available, frame_starts, judge_alternative, log_spaced_band_edges,
    long_enough, longest_lag, mode_bucket, pick_octave, reference_range, stream_data_rate,
    subfile_position, subfile_seek, trend_range, wants_samples, window_starts, BpmOutcome,
    DetectEnd, DetectStep, FindStep, ItemState, ItemUri, OctaveCandidate, OggFiles, OggFormat, ScanOptions,
    SeekTarget, ANALYSIS_SAMPLES, BANDS, BINS, FFT_SIZE, HOP, MAX_LAG, MIN_LAG, SAMPLE_RATE,
    TREND_RADIUS, WINDOW, WINDOW_HOP,
};
use spotclean::model::Track;

fn track_with_uri(uri: &str) -> Track {
    Track {
        id: None,
        uri: uri.to_string(),
        title: String::new(),
        track_number: 0,
        disc_number: 0,
        duration: 0,
        artists: vec![],
        artist_ids: vec![],
        album: None,
        album_id: None,
        album_artists: vec![],
        cover_url: None,
        url: String::new(),
        added_at: None,
        list_index: 0,
        is_local: false,
        is_playable: None,
    }
}

#[test]
fn a_detection_starts_from_the_id_in_the_uri() {
    let track = track_with_uri("spotify:track:0000000000000000000010");
    assert_eq!(detect_bpm(&track, true), DetectStep::OpenAudio(ItemUri::Track(62), 62));
    let episode = track_with_uri("spotify:episode:0000000000000000000011");
    assert_eq!(detect_bpm(&episode, true), DetectStep::OpenAudio(ItemUri::Episode(63), 63));
    assert_eq!(
        detect_bpm(&track, false),
        DetectStep::Known(BpmOutcome::Unavailable)
    );
    for uri in [
        "",
        "spotify:track:tooshort",
        "spotify:local:artist:album:title:10",
        "https://example.org/track",
    ] {
        assert_eq!(
            detect_bpm(&track_with_uri(uri), true),
            DetectStep::Known(BpmOutcome::Unavailable)
        );
    }
    assert_eq!(
        begin_detection(Some(ItemUri::Show(5)), true),
        DetectStep::OpenAudio(ItemUri::Show(5), 5)
    );
    for item in [ItemUri::Local, ItemUri::Unknown] {
        assert_eq!(item.id(), None);
        assert_eq!(
            begin_detection(Some(item), true),
            DetectStep::Known(BpmOutcome::Unavailable)
        );
    }
    for item in [
        ItemUri::Album(9),
        ItemUri::Artist(9),
        ItemUri::Episode(9),
        ItemUri::Playlist(9),
        ItemUri::Track(9),
    ] {
        assert_eq!(item.id(), Some(9));
    }
    assert_eq!(
        begin_detection(None, true),
        DetectStep::Known(BpmOutcome::Unavailable)
    );
}

#[test]
fn a_detection_ends_with_a_tempo_none_or_no_audio() {
    assert_eq!(
        detection_ended(DetectEnd::Analyzed(Some(3))),
        BpmOutcome::Detected(3)
    );
    assert_eq!(
        detection_ended(DetectEnd::Analyzed(None)),
        BpmOutcome::Indeterminate
    );
    for end in [DetectEnd::NoStream, DetectEnd::NoPart, DetectEnd::NoAudio] {
        assert_eq!(detection_ended(end), BpmOutcome::Unavailable);
    }
    assert_eq!(
        ScanOptions::default(),
        ScanOptions { require_cached: false, bitrate: None, cache_full: false }
    );
}

#[test]
fn a_cached_file_is_preferred_to_a_smaller_one() {
    let files = OggFiles { vorbis_96: Some(false), vorbis_160: None, vorbis_320: Some(true) };
    assert_eq!(choose_format(files, false), Some(OggFormat::Vorbis320));
    assert_eq!(choose_format(files, true), Some(OggFormat::Vorbis320));
    let uncached = OggFiles { vorbis_96: None, vorbis_160: Some(false), vorbis_320: Some(false) };
    assert_eq!(choose_format(uncached, false), Some(OggFormat::Vorbis160));
    assert_eq!(choose_format(uncached, true), None);
    let none = OggFiles { vorbis_96: None, vorbis_160: None, vorbis_320: None };
    assert_eq!(choose_format(none, false), None);
}

#[test]
fn data_rates_match_the_formats() {
    assert_eq!(stream_data_rate(OggFormat::Vorbis96), 12_288);
    assert_eq!(stream_data_rate(OggFormat::Vorbis160), 20_480);
    assert_eq!(stream_data_rate(OggFormat::Vorbis320), 40_960);
}

#[test]
fn the_first_playable_alternative_is_taken() {
    let good = ItemState { available: true, has_files: true };
    let bare = ItemState { available: true, has_files: false };
    let gone = ItemState { available: false, has_files: true };
    assert_eq!(find_available(good, Some(3)), FindStep::UseItem);
    assert_eq!(find_available(gone, Some(3)), FindStep::TryAlternative(0));
    assert_eq!(find_available(gone, None), FindStep::Unplayable);
    assert_eq!(find_available(bare, None), FindStep::Unplayable);
    assert_eq!(find_available(bare, Some(0)), FindStep::Unplayable);
    assert_eq!(find_available(bare, Some(3)), FindStep::TryAlternative(0));
    assert_eq!(judge_alternative(0, 3, None), FindStep::TryAlternative(1));
    assert_eq!(judge_alternative(1, 3, Some(bare)), FindStep::TryAlternative(2));
    assert_eq!(judge_alternative(2, 3, Some(good)), FindStep::UseAlternative(2));
    assert_eq!(judge_alternative(2, 3, Some(gone)), FindStep::Unplayable);
}

#[test]
fn positions_are_counted_from_behind_the_header() {
    assert_eq!(subfile_seek(SeekTarget::Start(10), 0xa7), SeekTarget::Start(0xb1));
    assert_eq!(subfile_seek(SeekTarget::End(-5), 0xa7), SeekTarget::End(-5));
    assert_eq!(subfile_seek(SeekTarget::Current(5), 0xa7), SeekTarget::Current(5));
    assert_eq!(subfile_position(0xb1, 0xa7), 10);
    assert_eq!(subfile_position(3, 0xa7), 0);
}

#[test]
fn a_minute_of_audio_is_decoded_and_eight_frames_are_needed() {
    assert_eq!(ANALYSIS_SAMPLES, SAMPLE_RATE * 60);
    assert!(wants_samples(ANALYSIS_SAMPLES - 1));
    assert!(!wants_samples(ANALYSIS_SAMPLES));
    assert!(!enough_samples(16_383));
    assert!(enough_samples(16_384));
}

#[test]
fn frames_and_windows_cover_what_fits() {
    assert!(frame_starts(FFT_SIZE - 1).is_empty());
    assert_eq!(frame_starts(FFT_SIZE), vec![0]);
    assert_eq!(frame_starts(FFT_SIZE + 2 * HOP), vec![0, HOP, 2 * HOP]);
    assert_eq!(frame_starts(FFT_SIZE + 2 * HOP - 1), vec![0, HOP]);
    assert_eq!(window_starts(WINDOW + WINDOW_HOP), vec![0, WINDOW_HOP]);
}

#[test]
fn constants_agree_with_the_rates_they_stand_for() {
    let onset_rate = SAMPLE_RATE as f32 / HOP as f32;
    assert_eq!(MIN_LAG, (60.0 * onset_rate / 200.0).floor().max(1.0) as usize);
    assert_eq!(MAX_LAG, (60.0 * onset_rate / 60.0).ceil() as usize);
    assert_eq!(WINDOW, (8.0 * onset_rate) as usize);
    assert_eq!(WINDOW_HOP, (4.0 * onset_rate) as usize);
    assert_eq!(TREND_RADIUS, (onset_rate * 0.5) as usize);
    assert_eq!(BINS, FFT_SIZE / 2 + 1);
}

#[test]
fn band_edges_are_spaced_logarithmically() {
    let bin_of = |hz: f32, bins: usize| {
        ((hz * FFT_SIZE as f32 / SAMPLE_RATE as f32).round() as usize).clamp(1, bins)
    };
    let (lo, hi) = (30.0f32.ln(), 11_000.0f32.ln());
    for bins in [1, 2, 13, 100, 511, BINS, 4000] {
        let expected: Vec<usize> = (0..=BANDS)
            .map(|b| bin_of((lo + b as f32 / BANDS as f32 * (hi - lo)).exp(), bins))
            .collect();
        assert_eq!(log_spaced_band_edges(bins), expected);
    }
}

#[test]
fn short_envelopes_have_no_tempo() {
    assert!(!long_enough(347));
    assert!(long_enough(348));
    assert_eq!(longest_lag(51), None);
    assert_eq!(longest_lag(52), Some(26));
    assert_eq!(longest_lag(1000), Some(MAX_LAG));
}

#[test]
fn the_comb_takes_the_multiples_that_fit() {
    assert_eq!(comb_lags(25, 87), vec![25, 50, 75]);
    assert_eq!(comb_lags(20, 87), vec![20, 40, 60, 80]);
    assert_eq!(comb_lags(87, 87), vec![87]);
    assert!(comb_lags(88, 87).is_empty());
}

#[test]
fn neighbourhoods_stay_within_bounds() {
    assert_eq!(reference_range(0, 1025), (0, 4));
    assert_eq!(reference_range(10, 1025), (7, 14));
    assert_eq!(reference_range(1024, 1025), (1021, 1025));
    assert_eq!(trend_range(0, 43, 100), (0, 44));
    assert_eq!(trend_range(99, 43, 100), (56, 100));
}

#[test]
fn the_mode_wins_and_ties_go_towards_120() {
    assert_eq!(mode_bucket(&vec![]), 120);
    assert_eq!(mode_bucket(&vec![90, 128, 90]), 90);
    assert_eq!(mode_bucket(&vec![90, 128, 90, 128]), 128);
    assert_eq!(mode_bucket(&vec![70, 200, 119]), 119);
    // As common and as near: the one that comes first.
    assert_eq!(mode_bucket(&vec![125, 90, 115]), 125);
    assert_eq!(mode_bucket(&vec![90, 115, 125]), 115);
    assert_eq!(
        bucket_members(&vec![128, 127, 128, 64], 128),
        vec![true, false, true, false]
    );
}

#[test]
fn the_octave_goes_to_the_periodic_candidate_of_greatest_weight() {
    let candidate = |periodic, weight| OctaveCandidate { periodic, weight };
    let all = vec![candidate(true, 5), candidate(false, 9), candidate(true, 7)];
    assert_eq!(pick_octave(true, &all), Some(2));
    assert_eq!(pick_octave(false, &all), None);
    assert_eq!(pick_octave(true, &vec![candidate(false, 1)]), None);
    let equal = vec![candidate(true, 5), candidate(true, 5)];
    assert_eq!(pick_octave(true, &equal), Some(1));
}
