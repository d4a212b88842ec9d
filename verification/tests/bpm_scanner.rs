use spotclean::bpm::{BpmOutcome, ScanOptions};
use spotclean::bpm_scanner::{
    AnalyzeStep, BpmScanner, PlayingAttempt, PlayingStep, ScanWalk, ScannerConfig, WalkAction,
    IDLE, IDLE_COMPLETE, MAX_DETECT_ATTEMPTS, PAGE, PAGE_LOAD_WAIT, PLAY_CACHE_GRACE,
    PLAY_CACHE_POLL,
};
use spotclean::liked_songs::LikedSongs;
use spotclean::model::Track;

fn config() -> ScannerConfig {
    ScannerConfig {
        enrich_metadata: None,
        bpm_scan_enabled: None,
        bpm_scan_delay_secs: None,
        bpm_scan_min_interval_secs: None,
        bpm_scan_full_library: None,
        bpm_scan_cache_full: None,
        bitrate: None,
    }
}

fn track(id: &str) -> Track {
    Track {
        id: Some(id.to_string()),
        uri: String::new(),
        title: id.to_string(),
        track_number: 0,
        disc_number: 0,
        duration: 0,
        artists: vec![],
        artist_ids: vec![],
        album: None,
        album_id: None,
        album_artists: vec![],
        cover_url: None,
        url: String::new(),
        added_at: None,
        list_index: 0,
        is_local: false,
        is_playable: None,
    }
}

fn liked(ids: &[&str], total: Option<usize>) -> LikedSongs {
    let mut liked = LikedSongs::new();
    liked.load_cache(ids.iter().map(|id| track(id)).collect(), total);
    liked
}

fn walk() -> ScanWalk {
    ScanWalk {
        cursor: 0,
        last_fetch: None,
        backoff_until: None,
        idle_passes: 0,
    }
}

fn analyzed_row(action: WalkAction) -> Option<(usize, String)> {
    match action {
        WalkAction::Analyze(row, track, _) => Some((row, track.id.unwrap())),
        _ => None,
    }
}

fn attempt(step: PlayingStep) -> PlayingAttempt {
    match step {
        PlayingStep::Attempt(attempt) => attempt,
        _ => panic!("an attempt is due"),
    }
}

#[test]
fn stored_tempos_are_known_and_settled() {
    let stored = vec![("a".to_string(), 7u32), ("b".to_string(), 8), ("a".to_string(), 9)];
    let scanner = BpmScanner::new(config(), &stored);
    assert_eq!(scanner.bpm_for(&"a".to_string()), Some(9));
    assert_eq!(scanner.bpm_for(&"b".to_string()), Some(8));
    assert_eq!(scanner.bpm_for(&"c".to_string()), None);
    assert!(scanner.settled(&"a".to_string()));
    assert!(!scanner.wants_bpm_scan(&track("a")));
    assert!(scanner.wants_bpm_scan(&track("c")));
}

#[test]
fn the_walk_can_be_switched_off_by_configuration_and_at_runtime() {
    let off = ScannerConfig { bpm_scan_enabled: Some(false), ..config() };
    assert!(!BpmScanner::new(off, &vec![]).is_enabled());
    assert!(BpmScanner::disconnected(off).is_enabled());
    let mut scanner = BpmScanner::new(config(), &vec![]);
    assert!(scanner.is_enabled());
    assert!(!scanner.toggle_enabled());
    assert!(!scanner.is_enabled());
    assert!(scanner.toggle_enabled());
}

#[test]
fn local_nameless_and_unenriched_tracks_are_not_wanted() {
    let scanner = BpmScanner::new(config(), &vec![]);
    let mut local = track("a");
    local.is_local = true;
    let mut nameless = track("a");
    nameless.id = None;
    assert!(!scanner.wants_bpm_scan(&local));
    assert!(!scanner.wants_bpm_scan(&nameless));
    let plain = ScannerConfig { enrich_metadata: Some(false), ..config() };
    assert!(!BpmScanner::new(plain, &vec![]).wants_bpm_scan(&track("a")));
}

#[test]
fn a_track_is_given_up_on_after_three_failures() {
    let mut scanner = BpmScanner::disconnected(config());
    let id = "a".to_string();
    for n in 0..MAX_DETECT_ATTEMPTS {
        assert!(!scanner.settled(&id), "settled after {n} failures");
        assert_eq!(scanner.analyze(&track("a"), true), AnalyzeStep::Detect);
        let outcome = if n == 0 { BpmOutcome::Indeterminate } else { BpmOutcome::Unavailable };
        assert_eq!(scanner.analyzed(&id, false, outcome), None);
    }
    assert!(scanner.settled(&id));
    assert_eq!(
        scanner.analyze(&track("a"), true),
        AnalyzeStep::Known(BpmOutcome::Indeterminate)
    );
    assert!(!scanner.settled(&"b".to_string()));
}

#[test]
fn a_cache_miss_does_not_count() {
    let mut scanner = BpmScanner::disconnected(config());
    let id = "a".to_string();
    for _ in 0..10 {
        scanner.analyzed(&id, true, BpmOutcome::Unavailable);
    }
    assert!(!scanner.settled(&id));
    for _ in 0..3 {
        scanner.analyzed(&id, true, BpmOutcome::Indeterminate);
    }
    assert!(scanner.settled(&id));
}

#[test]
fn a_detected_tempo_is_kept_and_to_be_stored() {
    let mut scanner = BpmScanner::disconnected(config());
    let id = "a".to_string();
    let bits = 128.0f32.to_bits();
    scanner.analyzed(&id, false, BpmOutcome::Indeterminate);
    assert_eq!(scanner.analyzed(&id, false, BpmOutcome::Detected(bits)), Some(bits));
    assert_eq!(scanner.bpm_for(&id), Some(bits));
    assert_eq!(
        scanner.analyze(&track("a"), false),
        AnalyzeStep::Known(BpmOutcome::Detected(bits))
    );
}

#[test]
fn nothing_is_detected_without_an_id_or_a_session() {
    let scanner = BpmScanner::disconnected(config());
    let mut nameless = track("a");
    nameless.id = None;
    assert_eq!(
        scanner.analyze(&nameless, true),
        AnalyzeStep::Known(BpmOutcome::Unavailable)
    );
    assert_eq!(
        scanner.analyze(&track("a"), false),
        AnalyzeStep::Known(BpmOutcome::Unavailable)
    );
}

#[test]
fn the_walk_skips_settled_rows_and_keeps_its_distance() {
    let mut scanner = BpmScanner::new(config(), &vec![("a".to_string(), 1), ("c".to_string(), 1)]);
    let list = liked(&["a", "b", "c", "d"], Some(4));
    let mut at = walk();
    assert_eq!(analyzed_row(scanner.run(&list, &mut at, 1_000)), Some((1, "b".to_string())));
    scanner.analyzed(&"b".to_string(), false, BpmOutcome::Detected(1));
    BpmScanner::walk_analyzed(&mut at, 1, 2_000);
    assert_eq!(at.cursor, 2);
    // Fifteen seconds between two fetches.
    assert!(matches!(scanner.run(&list, &mut at, 16_999), WalkAction::Nothing));
    assert_eq!(analyzed_row(scanner.run(&list, &mut at, 17_000)), Some((3, "d".to_string())));
}

#[test]
fn the_configured_interval_counts() {
    let cfg = ScannerConfig { bpm_scan_min_interval_secs: Some(2), ..config() };
    let mut scanner = BpmScanner::new(cfg, &vec![]);
    let list = liked(&["a"], Some(1));
    let mut at = walk();
    at.last_fetch = Some(500);
    assert!(matches!(scanner.run(&list, &mut at, 2_499), WalkAction::Nothing));
    assert!(matches!(scanner.run(&list, &mut at, 2_500), WalkAction::Analyze(0, _, _)));
}

#[test]
fn a_walk_that_is_off_does_nothing() {
    let mut scanner = BpmScanner::new(config(), &vec![]);
    scanner.toggle_enabled();
    let list = liked(&["a"], Some(1));
    let mut at = walk();
    assert!(matches!(scanner.run(&list, &mut at, 1), WalkAction::Nothing));
    assert_eq!(at.cursor, 0);
    assert_eq!(at.backoff_until, None);
}

#[test]
fn the_cursor_follows_a_selection_that_rests() {
    let mut scanner = BpmScanner::new(config(), &vec![]);
    let list = liked(&["a", "b", "c"], Some(3));
    let mut at = walk();
    at.backoff_until = Some(1_000_000);
    scanner.note_track_selection(&track("c"), 5_000);
    // Still the same row: the time it has rested goes on.
    scanner.note_track_selection(&track("c"), 5_500);
    assert!(matches!(scanner.run(&list, &mut at, 5_999), WalkAction::Nothing));
    assert_eq!(at.cursor, 0);
    assert_eq!(analyzed_row(scanner.run(&list, &mut at, 6_000)), Some((2, "c".to_string())));
    assert_eq!(at.cursor, 2);
    assert_eq!(scanner.take_dwelled_focus(100_000), None);
}

#[test]
fn a_selection_that_moves_on_starts_its_rest_anew() {
    let mut scanner = BpmScanner::new(config(), &vec![]);
    scanner.note_track_selection(&track("a"), 0);
    scanner.note_track_selection(&track("b"), 900);
    assert_eq!(scanner.take_dwelled_focus(1_800), None);
    assert_eq!(scanner.take_dwelled_focus(1_900), Some("b".to_string()));
    assert_eq!(scanner.take_dwelled_focus(1_900), None);
}

#[test]
fn the_cursor_follows_even_while_fetches_must_wait() {
    let mut scanner = BpmScanner::new(config(), &vec![]);
    let list = liked(&["a", "b", "c"], Some(3));
    let mut at = walk();
    at.last_fetch = Some(10_000);
    scanner.note_track_selection(&track("b"), 10_000);
    assert!(matches!(scanner.run(&list, &mut at, 11_000), WalkAction::Nothing));
    assert_eq!(at.cursor, 1);
}

#[test]
fn more_rows_are_asked_for_at_the_end_of_an_incomplete_list() {
    let mut scanner = BpmScanner::new(config(), &vec![("a".to_string(), 1)]);
    for total in [None, Some(5)] {
        let list = liked(&["a"], total);
        let mut at = walk();
        match scanner.run(&list, &mut at, 100) {
            WalkAction::LoadThrough(row) => assert_eq!(row, 1 + PAGE),
            _ => panic!("the list is not complete"),
        }
        assert_eq!(at.backoff_until, Some(100 + PAGE_LOAD_WAIT));
    }
}

#[test]
fn a_complete_library_is_passed_twice_then_left_alone() {
    let mut scanner = BpmScanner::new(config(), &vec![("a".to_string(), 1)]);
    let list = liked(&["a"], Some(1));
    let mut at = walk();
    at.cursor = 1;
    assert!(matches!(scanner.run(&list, &mut at, 100), WalkAction::Nothing));
    assert_eq!((at.cursor, at.idle_passes, at.backoff_until), (0, 1, None));
    assert!(matches!(scanner.run(&list, &mut at, 500), WalkAction::Nothing));
    assert_eq!((at.idle_passes, at.backoff_until), (2, Some(500 + IDLE_COMPLETE)));
    assert!(matches!(scanner.run(&list, &mut at, 900), WalkAction::Nothing));
    assert_eq!(at.idle_passes, 2);
}

#[test]
fn without_the_full_library_the_walk_just_waits() {
    let cfg = ScannerConfig { bpm_scan_full_library: Some(false), ..config() };
    let mut scanner = BpmScanner::new(cfg, &vec![("a".to_string(), 1)]);
    let list = liked(&["a"], None);
    let mut at = walk();
    assert!(matches!(scanner.run(&list, &mut at, 100), WalkAction::Nothing));
    assert_eq!(at.backoff_until, Some(100 + IDLE));
    assert_eq!(at.cursor, 0);
}

#[test]
fn the_playing_track_is_read_from_the_cache_first() {
    let mut scanner = BpmScanner::new(config(), &vec![]);
    scanner.toggle_enabled();
    assert!(matches!(scanner.handle_playing(0), PlayingStep::Walk));
    scanner.note_track_played(&track("a"), 1_000);
    let first = attempt(scanner.handle_playing(1_000));
    assert_eq!(
        first.options,
        ScanOptions { require_cached: true, bitrate: Some(320), cache_full: true }
    );
    assert!(!first.grace_elapsed);
    scanner.playing_analyzed(&first, BpmOutcome::Unavailable, 1_200);
    assert!(matches!(
        scanner.handle_playing(1_199 + PLAY_CACHE_POLL),
        PlayingStep::Walk
    ));
    let second = attempt(scanner.handle_playing(1_200 + PLAY_CACHE_POLL));
    assert!(second.options.require_cached);
    let last = attempt(scanner.handle_playing(1_000 + PLAY_CACHE_GRACE));
    assert!(last.grace_elapsed);
    assert!(!last.options.require_cached);
    scanner.playing_analyzed(&last, BpmOutcome::Unavailable, 1_000 + PLAY_CACHE_GRACE);
    assert!(matches!(scanner.handle_playing(10_000_000), PlayingStep::Walk));
}

#[test]
fn the_playing_track_is_dropped_once_it_is_settled() {
    let mut scanner = BpmScanner::new(config(), &vec![]);
    scanner.note_track_played(&track("a"), 0);
    scanner.analyzed(&"a".to_string(), false, BpmOutcome::Detected(5));
    assert!(matches!(scanner.handle_playing(0), PlayingStep::Dropped));
    assert!(matches!(scanner.handle_playing(0), PlayingStep::Walk));
    scanner.note_track_played(&track("a"), 0);
    assert!(matches!(scanner.handle_playing(0), PlayingStep::Walk));
}

#[test]
fn a_newer_playing_track_is_left_alone_by_an_older_attempt() {
    let mut scanner = BpmScanner::new(config(), &vec![]);
    scanner.note_track_played(&track("a"), 0);
    let old = attempt(scanner.handle_playing(0));
    scanner.note_track_played(&track("b"), 10);
    scanner.playing_analyzed(&old, BpmOutcome::Indeterminate, 20);
    let new = attempt(scanner.handle_playing(30));
    assert_eq!(new.track.id, Some("b".to_string()));
    scanner.playing_analyzed(&new, BpmOutcome::Indeterminate, 40);
    assert!(matches!(scanner.handle_playing(50), PlayingStep::Walk));
}

#[test]
fn fetch_options_follow_the_configuration() {
    let cfg = ScannerConfig { bitrate: Some(160), ..config() };
    assert_eq!(
        BpmScanner::disconnected(cfg).cdn_scan_options(),
        ScanOptions { require_cached: false, bitrate: Some(160), cache_full: true }
    );
    let small = ScannerConfig { bpm_scan_cache_full: Some(false), bitrate: Some(160), ..config() };
    let mut scanner = BpmScanner::disconnected(cfg);
    scanner.set_config(small);
    assert_eq!(scanner.cdn_scan_options(), ScanOptions::default());
}

#[test]
fn the_walk_gives_out_a_track_with_the_options_of_a_fetch() {
    let list = liked(&["a"], Some(1));
    let cfg = ScannerConfig { bitrate: Some(160), ..config() };
    let mut scanner = BpmScanner::new(cfg, &vec![]);
    match scanner.run(&list, &mut walk(), 0) {
        WalkAction::Analyze(0, _, options) => assert_eq!(
            options,
            ScanOptions { require_cached: false, bitrate: Some(160), cache_full: true }
        ),
        _ => panic!("the row has to be analysed"),
    }
    scanner.set_config(ScannerConfig { bpm_scan_cache_full: Some(false), ..cfg });
    match scanner.run(&list, &mut walk(), 0) {
        WalkAction::Analyze(0, _, options) => assert_eq!(options, ScanOptions::default()),
        _ => panic!("the row has to be analysed"),
    }
}

#[test]
fn an_outcome_for_a_settled_track_is_taken_note_of() {
    let mut scanner = BpmScanner::disconnected(config());
    let id = "a".to_string();
    for _ in 0..300 {
        scanner.analyzed(&id, false, BpmOutcome::Indeterminate);
    }
    assert!(scanner.settled(&id));
    assert_eq!(scanner.analyzed(&id, false, BpmOutcome::Detected(4)), Some(4));
    assert_eq!(scanner.bpm_for(&id), Some(4));
    assert_eq!(scanner.analyzed(&id, false, BpmOutcome::Detected(5)), Some(5));
    assert_eq!(scanner.bpm_for(&id), Some(5));
}
