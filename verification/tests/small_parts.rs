use spotclean::bpm_scanner::{BpmScanner, ScannerConfig};
use spotclean::command::{Command, MoveAmount, MoveMode, SeekDirection, WHOLE_SCREEN};
use spotclean::formatting::{current_bpm, expand_fork_tokens};
use spotclean::keybindings::fork_keybindings;
use spotclean::load_debounce::{LoadDebouncer, LoadStep, LoadTicket};
use spotclean::model::{Episode, Playable, Playlist, Track};
use spotclean::sort::SortState;
use spotclean::text::{
    contains_text, decimal_text, join_commas, pad_right, parse_decimal, same_text,
};

fn track(id: Option<&str>) -> Playable {
    Playable::Track(Track {
        id: id.map(|s| s.to_string()),
        uri: String::new(),
        title: String::new(),
        track_number: 0,
        disc_number: 0,
        duration: 0,
        artists: vec![],
        artist_ids: vec![],
        album: None,
        album_id: None,
        album_artists: vec![],
        cover_url: None,
        url: String::new(),
        added_at: None,
        list_index: 0,
        is_local: false,
        is_playable: None,
    })
}

fn episode() -> Playable {
    Playable::Episode(Episode {
        id: "a".to_string(),
        uri: String::new(),
        name: String::new(),
    })
}

fn playlist(name: &str, ids: &[&str]) -> Playlist {
    Playlist {
        id: name.to_string(),
        name: name.to_string(),
        owner_id: String::new(),
        snapshot_id: String::new(),
        collaborative: false,
        tracks: Some(ids.iter().map(|id| track(Some(id))).collect()),
    }
}

fn filed() -> (SortState, Vec<Playlist>) {
    let mut sort = SortState::create();
    sort.refresh(&vec![
        ("house".to_string(), "1".to_string()),
        ("jazz".to_string(), "2".to_string()),
    ]);
    (sort, vec![playlist("House", &["a", "b"]), playlist("Jazz", &["a"])])
}

fn expand(s: &str, playable: &Playable, bpm: Option<&str>) -> String {
    let (sort, playlists) = filed();
    let text = bpm.map(|t| t.to_string());
    expand_fork_tokens(s.to_string(), playable, &text, &sort, &playlists)
}

#[test]
fn tokens_are_expanded() {
    assert_eq!(
        expand("%saved[%bpm] {%sorted} %bpm", &track(Some("a")), Some("128")),
        "[128] {1,2} 128"
    );
    assert_eq!(expand("%sorted|%bpm", &track(Some("b")), None), "1|");
    assert_eq!(expand("%sorted|%bpm", &track(Some("c")), Some("99")), "|99");
    assert_eq!(expand("%sorted|%bpm", &track(None), Some("99")), "|99");
}

#[test]
fn an_episode_has_no_tempo_and_no_keys() {
    assert_eq!(expand("(%saved%bpm%sorted)", &episode(), Some("128")), "()");
}

#[test]
fn other_text_is_kept() {
    assert_eq!(expand("%artists - %title 100%", &track(Some("a")), None), "%artists - %title 100%");
    assert_eq!(expand("", &track(Some("a")), Some("1")), "");
}

#[test]
fn without_bindings_nothing_counts_as_sorted() {
    let sort = SortState::create();
    let playlists = vec![playlist("House", &["a"])];
    let text = expand_fork_tokens("<%sorted>".to_string(), &track(Some("a")), &None, &sort, &playlists);
    assert_eq!(text, "<>");
}

#[test]
fn the_tempo_is_looked_up_by_id() {
    let cfg = ScannerConfig {
        enrich_metadata: None,
        bpm_scan_enabled: None,
        bpm_scan_delay_secs: None,
        bpm_scan_min_interval_secs: None,
        bpm_scan_full_library: None,
        bpm_scan_cache_full: None,
        bitrate: None,
    };
    let scanner = BpmScanner::new(cfg, &vec![("a".to_string(), 17)]);
    assert_eq!(current_bpm(&track(Some("a")), &scanner), Some(17));
    assert_eq!(current_bpm(&track(Some("b")), &scanner), None);
    assert_eq!(current_bpm(&track(None), &scanner), None);
    assert_eq!(current_bpm(&episode(), &scanner), None);
}

#[test]
fn keys_run_their_commands() {
    let kb = fork_keybindings();
    assert_eq!(kb.len(), 19);
    let has = |key: &str, wanted: &dyn Fn(&[Command]) -> bool| {
        wanted(kb.get(key).expect("the key is bound"))
    };
    let one = MoveAmount::Integer(1);
    assert!(has("q", &|c| matches!(c, [Command::Queue])));
    assert!(has("Shift+q", &|c| matches!(c, [Command::Quit])));
    assert!(has("p", &|c| matches!(c, [Command::TogglePlay])));
    assert!(has("Space", &|c| matches!(c, [Command::TogglePlay])));
    for key in ["<", "2"] {
        assert!(has(key, &|c| matches!(
            c,
            [Command::Previous, Command::Move(MoveMode::Playing, a)] if *a == one
        )));
    }
    for key in [">", "3"] {
        assert!(has(key, &|c| matches!(
            c,
            [Command::Next, Command::Move(MoveMode::Playing, a)] if *a == one
        )));
    }
    assert!(has("Backspace", &|c| matches!(c, [Command::RemoveFromPlaylists])));
    assert!(has("Shift+p", &|c| matches!(c, [Command::Move(MoveMode::Playing, a)] if *a == one)));
    assert!(has("Shift+k", &|c| matches!(
        c,
        [Command::Move(MoveMode::Up, MoveAmount::Integer(5))]
    )));
    assert!(has("Shift+j", &|c| matches!(
        c,
        [Command::Move(MoveMode::Down, MoveAmount::Integer(5))]
    )));
    assert!(has("PageUp", &|c| matches!(
        c,
        [Command::Move(MoveMode::Up, MoveAmount::Float(bits))] if f32::from_bits(*bits) == 1.0
    )));
    assert!(has("PageDown", &|c| matches!(
        c,
        [Command::Move(MoveMode::Down, MoveAmount::Float(bits))] if *bits == WHOLE_SCREEN
    )));
    assert!(has("1", &|c| matches!(c, [Command::Play])));
    assert!(has("`", &|c| matches!(c, [Command::BindKey])));
    assert!(has("'", &|c| matches!(c, [Command::ToggleSortFilter])));
    assert!(has("Shift+Right", &|c| matches!(
        c,
        [Command::Seek(SeekDirection::Relative(10_000))]
    )));
    assert!(has("Shift+Left", &|c| matches!(
        c,
        [Command::Seek(SeekDirection::Relative(-10_000))]
    )));
    assert!(kb.get("F1").is_none());
}

#[test]
fn only_the_last_dispatch_is_loaded() {
    let mut debouncer = LoadDebouncer::new();
    let first = debouncer.dispatch(1_000);
    assert_eq!(first, LoadTicket { generation: 1, due: 1_150 });
    assert_eq!(debouncer.check(first, 1_149), LoadStep::Wait);
    assert_eq!(debouncer.check(first, 1_150), LoadStep::Load);
    let second = debouncer.dispatch(1_050);
    let third = debouncer.dispatch(1_100);
    assert_eq!(debouncer.dispatched(), 3);
    for now in [1_100, 1_250, 9_999] {
        assert_eq!(debouncer.check(first, now), LoadStep::Superseded);
        assert_eq!(debouncer.check(second, now), LoadStep::Superseded);
    }
    assert_eq!(debouncer.check(third, 1_249), LoadStep::Wait);
    assert_eq!(debouncer.check(third, 1_250), LoadStep::Load);
}

#[test]
fn numbers_are_written_and_read() {
    for n in [0, 7, 10, 4096, usize::MAX] {
        assert_eq!(decimal_text(n), n.to_string());
        assert_eq!(parse_decimal(&decimal_text(n)), Some(n));
    }
    for text in ["", "+", "-1", "1x", " 1", "99999999999999999999999", "١"] {
        assert_eq!(parse_decimal(&text.to_string()), text.parse::<usize>().ok());
    }
    for text in ["+5", "007"] {
        assert_eq!(parse_decimal(&text.to_string()), text.parse::<usize>().ok());
    }
}

#[test]
fn columns_and_lists_are_laid_out() {
    assert_eq!(pad_right(&"ab".to_string(), 4), format!("{:<4}", "ab"));
    assert_eq!(pad_right(&"äöü".to_string(), 5), format!("{:<5}", "äöü"));
    assert_eq!(pad_right(&"abcdef".to_string(), 4), "abcdef");
    let words = vec!["a".to_string(), "b".to_string(), "c".to_string()];
    assert_eq!(join_commas(&words), "a,b,c");
    assert_eq!(join_commas(&vec![]), "");
    assert!(contains_text(&words, &"b".to_string()));
    assert!(!contains_text(&words, &"d".to_string()));
    assert!(same_text(&None, &None));
    assert!(!same_text(&Some("a".to_string()), &None));
}
