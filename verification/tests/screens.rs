use spotclean::bpm_scanner::{BpmScanner, ScannerConfig};
use spotclean::command::{Command, MoveAmount, MoveMode};
use spotclean::liked_songs::LikedSongs;
use spotclean::model::{Playable, Playlist, Track};
use spotclean::sort::{
    apply_playlist_mutation, occurrences_deleted, track_appended, MutationStep, SortState,
};
use spotclean::ui::bind_key_menu::{clear_binding, BindKeyMenu, MenuAction};
use spotclean::ui::saved_tracks::{CommandAction, SavedTracksView, LOOKAHEAD};

fn track(id: &str) -> Track {
    Track {
        id: Some(id.to_string()),
        uri: String::new(),
        title: id.to_string(),
        track_number: 0,
        disc_number: 0,
        duration: 0,
        artists: vec![],
        artist_ids: vec![],
        album: None,
        album_id: None,
        album_artists: vec![],
        cover_url: None,
        url: String::new(),
        added_at: None,
        list_index: 0,
        is_local: false,
        is_playable: None,
    }
}

fn playlist(id: &str, name: &str, ids: &[&str]) -> Playlist {
    Playlist {
        id: id.to_string(),
        name: name.to_string(),
        owner_id: "me".to_string(),
        snapshot_id: String::new(),
        collaborative: false,
        tracks: Some(ids.iter().map(|t| Playable::Track(track(t))).collect()),
    }
}

fn pairs(bindings: &[(&str, &str)]) -> Vec<(String, String)> {
    bindings
        .iter()
        .map(|(name, key)| (name.to_string(), key.to_string()))
        .collect()
}

fn liked(ids: &[&str], total: Option<usize>) -> LikedSongs {
    let mut liked = LikedSongs::new();
    liked.load_cache(ids.iter().map(|id| track(id)).collect(), total);
    liked
}

fn bound(bindings: &[(&str, &str)]) -> SortState {
    let mut sort = SortState::create();
    sort.refresh(&pairs(bindings));
    sort
}

fn shown(view: &SavedTracksView) -> Vec<String> {
    view.content().iter().filter_map(|t| t.id.clone()).collect()
}

fn add_to(name: &str) -> Command {
    Command::AddToPlaylist(name.to_string())
}

/// Carry out all queued mutations on the playlists, as if the service agreed to everything.
fn carry_out(sort: &mut SortState, playlists: &mut Vec<Playlist>) {
    while let Some(mutation) = sort.next_mutation() {
        let track = mutation.track.clone();
        let mut run = apply_playlist_mutation(mutation);
        loop {
            match run.next_step(playlists) {
                MutationStep::Append(p) => {
                    let at = playlists.iter().position(|q| q.id == p.id).unwrap();
                    track_appended(&mut playlists[at], track.clone(), true);
                    run.append_done(true);
                }
                MutationStep::Delete(p, _) => {
                    let at = playlists.iter().position(|q| q.id == p.id).unwrap();
                    occurrences_deleted(&mut playlists[at], track.id.as_ref().unwrap(), true);
                }
                MutationStep::Done => break,
            }
        }
    }
}

fn holding(playlists: &[Playlist], id: &str) -> Vec<String> {
    playlists
        .iter()
        .filter(|p| p.has_track(&id.to_string()))
        .map(|p| p.name.clone())
        .collect()
}

#[test]
fn the_whole_list_is_shown_at_first() {
    let liked = liked(&["a", "b"], Some(7));
    let sort = bound(&[("house", "1")]);
    let playlists = vec![playlist("h", "House", &["a"])];
    let view = SavedTracksView::new(&liked, &sort, &playlists);
    assert_eq!(shown(&view), vec!["a", "b"]);
    assert_eq!(view.title(), "Tracks");
    assert_eq!(view.virtual_len(&liked), 7);
    assert!(!view.wrap_needs_relayout(&liked, false));
    assert!(view.wrap_needs_relayout(&liked, true));
}

#[test]
fn the_filter_hides_what_is_filed_and_is_announced() {
    let liked = liked(&["a", "b", "c"], Some(3));
    let mut sort = bound(&[("house", "1")]);
    let playlists = vec![playlist("h", "HOUSE", &["b"]), playlist("j", "Jazz", &["c"])];
    let mut view = SavedTracksView::new(&liked, &sort, &playlists);
    for (message, rows, virtual_len) in [
        ("Hiding already-sorted tracks: on", vec!["a", "c"], 0),
        ("Hiding already-sorted tracks: off", vec!["a", "b", "c"], 3),
    ] {
        let result = view.on_command(
            &Command::ToggleSortFilter,
            0,
            &None,
            false,
            &liked,
            &playlists,
            &mut sort,
        );
        match result {
            Ok(CommandAction::Refiltered(text)) => assert_eq!(text, message),
            _ => panic!("the filter has been switched"),
        }
        assert_eq!(shown(&view), rows);
        assert_eq!(view.virtual_len(&liked), virtual_len);
    }
}

#[test]
fn rows_without_an_id_are_never_hidden() {
    let mut nameless = track("b");
    nameless.id = None;
    let mut liked = LikedSongs::new();
    liked.load_cache(vec![track("a"), nameless], None);
    let mut sort = bound(&[("house", "1")]);
    let playlists = vec![playlist("h", "House", &["a"])];
    let mut view = SavedTracksView::new(&liked, &sort, &playlists);
    view.on_command(&Command::ToggleSortFilter, 0, &None, false, &liked, &playlists, &mut sort)
        .unwrap_or(CommandAction::Nothing);
    assert_eq!(view.content().len(), 1);
    assert!(view.content()[0].id.is_none());
    assert_eq!(view.virtual_len(&liked), 0);
}

#[test]
fn the_view_follows_changes_of_the_list() {
    let mut list = liked(&["a"], None);
    let sort = bound(&[]);
    let playlists = vec![];
    let mut view = SavedTracksView::new(&list, &sort, &playlists);
    list.apply_saved_added(&vec![track("n")]);
    assert!(view.wrap_needs_relayout(&list, false));
    view.sync(&list, &sort, &playlists);
    assert_eq!(shown(&view), vec!["n", "a"]);
    assert!(!view.wrap_needs_relayout(&list, false));
}

#[test]
fn going_back_is_left_to_the_queue_and_other_commands_to_the_list() {
    let liked = liked(&["a"], None);
    let mut sort = bound(&[]);
    let playlists = vec![];
    let mut view = SavedTracksView::new(&liked, &sort, &playlists);
    assert!(matches!(
        view.on_command(&Command::Previous, 0, &None, false, &liked, &playlists, &mut sort),
        Ok(CommandAction::GoBack)
    ));
    assert!(matches!(
        view.on_command(&Command::Queue, 0, &None, false, &liked, &playlists, &mut sort),
        Ok(CommandAction::Pass)
    ));
    assert!(sort.next_mutation().is_none());
}

#[test]
fn an_unknown_playlist_is_an_error() {
    let liked = liked(&["a"], None);
    let mut sort = bound(&[]);
    let playlists = vec![playlist("h", "House", &[])];
    let mut view = SavedTracksView::new(&liked, &sort, &playlists);
    match view.on_command(&add_to("Trance"), 0, &None, false, &liked, &playlists, &mut sort) {
        Err(message) => assert_eq!(message, "No playlist named \"Trance\""),
        Ok(_) => panic!("there is no such playlist"),
    }
    assert!(matches!(
        view.on_command(&add_to("Trance"), 9, &None, false, &liked, &playlists, &mut sort),
        Ok(CommandAction::Nothing)
    ));
    assert!(matches!(
        view.on_command(&Command::RemoveFromPlaylists, 9, &None, false, &liked, &playlists, &mut sort),
        Ok(CommandAction::Nothing)
    ));
}

#[test]
fn pressing_a_key_twice_restores_the_playlists() {
    let liked = liked(&["s"], None);
    let mut sort = bound(&[("t", "1"), ("x", "2")]);
    let mut playlists = vec![
        playlist("1", "X", &["s", "o"]),
        playlist("2", "Y", &["s"]),
        playlist("3", "Z", &["s"]),
        playlist("4", "T", &["o"]),
    ];
    let mut view = SavedTracksView::new(&liked, &sort, &playlists);
    for expected in [vec!["X", "Y", "Z", "T"], vec!["X", "Y", "Z"]] {
        let result = view.on_command(&add_to("t"), 0, &None, true, &liked, &playlists, &mut sort);
        assert!(matches!(
            result,
            Ok(CommandAction::Filed { advance: false, row_gone: false })
        ));
        carry_out(&mut sort, &mut playlists);
        assert_eq!(holding(&playlists, "s"), expected);
    }
    assert_eq!(holding(&playlists, "o"), vec!["X", "T"]);
    assert_eq!(shown(&view), vec!["s"]);
}

#[test]
fn a_second_press_removes_every_copy() {
    let liked = liked(&["s"], None);
    let mut sort = bound(&[("t", "1")]);
    let mut playlists = vec![playlist("4", "T", &["s", "o", "s"])];
    let mut view = SavedTracksView::new(&liked, &sort, &playlists);
    view.on_command(&add_to("T"), 0, &None, false, &liked, &playlists, &mut sort)
        .unwrap_or(CommandAction::Nothing);
    carry_out(&mut sort, &mut playlists);
    assert_eq!(playlists[0].tracks.as_ref().unwrap().len(), 1);
}

#[test]
fn while_hiding_the_filed_row_goes_and_playback_goes_on() {
    let liked = liked(&["a", "b", "a"], None);
    let mut sort = bound(&[("house", "1")]);
    let playlists = vec![playlist("h", "House", &[])];
    for (current, playing, advances) in [
        (Some("a".to_string()), true, true),
        (Some("a".to_string()), false, false),
        (Some("b".to_string()), true, false),
        (None, true, false),
    ] {
        let mut view = SavedTracksView::new(&liked, &sort, &playlists);
        view.on_command(&Command::ToggleSortFilter, 0, &None, false, &liked, &playlists, &mut sort)
            .unwrap_or(CommandAction::Nothing);
        match view.on_command(&add_to("house"), 0, &current, playing, &liked, &playlists, &mut sort) {
            Ok(CommandAction::Filed { advance, row_gone }) => {
                assert_eq!(advance, advances);
                assert!(row_gone);
            }
            _ => panic!("the track is filed"),
        }
        assert_eq!(shown(&view), vec!["b"]);
    }
}

#[test]
fn backspace_takes_the_track_out_of_every_bound_playlist_only() {
    let liked = liked(&["s"], None);
    let mut sort = bound(&[("x", "1"), ("y", "2")]);
    let mut playlists = vec![
        playlist("1", "X", &["s", "s"]),
        playlist("2", "Y", &["o", "s"]),
        playlist("3", "Unbound", &["s"]),
    ];
    let mut view = SavedTracksView::new(&liked, &sort, &playlists);
    let result =
        view.on_command(&Command::RemoveFromPlaylists, 0, &None, false, &liked, &playlists, &mut sort);
    assert!(matches!(result, Ok(CommandAction::Unfiled)));
    carry_out(&mut sort, &mut playlists);
    assert_eq!(holding(&playlists, "s"), vec!["Unbound"]);
    assert_eq!(holding(&playlists, "o"), vec!["Y"]);
    assert_eq!(shown(&view), vec!["s"]);
}

#[test]
fn loading_keeps_ahead_of_the_screen() {
    let ids: Vec<String> = (0..50).map(|i| format!("t{i}")).collect();
    let refs: Vec<&str> = ids.iter().map(|s| s.as_str()).collect();
    let list = liked(&refs, None);
    let mut sort = bound(&[("house", "1")]);
    let half: Vec<&str> = refs.iter().step_by(2).copied().collect();
    let playlists = vec![playlist("h", "House", &half)];
    let mut view = SavedTracksView::new(&list, &sort, &playlists);
    assert_eq!(view.keep_ahead(10, &list), Some(10 + 2 * LOOKAHEAD));
    view.on_command(&Command::ToggleSortFilter, 0, &None, false, &list, &playlists, &mut sort)
        .unwrap_or(CommandAction::Nothing);
    // Half of the rows are shown, so twice as many are needed.
    assert_eq!(view.keep_ahead(10, &list), Some(2 * (10 + LOOKAHEAD) + LOOKAHEAD));
    let empty = liked(&[], None);
    let blank = SavedTracksView::new(&empty, &sort, &playlists);
    assert_eq!(blank.keep_ahead(0, &empty), Some(2 * LOOKAHEAD));
    let many: Vec<String> = (0..150).map(|i| format!("m{i}")).collect();
    let many_refs: Vec<&str> = many.iter().map(|s| s.as_str()).collect();
    let long = liked(&many_refs, None);
    let full = SavedTracksView::new(&long, &sort, &playlists);
    assert_eq!(full.keep_ahead(50, &long), None);
    assert!(full.keep_ahead(51, &long).is_some());
}

#[test]
fn the_scanner_hears_of_the_selected_row() {
    let liked = liked(&["a", "b"], None);
    let sort = bound(&[]);
    let playlists = vec![];
    let view = SavedTracksView::new(&liked, &sort, &playlists);
    let mut scanner = BpmScanner::disconnected(ScannerConfig {
        enrich_metadata: None,
        bpm_scan_enabled: None,
        bpm_scan_delay_secs: Some(0),
        bpm_scan_min_interval_secs: None,
        bpm_scan_full_library: None,
        bpm_scan_cache_full: None,
        bitrate: None,
    });
    view.notify_selected(5, &mut scanner, 0);
    assert_eq!(scanner.take_dwelled_focus(0), None);
    view.notify_selected(1, &mut scanner, 0);
    assert_eq!(scanner.take_dwelled_focus(0), Some("b".to_string()));
}

#[test]
fn the_menu_lists_own_and_collaborative_playlists_with_their_keys() {
    let mut shared = playlist("2", "Shared", &[]);
    shared.owner_id = "you".to_string();
    shared.collaborative = true;
    let mut foreign = playlist("3", "Foreign", &[]);
    foreign.owner_id = "you".to_string();
    let long = playlist("4", "A playlist with quite a long name", &[]);
    let playlists = vec![playlist("1", "House", &[]), shared, foreign, long];
    let bindings = pairs(&[("house", "1"), ("foreign", "2")]);
    let menu = BindKeyMenu::bind_key_dialog(&playlists, &"me".to_string(), &bindings);
    let labels: Vec<String> = menu.rows().unwrap().iter().map(|r| r.label.clone()).collect();
    assert_eq!(
        labels,
        vec![
            format!("{:<24} 1", "House"),
            format!("{:<24} -", "Shared"),
            "A playlist with quite a long name -".to_string(),
        ]
    );
    assert_eq!(menu.rows().unwrap()[1].playlist.id, "2");
}

#[test]
fn a_key_is_bound_at_the_prompt() {
    let playlists = vec![playlist("1", "House", &[])];
    let mut menu = BindKeyMenu::bind_key_dialog(&playlists, &"me".to_string(), &vec![]);
    assert!(menu.bind_key_prompt_dialog(&"x".to_string()).is_none());
    menu.choose_row(7);
    assert!(menu.rows().is_some());
    menu.choose_row(0);
    assert!(menu.rows().is_none());
    assert!(menu.bind_key_prompt_dialog(&String::new()).is_none());
    let binding = menu.bind_key_prompt_dialog(&"x".to_string()).unwrap();
    assert_eq!(binding.key, "x");
    assert_eq!(binding.command, "addtoplaylist House");
    assert_eq!(binding.message, "Bound \"x\" to playlist \"House\"");
    // Backspace edits the key that is being typed.
    assert!(menu.wrap_on_event(true, Some(0)).is_none());
}

#[test]
fn backspace_clears_the_binding_of_an_entry() {
    let playlists = vec![playlist("1", "House", &[]), playlist("2", "Jazz", &[])];
    let bindings = pairs(&[("house", "x")]);
    let menu = BindKeyMenu::bind_key_dialog(&playlists, &"me".to_string(), &bindings);
    assert!(menu.wrap_on_event(false, Some(0)).is_none());
    assert!(menu.wrap_on_event(true, None).is_none());
    assert!(menu.wrap_on_event(true, Some(2)).is_none());
    let house = menu.wrap_on_event(true, Some(0)).unwrap();
    let cleared = clear_binding(&bindings, &house).unwrap();
    assert_eq!(cleared.key, "x");
    assert_eq!(cleared.message, "Unbound \"x\" from playlist \"House\"");
    let jazz = menu.wrap_on_event(true, Some(1)).unwrap();
    assert!(clear_binding(&bindings, &jazz).is_none());
}

#[test]
fn the_menu_takes_moves_and_closes_on_back() {
    let playlists = vec![playlist("1", "House", &[])];
    let mut menu = BindKeyMenu::bind_key_dialog(&playlists, &"me".to_string(), &vec![]);
    let down = Command::Move(MoveMode::Down, MoveAmount::default());
    assert_eq!(menu.on_command(&down), MenuAction::Select);
    assert_eq!(menu.on_command(&Command::Back), MenuAction::Close);
    assert_eq!(menu.on_command(&Command::Quit), MenuAction::Nothing);
    menu.choose_row(0);
    assert_eq!(menu.on_command(&down), MenuAction::Nothing);
}
