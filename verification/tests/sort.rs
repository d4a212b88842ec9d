use spotclean::model::{Episode, Playable, Playlist, Track};
use spotclean::sort::{
    apply_playlist_mutation, delete_all_occurrences, occurrences_deleted, playlist_by_id,
    track_appended, DeletePlan, MutationPhase, MutationStep, SortState, SortStatus,
};

fn track(id: &str) -> Track {
    Track {
        id: Some(id.to_string()),
        uri: String::new(),
        title: id.to_string(),
        track_number: 0,
        disc_number: 0,
        duration: 0,
        artists: vec![],
        artist_ids: vec![],
        album: None,
        album_id: None,
        album_artists: vec![],
        cover_url: None,
        url: String::new(),
        added_at: None,
        list_index: 0,
        is_local: false,
        is_playable: None,
    }
}

fn playlist(id: &str, name: &str, ids: &[&str]) -> Playlist {
    Playlist {
        id: id.to_string(),
        name: name.to_string(),
        owner_id: "me".to_string(),
        snapshot_id: String::new(),
        collaborative: false,
        tracks: Some(ids.iter().map(|t| Playable::Track(track(t))).collect()),
    }
}

fn pairs(bindings: &[(&str, &str)]) -> Vec<(String, String)> {
    bindings
        .iter()
        .map(|(name, key)| (name.to_string(), key.to_string()))
        .collect()
}

fn item_ids(playlist: &Playlist) -> Vec<String> {
    playlist.tracks.iter().flatten().filter_map(|t| t.id()).collect()
}

fn keys_of(state: &SortState, playlists: &Vec<Playlist>, id: &str) -> Option<Vec<String>> {
    match state.sort_status(playlists, &id.to_string()) {
        SortStatus::Unavailable => None,
        SortStatus::Unsorted => Some(vec![]),
        SortStatus::Sorted(keys) => Some(keys),
    }
}

#[test]
fn status_is_unavailable_without_bindings() {
    let state = SortState::create();
    let playlists = vec![playlist("1", "House", &["a"])];
    assert!(matches!(
        state.sort_status(&playlists, &"a".to_string()),
        SortStatus::Unavailable
    ));
    assert!(state.bound_playlist_names().is_empty());
}

#[test]
fn status_names_the_keys_of_all_bound_playlists() {
    let mut state = SortState::create();
    state.refresh(&pairs(&[("house", "1"), ("techno", "2"), ("empty", "9")]));
    let playlists = vec![
        playlist("1", "TECHNO", &["a", "b"]),
        playlist("2", "Jazz", &["a"]),
        playlist("3", "House", &["a"]),
    ];
    assert_eq!(keys_of(&state, &playlists, "a"), Some(vec!["2".to_string(), "1".to_string()]));
    assert_eq!(keys_of(&state, &playlists, "b"), Some(vec!["2".to_string()]));
    assert_eq!(keys_of(&state, &playlists, "c"), Some(vec![]));
}

#[test]
fn a_playlist_that_is_not_loaded_holds_nothing() {
    let mut state = SortState::create();
    state.refresh(&pairs(&[("house", "1")]));
    let mut unloaded = playlist("1", "House", &[]);
    unloaded.tracks = None;
    assert_eq!(keys_of(&state, &vec![unloaded], "a"), Some(vec![]));
}

#[test]
fn refreshing_replaces_the_bindings() {
    let mut state = SortState::create();
    state.refresh(&pairs(&[("house", "1"), ("jazz", "2"), ("house", "3")]));
    let mut names = state.bound_playlist_names();
    names.sort();
    assert_eq!(names, vec!["house", "jazz"]);
    assert_eq!(state.key_of(&"HOUSE".to_string()), Some("3".to_string()));
    state.refresh(&pairs(&[("soul", "4")]));
    assert_eq!(state.bound_playlist_names(), vec!["soul"]);
    assert_eq!(state.key_of(&"house".to_string()), None);
}

#[test]
fn mutations_leave_the_queue_in_order() {
    let mut state = SortState::create();
    let house = playlist("h", "House", &[]);
    let jazz = playlist("j", "Jazz", &[]);
    state.queue_playlist_mutation(track("a"), &vec![jazz], Some(&house));
    state.queue_playlist_mutation(track("b"), &vec![], None);
    let first = state.next_mutation().unwrap();
    assert_eq!(first.remove_from, vec!["j"]);
    assert_eq!(first.append_to, Some("h".to_string()));
    assert_eq!(first.track.id, Some("a".to_string()));
    let second = state.next_mutation().unwrap();
    assert_eq!(second.append_to, None);
    assert_eq!(second.track.id, Some("b".to_string()));
    assert!(state.next_mutation().is_none());
}

#[test]
fn every_copy_is_deleted() {
    let mut list = playlist("h", "House", &["a", "b", "a", "c"]);
    match delete_all_occurrences(&list, &"a".to_string()) {
        DeletePlan::Delete(items) => assert_eq!(items.len(), 2),
        _ => panic!("there are two copies"),
    }
    assert!(!occurrences_deleted(&mut list, &"a".to_string(), false));
    assert_eq!(item_ids(&list), vec!["a", "b", "a", "c"]);
    assert!(occurrences_deleted(&mut list, &"a".to_string(), true));
    assert_eq!(item_ids(&list), vec!["b", "c"]);
    assert!(matches!(
        delete_all_occurrences(&list, &"a".to_string()),
        DeletePlan::Nothing
    ));
}

#[test]
fn an_episode_is_deleted_by_its_id() {
    let mut list = playlist("h", "House", &["a"]);
    list.tracks.as_mut().unwrap().push(Playable::Episode(Episode {
        id: "e".to_string(),
        uri: String::new(),
        name: String::new(),
    }));
    assert!(matches!(
        delete_all_occurrences(&list, &"e".to_string()),
        DeletePlan::Delete(_)
    ));
}

#[test]
fn a_local_file_is_never_deleted() {
    let mut local = track("a");
    local.is_local = true;
    let mut list = playlist("h", "House", &["a"]);
    list.tracks.as_mut().unwrap().push(Playable::Track(local));
    assert!(matches!(
        delete_all_occurrences(&list, &"a".to_string()),
        DeletePlan::LocalFile
    ));
}

#[test]
fn nothing_is_deleted_from_a_playlist_that_is_not_loaded() {
    let mut list = playlist("h", "House", &[]);
    list.tracks = None;
    assert!(matches!(
        delete_all_occurrences(&list, &"a".to_string()),
        DeletePlan::Nothing
    ));
    assert!(!track_appended(&mut list, track("a"), true));
    assert!(list.tracks.is_none());
}

#[test]
fn playlists_are_found_by_id() {
    let playlists = vec![playlist("1", "A", &["x"]), playlist("2", "B", &["y"])];
    assert_eq!(playlist_by_id(&playlists, &"2".to_string()).unwrap().name, "B");
    assert!(playlist_by_id(&playlists, &"3".to_string()).is_none());
}

#[test]
fn a_move_appends_before_it_removes() {
    let mut state = SortState::create();
    let mut playlists = vec![playlist("old", "Old", &["a", "b", "a"]), playlist("new", "New", &["c"])];
    state.queue_playlist_mutation(track("a"), &vec![playlists[0].clone()], Some(&playlists[1]));
    let mut run = apply_playlist_mutation(state.next_mutation().unwrap());
    match run.next_step(&playlists) {
        MutationStep::Append(p) => assert_eq!(p.id, "new"),
        _ => panic!("the append comes first"),
    }
    assert!(track_appended(&mut playlists[1], track("a"), true));
    run.append_done(true);
    match run.next_step(&playlists) {
        MutationStep::Delete(p, items) => {
            assert_eq!(p.id, "old");
            assert_eq!(items.len(), 2);
        }
        _ => panic!("then comes the removal"),
    }
    assert!(occurrences_deleted(&mut playlists[0], &"a".to_string(), true));
    assert!(matches!(run.next_step(&playlists), MutationStep::Done));
    assert_eq!(item_ids(&playlists[0]), vec!["b"]);
    assert_eq!(item_ids(&playlists[1]), vec!["c", "a"]);
}

#[test]
fn a_failed_append_removes_nothing() {
    let mut state = SortState::create();
    let playlists = vec![playlist("old", "Old", &["a"]), playlist("new", "New", &[])];
    state.queue_playlist_mutation(track("a"), &vec![playlists[0].clone()], Some(&playlists[1]));
    let mut run = apply_playlist_mutation(state.next_mutation().unwrap());
    assert!(matches!(run.next_step(&playlists), MutationStep::Append(_)));
    run.append_done(false);
    assert_eq!(run.phase, MutationPhase::Over);
    assert!(matches!(run.next_step(&playlists), MutationStep::Done));
}

#[test]
fn a_move_into_a_playlist_that_is_gone_does_nothing() {
    let mut state = SortState::create();
    let gone = playlist("gone", "Gone", &[]);
    let playlists = vec![playlist("old", "Old", &["a"])];
    state.queue_playlist_mutation(track("a"), &vec![playlists[0].clone()], Some(&gone));
    let mut run = apply_playlist_mutation(state.next_mutation().unwrap());
    assert!(matches!(run.next_step(&playlists), MutationStep::Done));
}

#[test]
fn a_track_that_is_already_there_is_not_appended_again() {
    let mut state = SortState::create();
    let playlists = vec![playlist("old", "Old", &["a"]), playlist("new", "New", &["a"])];
    state.queue_playlist_mutation(track("a"), &vec![playlists[0].clone()], Some(&playlists[1]));
    let mut run = apply_playlist_mutation(state.next_mutation().unwrap());
    match run.next_step(&playlists) {
        MutationStep::Delete(p, _) => assert_eq!(p.id, "old"),
        _ => panic!("only the removal is left"),
    }
}

#[test]
fn a_track_without_an_id_is_appended_but_not_removed() {
    let mut state = SortState::create();
    let playlists = vec![playlist("old", "Old", &["a"]), playlist("new", "New", &["b"])];
    let mut nameless = track("a");
    nameless.id = None;
    state.queue_playlist_mutation(nameless, &vec![playlists[0].clone()], Some(&playlists[1]));
    let mut run = apply_playlist_mutation(state.next_mutation().unwrap());
    assert!(matches!(run.next_step(&playlists), MutationStep::Append(_)));
    run.append_done(true);
    assert!(matches!(run.next_step(&playlists), MutationStep::Done));
}

#[test]
fn a_removal_goes_through_all_its_playlists() {
    let mut state = SortState::create();
    let mut playlists = vec![
        playlist("1", "One", &["a"]),
        playlist("2", "Two", &["b"]),
        playlist("3", "Three", &["a", "c"]),
    ];
    state.queue_playlist_mutation(track("a"), &playlists.clone(), None);
    let mut run = apply_playlist_mutation(state.next_mutation().unwrap());
    let mut touched = vec![];
    while let MutationStep::Delete(p, _) = run.next_step(&playlists) {
        let at = playlists.iter().position(|q| q.id == p.id).unwrap();
        occurrences_deleted(&mut playlists[at], &"a".to_string(), true);
        touched.push(p.id);
    }
    assert_eq!(touched, vec!["1", "3"]);
    assert!(item_ids(&playlists[0]).is_empty());
    assert_eq!(item_ids(&playlists[1]), vec!["b"]);
    assert_eq!(item_ids(&playlists[2]), vec!["c"]);
}
