use std::path::PathBuf;

use grindr_mcp::state::{
    load_or_init, load_pinned_geohash, save, save_failed, save_pinned_geohash, state_file,
    state_path, Base, PersistedState, Reading, SaveStep, StateError, OWNER_ONLY,
    PINNED_EXTENSION, TMP_EXTENSION,
};

#[test]
fn a_given_path_wins() {
    let file = state_file(Some(5), Some(7));
    assert_eq!(file.base, Base::Given(5));
    assert!(file.below.is_empty());
    for path in ["/x/y", ""] {
        let file = state_path(Some(PathBuf::from(path)));
        assert_eq!(file.base, Base::Given(PathBuf::from(path)));
        assert!(file.below.is_empty());
    }
}

#[test]
fn the_default_path_is_below_the_configuration() {
    let file = state_file(None, Some(7));
    assert_eq!(file.base, Base::ConfigDir(7));
    assert_eq!(file.below, vec!["grindr-mcp".to_owned(), "state.json".to_owned()]);
    let file = state_file::<u8>(None, None);
    assert_eq!(file.base, Base::CurrentDir);
    assert_eq!(file.below, vec!["grindr-mcp".to_owned(), "state.json".to_owned()]);
}

#[test]
fn the_directory_of_the_user_is_asked_for() {
    let file = state_path(None);
    match (file.base, dirs::config_dir()) {
        (Base::ConfigDir(dir), Some(expected)) => assert_eq!(dir, expected),
        (Base::CurrentDir, None) => {}
        other => panic!("{other:?}"),
    }
    assert_eq!(file.below, vec!["grindr-mcp".to_owned(), "state.json".to_owned()]);
}

#[test]
fn existing_state_is_loaded() {
    let state = PersistedState { device: 1, session: Some("s") };
    assert_eq!(
        load_or_init("p", Reading::Found(state)),
        Ok((PersistedState { device: 1, session: Some("s") }, false))
    );
}

#[test]
fn missing_state_is_made() {
    assert_eq!(
        load_or_init::<u8, u8>("p", Reading::Missing(9)),
        Ok((PersistedState { device: 9, session: None }, true))
    );
}

#[test]
fn unreadable_state_is_an_error() {
    assert_eq!(
        load_or_init::<u8, u8>("/p/state.json", Reading::Unparsable("eof".to_owned())),
        Err(StateError {
            context: Some("parsing state file /p/state.json".to_owned()),
            reason: "eof".to_owned()
        })
    );
    assert_eq!(
        load_or_init::<u8, u8>("/p/state.json", Reading::Failed("denied".to_owned())),
        Err(StateError {
            context: Some("reading state file /p/state.json".to_owned()),
            reason: "denied".to_owned()
        })
    );
}

#[test]
fn the_state_file_gets_its_place_last() {
    let (state, steps) = save("d", Some("s"), true);
    assert_eq!(state, PersistedState { device: "d", session: Some("s") });
    assert_eq!(
        steps,
        vec![
            SaveStep::CreateDir,
            SaveStep::Serialize,
            SaveStep::WriteTemporary,
            SaveStep::RestrictTemporary,
            SaveStep::RenameTemporary
        ]
    );
    let (_, steps) = save::<_, u8>("d", None, false);
    assert_eq!(steps.len(), 4);
    assert_eq!(steps[0], SaveStep::Serialize);
    assert_eq!(steps[3], SaveStep::RenameTemporary);
}

#[test]
fn a_failed_step_tells_what_it_did() {
    let context = |step: SaveStep| save_failed(step, "/p", "/p/s.json.tmp", "/p/s.json", "r".to_owned());
    assert_eq!(
        context(SaveStep::CreateDir),
        StateError { context: Some("creating state dir /p".to_owned()), reason: "r".to_owned() }
    );
    assert_eq!(context(SaveStep::Serialize).context, None);
    assert_eq!(
        context(SaveStep::WriteTemporary).context,
        Some("writing /p/s.json.tmp".to_owned())
    );
    assert_eq!(context(SaveStep::RestrictTemporary).context, None);
    assert_eq!(
        context(SaveStep::RenameTemporary).context,
        Some("renaming /p/s.json.tmp -> /p/s.json".to_owned())
    );
    assert_eq!(context(SaveStep::Serialize).reason, "r");
}

#[test]
fn the_files_and_their_permissions() {
    assert_eq!(OWNER_ONLY, 384);
    assert_eq!(TMP_EXTENSION, "json.tmp");
    assert_ne!(PINNED_EXTENSION, TMP_EXTENSION);
}

#[test]
fn a_pinned_location_is_remembered() {
    let kept = save_pinned_geohash("ezjmgyern222");
    assert_eq!(load_pinned_geohash(Some(&kept)), Some("ezjmgyern222".to_owned()));
}

#[test]
fn what_is_no_geohash_is_not_pinned() {
    assert_eq!(load_pinned_geohash(None), None);
    assert_eq!(load_pinned_geohash(Some("")), None);
    assert_eq!(load_pinned_geohash(Some("ezjmgyern22a")), None);
}
