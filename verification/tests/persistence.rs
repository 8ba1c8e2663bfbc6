//! Keeping sessions and states.

use ccore::path::FilePath;
use ccore::persistence::file_storage::{FileOutcome, FileStorage};
use ccore::persistence::session::SessionPersister;
use ccore::persistence::state::StatePersister;
use ccore::persistence::storage::{StorageBackend, VolatileStorage};

#[test]
fn session_is_read_back() {
    let mut session = SessionPersister::new(VolatileStorage::new(), "s1".into());
    assert_eq!(session.key(), "session/s1");
    assert!(session.load_session().unwrap().is_none());
    session.save_session(&vec![1, 2, 3]).unwrap();
    session.save_session(&vec![4]).unwrap();
    assert_eq!(session.load_session().unwrap(), Some(vec![4]));
    session.backend.delete("session/s1").unwrap();
    assert!(session.load_session().unwrap().is_none());
}

#[test]
fn state_is_read_back() {
    let mut state = StatePersister::new(VolatileStorage::new(), "s1".into());
    assert_eq!(state.key(), "state/s1");
    state.save_state(&vec![9]).unwrap();
    assert_eq!(state.load_state().unwrap(), Some(vec![9]));
    assert!(state.backend.load("session/s1").unwrap().is_none());
}

#[test]
fn data_has_files() {
    let storage = FileStorage::new(FilePath::new("/data"));
    assert_eq!(storage.key_to_path("session/s1").as_text(), "/data/session/s1.json");
    let plan = storage.save_plan("session/s1");
    assert_eq!(plan.path.as_text(), "/data/session/s1.json");
    assert_eq!(plan.temp_path.as_text(), "/data/session/s1.tmp");
    assert_eq!(storage.save_plan("").temp_path.as_text(), "/data/.json.tmp");
    assert_eq!(storage.base_dir().as_text(), "/data");
}

#[test]
fn missing_files_hold_nothing() {
    assert_eq!(FileStorage::loaded(FileOutcome::Done(vec![1])), Ok(Some(vec![1])));
    assert_eq!(FileStorage::loaded(FileOutcome::NotFound), Ok(None));
    assert_eq!(FileStorage::loaded(FileOutcome::Failed("disk".into())), Err("disk".to_string()));
    assert_eq!(FileStorage::deleted(FileOutcome::NotFound), Ok(()));
    assert_eq!(FileStorage::deleted(FileOutcome::Failed("disk".into())), Err("disk".to_string()));
}
