use heimdall::guard::LockTable;
use heimdall::AlreadyRunning;

#[test]
fn second_acquire_on_same_path_is_refused() {
    let mut table = LockTable::new();
    let first = table.acquire("/tmp/heim.lock");
    assert!(first.is_ok());
    // A second logical actor tries the same well-known path.
    let second = table.acquire("/tmp/heim.lock");
    assert_eq!(second.err(), Some(AlreadyRunning));
}

#[test]
fn different_paths_do_not_contend() {
    let mut table = LockTable::new();
    let a = table.acquire("/tmp/heim.lock");
    let b = table.acquire("/tmp/other.lock");
    assert!(a.is_ok());
    assert!(b.is_ok());
}

#[test]
fn release_frees_the_path_for_the_next_acquire() {
    let mut table = LockTable::new();
    let guard = table.acquire("/tmp/heim.lock").unwrap();
    assert_eq!(guard.path(), "/tmp/heim.lock");
    table.release(guard);
    assert!(table.acquire("/tmp/heim.lock").is_ok());
}
