use tokio_block_on_deadlock::resource::{LockState, ReleaseError, SharedResource};

#[test]
fn new_resource_is_unlocked() {
    let res = SharedResource::new();
    assert_eq!(res.state(), LockState::Unlocked);
    assert_eq!(res.issued(), 0);
}

#[test]
fn one_reader_enters_and_leaves() {
    let mut res = SharedResource::new();
    let guard = res.acquire_read().unwrap();
    assert_eq!(res.state(), LockState::Readers(1));
    assert_eq!(res.release_read(guard), Ok(()));
    assert_eq!(res.state(), LockState::Unlocked);
    assert_eq!(res.issued(), 1);
}

#[test]
fn any_number_of_readers_enter_side_by_side() {
    for n in [1usize, 2, 7, 100] {
        let mut res = SharedResource::new();
        let mut guards = Vec::new();
        for held in 0..n {
            let guard = res.acquire_read();
            assert!(guard.is_some());
            guards.push(guard.unwrap());
            assert_eq!(res.state(), LockState::Readers(held + 1));
        }
        for (i, a) in guards.iter().enumerate() {
            for b in guards.iter().skip(i + 1) {
                assert_ne!(a, b);
            }
        }
        for (left, guard) in guards.iter().enumerate() {
            assert_eq!(res.release_read(*guard), Ok(()));
            if left + 1 < n {
                assert_eq!(res.state(), LockState::Readers(n - left - 1));
            }
        }
        assert_eq!(res.state(), LockState::Unlocked);
    }
}

#[test]
fn releasing_a_read_guard_twice_is_refused() {
    let mut res = SharedResource::new();
    let first = res.acquire_read().unwrap();
    let second = res.acquire_read().unwrap();
    assert_eq!(res.release_read(first), Ok(()));
    assert_eq!(res.release_read(first), Err(ReleaseError::AlreadyReleased));
    assert_eq!(res.state(), LockState::Readers(1));
    assert_eq!(res.release_read(second), Ok(()));
    assert_eq!(res.release_read(second), Err(ReleaseError::AlreadyReleased));
    assert_eq!(res.release_read(first), Err(ReleaseError::AlreadyReleased));
    assert_eq!(res.state(), LockState::Unlocked);
}

#[test]
fn a_guard_whose_index_the_ledger_does_not_hold_is_refused() {
    let mut one = SharedResource::new();
    let mut other = SharedResource::new();
    let guard = other.acquire_read().unwrap();
    assert_eq!(one.release_read(guard), Err(ReleaseError::NotIssued));
    assert_eq!(one.state(), LockState::Unlocked);
    assert_eq!(other.state(), LockState::Readers(1));
}

#[test]
fn a_writer_keeps_readers_and_writers_out() {
    let mut res = SharedResource::new();
    let writer = res.acquire_write().unwrap();
    assert_eq!(res.state(), LockState::Writer);
    assert!(res.acquire_read().is_none());
    assert!(res.acquire_write().is_none());
    assert_eq!(res.issued(), 1);
    assert_eq!(res.release_write(writer), Ok(()));
    assert_eq!(res.state(), LockState::Unlocked);
    assert!(res.acquire_read().is_some());
}

#[test]
fn readers_keep_a_writer_out() {
    let mut res = SharedResource::new();
    let reader = res.acquire_read().unwrap();
    assert!(res.acquire_write().is_none());
    assert_eq!(res.release_read(reader), Ok(()));
    assert!(res.acquire_write().is_some());
}

#[test]
fn releasing_the_write_guard_twice_is_refused() {
    let mut res = SharedResource::new();
    let writer = res.acquire_write().unwrap();
    assert_eq!(res.release_write(writer), Ok(()));
    assert_eq!(res.release_write(writer), Err(ReleaseError::AlreadyReleased));
    let next = res.acquire_write().unwrap();
    assert_eq!(res.release_write(writer), Err(ReleaseError::AlreadyReleased));
    assert_eq!(res.state(), LockState::Writer);
    assert_eq!(res.release_write(next), Ok(()));
}

#[test]
fn a_guard_of_the_wrong_kind_is_refused() {
    let mut readers = SharedResource::new();
    let mut writers = SharedResource::new();
    let read = readers.acquire_read().unwrap();
    let write = writers.acquire_write().unwrap();
    assert_eq!(readers.release_write(write), Err(ReleaseError::NotIssued));
    assert_eq!(writers.release_read(read), Err(ReleaseError::NotIssued));
    assert_eq!(readers.state(), LockState::Readers(1));
    assert_eq!(writers.state(), LockState::Writer);
}

#[test]
fn a_guard_is_known_by_its_index_alone() {
    let mut one = SharedResource::new();
    let mut other = SharedResource::new();
    let own = one.acquire_read().unwrap();
    let foreign = other.acquire_read().unwrap();
    assert_eq!(own, foreign);
    assert_eq!(one.release_read(foreign), Ok(()));
    assert_eq!(one.state(), LockState::Unlocked);
    assert_eq!(one.release_read(own), Err(ReleaseError::AlreadyReleased));
    assert_eq!(other.state(), LockState::Readers(1));
}
