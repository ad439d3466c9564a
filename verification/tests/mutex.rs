use amia::error::Error;
use amia::mutex::Mutex;

#[test]
fn test_mutex_write() {
    let mut mutex = Mutex::new(0);
    let guard = mutex.try_lock().unwrap();
    let v = *mutex.get(&guard) + 1;
    mutex.set(&guard, v);

    assert_eq!(*mutex.get(&guard), 1);
}

#[test]
fn test_mutex_lock() {
    let mut mutex = Mutex::new(0);
    let _lock = mutex.try_lock().unwrap();

    assert!(mutex.try_lock().is_err());
}

#[test]
fn test_mutex_free() {
    let mut mutex = Mutex::new(0);
    let guard = mutex.try_lock().unwrap();
    let v = *mutex.get(&guard) + 1;
    mutex.set(&guard, v);
    assert_eq!(*mutex.get(&guard), 1);

    mutex.free();
    let guard = mutex.try_lock().unwrap();
    let v = *mutex.get(&guard) + 1;
    mutex.set(&guard, v);
    assert_eq!(*mutex.get(&guard), 2);
}

#[test]
fn mutex_refusal_names_the_failure() {
    let mut mutex = Mutex::new(7u32);
    let _g = mutex.try_lock().unwrap();
    match mutex.try_lock() {
        Err(Error::MutexErr(msg)) => assert_eq!(msg, "lock failed"),
        _ => panic!("a held lock must refuse"),
    }
}

#[test]
fn mutex_unlock_releases() {
    let mut mutex = Mutex::new(5u8);
    let g = mutex.try_lock().unwrap();
    mutex.unlock(g);
    let g2 = mutex.try_lock().unwrap();
    assert_eq!(*mutex.get(&g2), 5);
}
