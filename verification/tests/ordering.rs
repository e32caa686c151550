use denon_control::multibuf::{next_chunk, MultiBuf};
use denon_control::mutex_ordering::{use_priority, PriorityMutex, TakenLockPriority};

#[test]
fn mutex_ordering_main() {
    let mut root = TakenLockPriority::<0>::new();
    let m1: PriorityMutex<(), 1> = PriorityMutex::new(());
    let m2: PriorityMutex<(), 2> = PriorityMutex::new(());
    {
        let (mut _protector2, _guard2) = m2.lock(use_priority(&mut root));
        let (_protector1, _guard1) = m1.lock(use_priority(&mut root));
    }
    let (mut protector1, _guard1) = m1.lock(use_priority(&mut root));
    let (_protector2, _guard2) = m2.lock(use_priority(&mut protector1));
}

#[test]
fn locking_hands_out_the_guarded_value() {
    let mut root = TakenLockPriority::<0>::new();
    let m: PriorityMutex<u64, 5> = PriorityMutex::new(666);
    let (_token, value) = m.lock(use_priority(&mut root));
    assert_eq!(666, *value);
}

#[test]
fn next_chunk_walks_chunks_then_stays_empty() {
    let chunks = vec![b"fearless".to_vec(), b"concurrency".to_vec()];
    let mut buf = MultiBuf::new(chunks);
    assert_eq!(b"fearless".to_vec(), next_chunk(&mut buf));
    assert_eq!(b"concurrency".to_vec(), next_chunk(&mut buf));
    assert_eq!(Vec::<u8>::new(), next_chunk(&mut buf));
}
