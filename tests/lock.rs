use ticket_mutex::{LockingMode, Mutex, MutexError, SharedMutexData};

#[test]
fn fresh_lock_is_free() {
    let (h, s) = Mutex::<LockingMode>::new(1);
    assert_eq!(h.ticket(), None);
    assert_eq!(s.holder(), None);
    assert!(s.can_issue());
}

#[test]
fn creating_an_attempt_draws_no_ticket() {
    let (h, mut s) = Mutex::<LockingMode>::new(1);
    let f = h.lock();
    assert_eq!(f.ticket(), None);
    assert_eq!(s.holder(), None);
    let t = s.request();
    assert_eq!(t, 0);
    assert_eq!(s.holder(), Some(0));
}

#[test]
fn repeated_polls_keep_one_ticket() {
    let (h, mut s) = Mutex::<LockingMode>::new(1);
    let mut f1 = h.lock();
    let mut f2 = h.lock();
    assert!(f1.poll(&mut s).unwrap().is_some());
    for _ in 0..5 {
        assert!(f2.poll(&mut s).unwrap().is_none());
    }
    assert_eq!(f2.ticket(), Some(1));
    assert_eq!(s.request(), 2);
}

#[test]
fn two_requests_one_claims_other_waits() {
    let (h, mut s) = Mutex::<LockingMode>::new(1);
    let d = h.clone();
    let mut f1 = h.lock();
    let mut f2 = d.lock();
    let g1 = f1.poll(&mut s).unwrap();
    assert!(f2.poll(&mut s).unwrap().is_none());
    assert_eq!(f1.ticket(), Some(0));
    assert_eq!(f2.ticket(), Some(1));
    assert!(g1.is_some());
    assert!(f2.poll(&mut s).unwrap().is_none());
    let m1 = g1.unwrap();
    assert_eq!(m1.ticket(), Some(0));
    let back = m1.unlock(&mut s);
    assert!(back.is_ok());
    assert_eq!(back.unwrap().ticket(), None);
    assert_eq!(s.holder(), Some(1));
    let g2 = f2.poll(&mut s).unwrap();
    assert!(g2.is_some());
    assert_eq!(g2.unwrap().ticket(), Some(1));
}

#[test]
fn release_on_created_handle_is_refused() {
    let (h, mut s) = Mutex::<LockingMode>::new(1);
    assert_eq!(s.release(h.ticket()), Err(MutexError::WaitingForAccess));
    assert_eq!(s.holder(), None);
}

#[test]
fn release_by_non_holder_is_refused() {
    let (h, mut s) = Mutex::<LockingMode>::new(1);
    let mut f1 = h.lock();
    let mut f2 = h.lock();
    assert!(f1.poll(&mut s).unwrap().is_some());
    assert!(f2.poll(&mut s).unwrap().is_none());
    assert_eq!(s.release(f2.ticket()), Err(MutexError::WaitingForAccess));
    assert_eq!(s.holder(), f1.ticket());
}

#[test]
fn double_unlock_is_refused() {
    let (h, mut s) = Mutex::<LockingMode>::new(1);
    let mut f = h.lock();
    let m = f.poll(&mut s).unwrap().unwrap();
    assert!(m.unlock(&mut s).is_ok());
    assert!(matches!(m.unlock(&mut s), Err(MutexError::WaitingForAccess)));
    assert_eq!(s.holder(), None);
}

#[test]
fn release_hands_lock_to_oldest_waiter() {
    let mut s = SharedMutexData::new(1);
    let t0 = s.request();
    let t1 = s.request();
    let t2 = s.request();
    let t3 = s.request();
    assert_eq!((t0, t1, t2, t3), (0, 1, 2, 3));
    assert_eq!(s.holder(), Some(0));
    assert_eq!(s.release(Some(0)), Ok(Some(1)));
    assert_eq!(s.release(Some(1)), Ok(Some(2)));
    assert_eq!(s.release(Some(2)), Ok(Some(3)));
    assert_eq!(s.release(Some(3)), Ok(None));
    assert_eq!(s.holder(), None);
}

#[test]
fn cancelled_waiter_is_skipped() {
    let mut s = SharedMutexData::new(1);
    for _ in 0..4 {
        s.request();
    }
    assert_eq!(s.cancel(1), None);
    assert_eq!(s.holder(), Some(0));
    assert_eq!(s.release(Some(0)), Ok(Some(2)));
    assert_eq!(s.cancel(3), None);
    assert_eq!(s.release(Some(2)), Ok(None));
    assert_eq!(s.holder(), None);
}

#[test]
fn cancel_by_holder_releases() {
    let mut s = SharedMutexData::new(1);
    s.request();
    s.request();
    assert_eq!(s.cancel(0), Some(1));
    assert_eq!(s.holder(), Some(1));
    assert_eq!(s.cancel(1), None);
    assert_eq!(s.holder(), None);
}

#[test]
fn cancel_of_unknown_ticket_changes_nothing() {
    let mut s = SharedMutexData::new(1);
    s.request();
    s.request();
    assert_eq!(s.cancel(7), None);
    assert_eq!(s.holder(), Some(0));
    assert_eq!(s.release(Some(0)), Ok(Some(1)));
    assert_eq!(s.release(Some(1)), Ok(None));
}

#[test]
fn grants_follow_ticket_order() {
    let (h, mut s) = Mutex::<LockingMode>::new(1);
    let mut futures: Vec<_> = (0..5).map(|_| h.clone().lock()).collect();
    let mut order = Vec::new();
    for _ in 0..5 {
        let ready: Vec<_> = futures
            .iter_mut()
            .filter(|f| !f.is_done())
            .filter_map(|f| f.poll(&mut s).unwrap())
            .collect();
        assert_eq!(ready.len(), 1);
        let m = &ready[0];
        order.push(m.ticket().unwrap());
        assert!(m.unlock(&mut s).is_ok());
    }
    assert_eq!(order, vec![0, 1, 2, 3, 4]);
    assert_eq!(s.holder(), None);
}

#[test]
fn at_most_one_holder_across_cycles() {
    let (h, mut s) = Mutex::<LockingMode>::new(1);
    let mut pending = Vec::new();
    let mut turns = 0;
    for round in 0..4 {
        for _ in 0..round + 1 {
            pending.push(h.clone().lock());
        }
        let ready: Vec<_> = pending.iter_mut().filter_map(|f| f.poll(&mut s).unwrap()).collect();
        assert!(ready.len() <= 1);
        if let Some(m) = ready.first() {
            let t = m.ticket();
            assert!(m.unlock(&mut s).is_ok());
            pending.retain(|f| f.ticket() != t);
        }
        turns += 1;
    }
    while let Some(m) = pending.iter_mut().find_map(|f| f.poll(&mut s).unwrap()) {
        let t = m.ticket();
        assert!(m.unlock(&mut s).is_ok());
        pending.retain(|f| f.ticket() != t);
        turns += 1;
        assert!(turns <= 20);
    }
    assert!(pending.is_empty());
    assert_eq!(s.holder(), None);
}

#[test]
fn tickets_are_never_reissued() {
    let mut s = SharedMutexData::new(1);
    let mut seen = Vec::new();
    for _ in 0..10 {
        let t = s.allocate_ticket();
        assert!(!seen.contains(&t));
        if let Some(&last) = seen.last() {
            assert!(t > last);
        }
        seen.push(t);
    }
    let t = s.request();
    assert_eq!(t, 10);
    assert_eq!(s.holder(), Some(10));
}

#[test]
fn duplicates_behave_like_one_handle() {
    let (h, mut a) = Mutex::<LockingMode>::new(1);
    let d1 = h.clone();
    let d2 = d1.clone();
    let d3 = d2.clone();
    assert_eq!(d3.ticket(), h.ticket());
    let mut fa = d1.lock();
    let mut fb = d3.lock();

    let (single, mut b) = Mutex::<LockingMode>::new(2);
    let mut ga = single.lock();
    let mut gb = single.lock();

    let ma = fa.poll(&mut a).unwrap().unwrap();
    let mb = ga.poll(&mut b).unwrap().unwrap();
    assert!(fb.poll(&mut a).unwrap().is_none());
    assert!(gb.poll(&mut b).unwrap().is_none());
    assert_eq!((fa.ticket(), fb.ticket()), (ga.ticket(), gb.ticket()));
    assert_eq!(a.holder(), b.holder());
    assert!(ma.unlock(&mut a).is_ok());
    assert!(mb.unlock(&mut b).is_ok());
    assert_eq!(a.holder(), b.holder());
    assert_eq!(a.holder(), Some(1));
}

#[test]
fn free_sentinel_is_not_a_ticket() {
    assert_eq!(ticket_mutex::FREE, u64::MAX);
    let mut s = SharedMutexData::new(1);
    assert_eq!(s.request(), 0);
    assert_eq!(s.holder(), Some(0));
}

#[test]
fn poll_after_completion_is_refused() {
    let (h, mut s) = Mutex::<LockingMode>::new(1);
    let mut f = h.lock();
    let m = f.poll(&mut s).unwrap().unwrap();
    assert!(f.is_done());
    assert!(matches!(f.poll(&mut s), Err(MutexError::NotWaiting)));
    assert!(m.unlock(&mut s).is_ok());
    assert!(matches!(f.poll(&mut s), Err(MutexError::NotWaiting)));
    assert_eq!(s.holder(), None);
}

#[test]
fn poll_of_withdrawn_ticket_is_refused() {
    let (h, mut s) = Mutex::<LockingMode>::new(1);
    let mut f1 = h.lock();
    let mut f2 = h.lock();
    assert!(f1.poll(&mut s).unwrap().is_some());
    assert!(f2.poll(&mut s).unwrap().is_none());
    assert!(s.waits(1));
    assert_eq!(s.cancel(1), None);
    assert!(!s.waits(1));
    assert!(matches!(f2.poll(&mut s), Err(MutexError::NotWaiting)));
}

#[test]
fn waits_leaves_queue_unchanged() {
    let mut s = SharedMutexData::new(3);
    for _ in 0..4 {
        s.request();
    }
    assert!(!s.waits(0));
    assert!(s.waits(2));
    assert!(!s.waits(9));
    assert_eq!(s.release(Some(0)), Ok(Some(1)));
    assert_eq!(s.release(Some(1)), Ok(Some(2)));
    assert_eq!(s.release(Some(2)), Ok(Some(3)));
    assert_eq!(s.id(), 3);
}

#[test]
fn handle_of_another_lock_is_refused() {
    let (a, mut sa) = Mutex::<LockingMode>::new(1);
    let (b, mut sb) = Mutex::<LockingMode>::new(2);
    let ma = a.lock().poll(&mut sa).unwrap().unwrap();
    let mut fb = b.lock();
    let mb = fb.poll(&mut sb).unwrap().unwrap();
    assert_eq!(ma.ticket(), mb.ticket());
    assert_eq!(mb.lock_id(), 2);
    assert!(matches!(ma.unlock(&mut sb), Err(MutexError::WaitingForAccess)));
    assert_eq!(sb.holder(), Some(0));
    let mut stray = a.lock();
    assert!(matches!(stray.poll(&mut sb), Err(MutexError::NotWaiting)));
    assert_eq!(stray.ticket(), None);
    assert!(mb.unlock(&mut sb).is_ok());
    assert!(ma.unlock(&mut sa).is_ok());
}
