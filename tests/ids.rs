use silicium::ident::{IdAllocator, Pid, Tid, ID_MAX};

#[test]
fn identifiers_rotate_and_are_unique() {
    let mut ids = IdAllocator::new();
    assert_eq!(ids.generate(), Some(0));
    assert_eq!(ids.generate(), Some(1));
    assert_eq!(ids.generate(), Some(2));
    ids.release(1);
    assert!(!ids.is_used(1));
    // The search goes on from the offset rather than reusing 1 at once.
    assert_eq!(ids.generate(), Some(3));
    assert!(ids.is_used(3));
}

#[test]
fn identifiers_run_out() {
    let mut ids = IdAllocator::new();
    let mut seen = vec![false; ID_MAX as usize];
    for _ in 0..ID_MAX - 1 {
        let id = ids.generate().unwrap();
        assert!(!seen[id as usize]);
        seen[id as usize] = true;
    }
    assert_eq!(ids.generate(), None);
    ids.release(100);
    ids.release(200);
    // The offset stands at the one identifier never handed out, then wraps around.
    assert_eq!(ids.generate(), Some(ID_MAX - 1));
    assert_eq!(ids.generate(), Some(100));
    assert_eq!(ids.generate(), None);
}

#[test]
fn pid_and_tid_bounds() {
    assert!(Pid::new(ID_MAX).is_none());
    assert_eq!(Pid::new(7).unwrap().value(), 7);
    assert!(Tid::new(ID_MAX + 1).is_none());
    assert_eq!(Tid::new(ID_MAX - 1).unwrap().value(), ID_MAX - 1);
    let mut ids = IdAllocator::new();
    let p = Pid::generate(&mut ids).unwrap();
    let t = Tid::generate(&mut ids).unwrap();
    assert_ne!(p.value(), t.value());
    p.release(&mut ids);
    assert!(!ids.is_used(p.value()));
}
