use vortex_core::dispatcher::{DispatchError, SyncDispatcher};

#[test]
fn sync_dispatcher_refuses_tasks() {
    let d = SyncDispatcher::new();
    let res = d.dispatch::<_, u32>(|| 5u32);
    match res {
        Err(DispatchError::Generic(msg)) => assert_eq!(msg, "dupa"),
        Ok(_) => panic!("a task was accepted"),
    }
    assert!(d.shutdown().is_ok());
}
