use monoio_http::common::waker::LocalWaker;
use std::sync::atomic::AtomicUsize;
use std::sync::Arc;
use std::task::{Wake, Waker};

struct CountingWake(AtomicUsize);

impl Wake for CountingWake {
    fn wake(self: Arc<Self>) {
        self.0.fetch_add(1, std::sync::atomic::Ordering::SeqCst);
    }
}

#[test]
fn registered_task_is_woken_once() {
    let counter = Arc::new(CountingWake(AtomicUsize::new(0)));
    let waker = Waker::from(counter.clone());
    let mut slot = LocalWaker::new();
    slot.wake();
    assert_eq!(counter.0.load(std::sync::atomic::Ordering::SeqCst), 0);
    slot.register(&waker);
    slot.register(&waker);
    slot.wake();
    assert_eq!(counter.0.load(std::sync::atomic::Ordering::SeqCst), 1);
    slot.wake();
    assert_eq!(counter.0.load(std::sync::atomic::Ordering::SeqCst), 1);
}
