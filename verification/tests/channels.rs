use bytes::Bytes;
use monoio_http::h1::payload::{FixedInner, PayloadPoll, StreamInner};
use monoio_http::util::spsc::{ChannelPoll, Shared};
use std::convert::Infallible;
use std::io;
use std::task::Waker;

#[test]
fn stream_payload() {
    let waker = Waker::noop();
    let mut payload: StreamInner<Bytes, io::Error> = StreamInner::new();
    assert!(matches!(payload.poll_next(waker), PayloadPoll::Pending));
    payload.feed_data(Some(Bytes::from_static(b"Hello")));
    payload.feed_data(Some(Bytes::from_static(b"World")));
    payload.feed_error(io::Error::new(io::ErrorKind::Other, "oops"));
    payload.feed_data(None);
    match payload.poll_next(waker) {
        PayloadPoll::Ready(Some(Ok(b))) => assert_eq!(b, Bytes::from_static(b"Hello")),
        _ => panic!("expected Hello"),
    }
    match payload.poll_next(waker) {
        PayloadPoll::Ready(Some(Ok(b))) => assert_eq!(b, Bytes::from_static(b"World")),
        _ => panic!("expected World"),
    }
    assert!(matches!(payload.poll_next(waker), PayloadPoll::Ready(Some(Err(_)))));
    assert!(matches!(payload.poll_next(waker), PayloadPoll::Ready(None)));
    assert!(matches!(payload.poll_next(waker), PayloadPoll::Ready(None)));
}

#[test]
fn fixed_payload() {
    let waker = Waker::noop();
    let mut payload: FixedInner<Bytes, Infallible> = FixedInner::new();
    assert!(matches!(payload.poll_next(waker), PayloadPoll::Pending));
    payload.feed(Ok(Bytes::from_static(b"Hello")));
    match payload.poll_next(waker) {
        PayloadPoll::Ready(Some(Ok(b))) => assert_eq!(b, Bytes::from_static(b"Hello")),
        _ => panic!("expected Hello"),
    }

    let mut payload: FixedInner<Bytes, Infallible> = FixedInner::new();
    payload.feed(Ok(Bytes::from_static(b"World")));
    match payload.poll_next(waker) {
        PayloadPoll::Ready(Some(Ok(b))) => assert_eq!(b, Bytes::from_static(b"World")),
        _ => panic!("expected World"),
    }
    assert!(matches!(payload.poll_next(waker), PayloadPoll::Ready(None)));
}

#[test]
fn fixed_payload_with_data() {
    let waker = Waker::noop();
    let mut payload: FixedInner<Bytes, Infallible> = FixedInner::with_data(Bytes::from_static(b"ready"));
    match payload.poll_next(waker) {
        PayloadPoll::Ready(Some(Ok(b))) => assert_eq!(b, Bytes::from_static(b"ready")),
        _ => panic!("expected the data"),
    }
    assert!(matches!(payload.poll_next(waker), PayloadPoll::Ready(None)));
}

#[test]
fn send_recv() {
    let waker = Waker::noop();
    let mut shared: Shared<u8> = Shared::new();
    let mut item = Some(24u8);
    assert!(matches!(shared.poll_send(&mut item, waker), ChannelPoll::Ready(Ok(()))));
    assert!(matches!(shared.poll_recv(waker), ChannelPoll::Ready(Some(24))));
    let mut item = Some(42u8);
    assert!(matches!(shared.poll_send(&mut item, waker), ChannelPoll::Ready(Ok(()))));
    assert!(matches!(shared.poll_recv(waker), ChannelPoll::Ready(Some(42))));
}

#[test]
fn send_waits_for_room() {
    let waker = Waker::noop();
    let mut shared: Shared<u8> = Shared::new();
    shared.do_send(1);
    let mut item = Some(2u8);
    assert!(matches!(shared.poll_send(&mut item, waker), ChannelPoll::Pending));
    assert_eq!(item, Some(2));
    assert!(matches!(shared.poll_ready(waker), ChannelPoll::Pending));
    assert!(matches!(shared.poll_recv(waker), ChannelPoll::Ready(Some(1))));
    assert!(matches!(shared.poll_ready(waker), ChannelPoll::Ready(Some(()))));
}

#[test]
fn closed_channel() {
    let waker = Waker::noop();
    let mut shared: Shared<u8> = Shared::new();
    assert!(matches!(shared.poll_recv(waker), ChannelPoll::Pending));
    assert!(matches!(shared.poll_closed(waker), ChannelPoll::Pending));
    shared.do_send(7);
    shared.close_sender();
    assert!(matches!(shared.poll_closed(waker), ChannelPoll::Ready(())));
    assert!(matches!(shared.poll_recv(waker), ChannelPoll::Ready(Some(7))));
    assert!(matches!(shared.poll_recv(waker), ChannelPoll::Ready(None)));
    let mut item = Some(9u8);
    assert!(matches!(shared.poll_send(&mut item, waker), ChannelPoll::Ready(Err(9))));
    assert!(matches!(shared.poll_ready(waker), ChannelPoll::Ready(None)));
}

struct CountWakes(std::sync::atomic::AtomicUsize);

impl std::task::Wake for CountWakes {
    fn wake(self: std::sync::Arc<Self>) {
        self.0.fetch_add(1, std::sync::atomic::Ordering::SeqCst);
    }
}

fn counting_waker() -> (std::sync::Arc<CountWakes>, Waker) {
    let counter = std::sync::Arc::new(CountWakes(std::sync::atomic::AtomicUsize::new(0)));
    let waker = Waker::from(counter.clone());
    (counter, waker)
}

#[test]
fn closing_wakes_the_task_waiting_on_the_close() {
    let (counter, waker) = counting_waker();
    let mut shared: Shared<u32> = Shared::new();
    assert!(matches!(shared.poll_closed(&waker), ChannelPoll::Pending));
    assert_eq!(counter.0.load(std::sync::atomic::Ordering::SeqCst), 0);
    shared.close_receiver();
    assert_eq!(counter.0.load(std::sync::atomic::Ordering::SeqCst), 1);
    assert!(matches!(shared.poll_closed(&waker), ChannelPoll::Ready(())));
    shared.close_sender();
    assert_eq!(counter.0.load(std::sync::atomic::Ordering::SeqCst), 1);
}

#[test]
fn feeding_a_stream_wakes_the_waiting_reader_once() {
    let (counter, waker) = counting_waker();
    let mut payload: StreamInner<u32, Infallible> = StreamInner::new();
    assert!(matches!(payload.poll_next(&waker), PayloadPoll::Pending));
    payload.feed_data(Some(1));
    assert_eq!(counter.0.load(std::sync::atomic::Ordering::SeqCst), 1);
    payload.feed_data(None);
    assert_eq!(counter.0.load(std::sync::atomic::Ordering::SeqCst), 1);
}
