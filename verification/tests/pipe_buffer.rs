use futures::task::noop_waker;
use multiplexing_stream::pipe::{BrokenPipe, Pipe, PipePoll};

fn read(pipe: &mut Pipe, capacity: usize) -> PipePoll<Vec<u8>> {
    pipe.poll_read(capacity, noop_waker()).0
}

fn write(pipe: &mut Pipe, data: &[u8]) -> PipePoll<Result<usize, BrokenPipe>> {
    pipe.poll_write(data, noop_waker()).0
}

#[test]
fn reads_back_in_order() {
    let mut pipe = Pipe::new(16);
    assert!(matches!(write(&mut pipe, b"hello "), PipePoll::Ready(Ok(6))));
    assert!(matches!(write(&mut pipe, b"world"), PipePoll::Ready(Ok(5))));
    match read(&mut pipe, 4) {
        PipePoll::Ready(data) => assert_eq!(data, b"hell".to_vec()),
        PipePoll::Pending => panic!("pending"),
    }
    match read(&mut pipe, 100) {
        PipePoll::Ready(data) => assert_eq!(data, b"o world".to_vec()),
        PipePoll::Pending => panic!("pending"),
    }
}

#[test]
fn write_stops_at_the_limit() {
    let mut pipe = Pipe::new(4);
    assert!(matches!(write(&mut pipe, b"abcdef"), PipePoll::Ready(Ok(4))));
    assert!(matches!(write(&mut pipe, b"g"), PipePoll::Pending));
    match read(&mut pipe, 2) {
        PipePoll::Ready(data) => assert_eq!(data, b"ab".to_vec()),
        PipePoll::Pending => panic!("pending"),
    }
    assert!(matches!(write(&mut pipe, b"xyz"), PipePoll::Ready(Ok(2))));
    match read(&mut pipe, 10) {
        PipePoll::Ready(data) => assert_eq!(data, b"cdxy".to_vec()),
        PipePoll::Pending => panic!("pending"),
    }
}

#[test]
fn empty_open_pipe_is_pending() {
    let mut pipe = Pipe::new(8);
    assert!(matches!(read(&mut pipe, 8), PipePoll::Pending));
}

#[test]
fn shutdown_drains_then_ends() {
    let mut pipe = Pipe::new(8);
    assert!(matches!(write(&mut pipe, b"ab"), PipePoll::Ready(Ok(2))));
    pipe.shutdown();
    assert!(matches!(write(&mut pipe, b"c"), PipePoll::Ready(Err(BrokenPipe))));
    match read(&mut pipe, 8) {
        PipePoll::Ready(data) => assert_eq!(data, b"ab".to_vec()),
        PipePoll::Pending => panic!("pending"),
    }
    match read(&mut pipe, 8) {
        PipePoll::Ready(data) => assert!(data.is_empty()),
        PipePoll::Pending => panic!("pending"),
    }
}

#[test]
fn closed_reader_breaks_writes() {
    let mut pipe = Pipe::new(8);
    pipe.close_read();
    assert!(matches!(write(&mut pipe, b"a"), PipePoll::Ready(Err(BrokenPipe))));
}

#[test]
fn close_write_ends_an_empty_pipe() {
    let mut pipe = Pipe::new(8);
    pipe.close_write();
    match read(&mut pipe, 8) {
        PipePoll::Ready(data) => assert!(data.is_empty()),
        PipePoll::Pending => panic!("pending"),
    }
}

#[test]
fn zero_capacity_read_takes_nothing() {
    let mut pipe = Pipe::new(8);
    assert!(matches!(write(&mut pipe, b"ab"), PipePoll::Ready(Ok(2))));
    match read(&mut pipe, 0) {
        PipePoll::Ready(data) => assert!(data.is_empty()),
        PipePoll::Pending => panic!("pending"),
    }
    match read(&mut pipe, 8) {
        PipePoll::Ready(data) => assert_eq!(data, b"ab".to_vec()),
        PipePoll::Pending => panic!("pending"),
    }
}

#[test]
fn parked_tasks_are_handed_back_to_wake() {
    let mut pipe = Pipe::new(2);
    // A reader parks on the empty pipe; the next stored bytes hand its waker back.
    assert!(matches!(pipe.poll_read(4, noop_waker()), (PipePoll::Pending, None)));
    let (poll, woken) = pipe.poll_write(b"ab", noop_waker());
    assert!(matches!(poll, PipePoll::Ready(Ok(2))));
    assert!(woken.is_some());
    // A writer parks on the full pipe; a read that moves bytes hands its waker back.
    assert!(matches!(pipe.poll_write(b"c", noop_waker()), (PipePoll::Pending, None)));
    let (poll, woken) = pipe.poll_read(1, noop_waker());
    assert!(matches!(poll, PipePoll::Ready(ref d) if d == b"a"));
    assert!(woken.is_some());
    // Nothing waits any more.
    let (_, woken) = pipe.poll_read(1, noop_waker());
    assert!(woken.is_none());
}

#[test]
fn closing_hands_back_the_waiting_side() {
    let mut pipe = Pipe::new(2);
    assert!(matches!(pipe.poll_read(1, noop_waker()), (PipePoll::Pending, None)));
    assert!(pipe.close_write().is_some());
    assert!(pipe.close_write().is_none());
    let mut full = Pipe::new(1);
    assert!(matches!(full.poll_write(b"x", noop_waker()).0, PipePoll::Ready(Ok(1))));
    assert!(matches!(full.poll_write(b"y", noop_waker()), (PipePoll::Pending, None)));
    assert!(full.close_read().is_some());
    let mut idle = Pipe::new(1);
    assert!(idle.shutdown().is_none());
}
