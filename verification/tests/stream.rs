use zudb_js::conn::Failure;
use zudb_js::stream::{Cancel, Chunk, Drain, Handed, Live, Pipe, Pulled, Received, Sent, Streamed, QUEUE};
use zudb_js::value::Made;

type Stream = Live<&'static str, u32, u8>;

fn started() -> Stream {
    let mut live = Live::open("statement", None);
    assert_eq!(live.begin(), Some("statement"));
    live
}

fn done(rows: u64) -> Streamed {
    Streamed { columns: vec!["n".to_string()], rows, stopped: false, streamed: true, notices: vec![] }
}

fn end(live: &mut Stream, ended: Result<Streamed, Failure<u8>>) {
    assert!(matches!(live.pipe.send(Chunk::Done(ended), true), Sent::Taken));
    live.pipe.finish();
}

#[test]
fn batches_arrive_in_order_and_two_at_a_time() {
    let mut pipe: Pipe<u32> = Pipe::new();
    assert!(matches!(pipe.recv(), Received::Early));
    for n in 0..QUEUE as u32 {
        assert!(matches!(pipe.send(n, true), Sent::Taken));
    }
    assert!(matches!(pipe.send(9, true), Sent::Full(9)));
    assert!(matches!(pipe.send(9, false), Sent::Gone));
    assert!(matches!(pipe.recv(), Received::Next(0)));
    assert!(matches!(pipe.send(9, true), Sent::Taken));
    pipe.finish();
    assert!(matches!(pipe.recv(), Received::Next(1)));
    assert!(matches!(pipe.recv(), Received::Next(9)));
    assert!(matches!(pipe.recv(), Received::Over));
}

#[test]
fn a_reader_that_goes_takes_the_queue_along() {
    let mut pipe: Pipe<u32> = Pipe::new();
    assert!(matches!(pipe.send(1, true), Sent::Taken));
    pipe.close();
    assert!(matches!(pipe.send(2, true), Sent::Gone));
    assert!(matches!(pipe.recv(), Received::Over));
}

#[test]
fn a_stream_is_read_to_its_end() {
    let mut live = started();
    assert!(live.begin().is_none());
    assert!(matches!(live.pull(), Pulled::Wait));
    assert!(matches!(live.hand(1, true), Handed::More));
    assert!(matches!(live.hand(2, true), Handed::More));
    assert!(matches!(live.hand(3, true), Handed::Wait(Chunk::Rows(3))));
    assert!(matches!(live.pull(), Pulled::Rows(1)));
    assert!(live.summary().is_none() && !live.over());
    end(&mut live, Ok(done(2)));
    assert!(matches!(live.pull(), Pulled::Rows(2)));
    assert!(matches!(live.pull(), Pulled::End));
    assert!(live.ending().is_none() && live.over());
    let Some(Made::Object(fields)) = live.summary() else { panic!("no summary") };
    assert_eq!(fields.iter().map(|f| f.0.as_str()).collect::<Vec<_>>(), ["columns", "rows", "stopped", "streamed", "notices"]);
    assert!(matches!(fields[1].1, Made::Count(2)));
    assert!(matches!(live.pull(), Pulled::End));
}

#[test]
fn a_failure_is_thrown_once() {
    let mut live = started();
    end(&mut live, Err(Failure::Engine(7)));
    assert!(matches!(live.pull(), Pulled::End));
    assert!(matches!(live.ending(), Some(Failure::Engine(7))));
    assert!(live.over() && live.summary().is_none());
    assert!(matches!(live.pull(), Pulled::End));
    assert!(live.ending().is_none());
}

#[test]
fn a_refused_stream_says_so_at_its_first_read() {
    let mut live: Stream = Live::open("statement", Some("no".to_string()));
    assert!(live.begin().is_none());
    assert!(matches!(live.pull(), Pulled::End));
    assert!(matches!(live.ending(), Some(Failure::Usage(w)) if w == "no"));
}

#[test]
fn a_stream_nobody_read_never_starts() {
    let mut live: Stream = Live::open("statement", None);
    live.stop();
    assert!(live.cancel() == Cancel::Never);
    assert!(live.begin().is_none());
    assert!(matches!(live.pull(), Pulled::End));
    assert!(live.ending().is_none());
}

#[test]
fn a_cancelled_stream_is_drained() {
    let mut live = started();
    assert!(matches!(live.hand(1, true), Handed::More));
    live.stop();
    assert!(matches!(live.hand(2, true), Handed::Stop));
    assert!(live.cancel() == Cancel::Drain);
    assert!(live.drain() == Drain::More);
    assert!(live.drain() == Drain::Wait);
    end(&mut live, Ok(Streamed { stopped: true, ..done(1) }));
    assert!(live.drain() == Drain::Over);
    assert!(live.over() && live.summary().is_some());
}

/// A stream that had already failed keeps the failure.
#[test]
fn the_first_ending_stands() {
    let mut live = started();
    assert!(matches!(live.pipe.send(Chunk::Done(Err(Failure::Aborted)), true), Sent::Taken));
    assert!(matches!(live.pipe.send(Chunk::Done(Ok(done(0))), true), Sent::Taken));
    live.pipe.finish();
    assert!(live.drain() == Drain::Over);
    assert!(live.drain() == Drain::Over);
    assert!(matches!(live.ending(), Some(Failure::Aborted)));
}

#[test]
fn a_cursor_nobody_holds_stops_the_scan() {
    let mut live = started();
    live.forget();
    assert!(matches!(live.hand(1, true), Handed::Stop));
    assert!(matches!(live.pull(), Pulled::End));
}

#[test]
fn a_stream_without_a_thread_is_over() {
    let mut live = started();
    assert_eq!(live.unstarted("too many"), "the stream could not be given a thread: too many");
    assert!(matches!(live.pull(), Pulled::End));
}
