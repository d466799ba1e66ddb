use tricore_kernel::executor::Poll;
use tricore_kernel::sync::pipe::{Access, FillBufFuture, Pipe, TryReadError, TryWriteError, Waiters, Wakes};

#[test]
fn new_pipe_is_empty() {
    let p: Pipe<8> = Pipe::new();
    assert!(p.is_empty());
    assert!(!p.is_full());
    assert_eq!(p.len(), 0);
    assert_eq!(p.capacity(), 8);
    assert_eq!(p.free_capacity(), 8);
}

#[test]
fn bytes_come_out_in_the_order_they_went_in() {
    let mut p: Pipe<8> = Pipe::new();
    assert_eq!(p.try_write(b"abc"), Ok(3));
    assert_eq!(p.try_write(b"de"), Ok(2));
    assert_eq!(p.len(), 5);
    let mut buf = [0u8; 4];
    assert_eq!(p.try_read(&mut buf), Ok(4));
    assert_eq!(&buf, b"abcd");
    let mut rest = [0u8; 4];
    assert_eq!(p.try_read(&mut rest), Ok(1));
    assert_eq!(rest, [b'e', 0, 0, 0]);
    assert!(p.is_empty());
}

#[test]
fn reading_an_empty_pipe_fails() {
    let mut p: Pipe<4> = Pipe::new();
    let mut buf = [7u8; 2];
    assert_eq!(p.try_read(&mut buf), Err(TryReadError::Empty));
    assert_eq!(buf, [7, 7]);
}

#[test]
fn writing_a_full_pipe_fails() {
    let mut p: Pipe<4> = Pipe::new();
    assert_eq!(p.try_write(b"abcdef"), Ok(4));
    assert!(p.is_full());
    assert_eq!(p.free_capacity(), 0);
    assert_eq!(p.try_write(b"x"), Err(TryWriteError::Full));
    assert_eq!(p.len(), 4);
}

#[test]
fn writes_stop_at_the_end_of_the_buffer_and_wrap_after() {
    let mut p: Pipe<4> = Pipe::new();
    assert_eq!(p.try_write(b"abc"), Ok(3));
    let mut buf = [0u8; 2];
    assert_eq!(p.try_read(&mut buf), Ok(2));
    assert_eq!(&buf, b"ab");
    // one free slot before the end of the buffer, two more after wrapping
    assert_eq!(p.try_write(b"xyz"), Ok(1));
    assert_eq!(p.try_write(b"yz"), Ok(2));
    assert!(p.is_full());
    let mut out = [0u8; 4];
    // the read stops at the end of the buffer too
    assert_eq!(p.try_read(&mut out), Ok(2));
    assert_eq!(&out[..2], b"cx");
    assert_eq!(p.try_read(&mut out), Ok(2));
    assert_eq!(&out[..2], b"yz");
}

#[test]
fn empty_write_to_a_pipe_with_room_writes_nothing() {
    let mut p: Pipe<4> = Pipe::new();
    assert_eq!(p.try_write(b""), Ok(0));
    assert!(p.is_empty());
}

#[test]
fn clear_empties_the_pipe() {
    let mut p: Pipe<4> = Pipe::new();
    p.try_write(b"ab").unwrap();
    p.clear();
    assert!(p.is_empty());
    assert_eq!(p.try_write(b"wxyz"), Ok(4));
}

#[test]
fn fill_buf_then_consume() {
    let mut p: Pipe<8> = Pipe::new();
    assert_eq!(p.try_fill_buf(), Err(TryReadError::Empty));
    p.try_write(b"hello").unwrap();
    assert_eq!(p.try_fill_buf(), Ok(&b"hello"[..]));
    p.consume(2);
    assert_eq!(p.try_fill_buf(), Ok(&b"llo"[..]));
    assert_eq!(p.len(), 3);
}

#[test]
fn futures_are_pending_until_the_pipe_allows_them() {
    let mut p: Pipe<2> = Pipe::new();
    let mut dst = [0u8; 2];
    {
        let mut rf = p.read(&mut dst);
        let mut q: Pipe<2> = Pipe::new();
        assert_eq!(rf.poll(&mut q), Poll::Pending);
    }
    let data = [1u8, 2, 3];
    let wf = p.write(&data);
    assert_eq!(wf.poll(&mut p), Poll::Ready(2));
    assert_eq!(wf.poll(&mut p), Poll::Pending);
    assert_eq!(FillBufFuture.poll(&p), Poll::Ready(&[1u8, 2][..]));
    let mut out = [0u8; 2];
    let mut rf = p.read(&mut out);
    assert_eq!(rf.poll(&mut p), Poll::Ready(2));
    assert_eq!(out, [1, 2]);
    assert_eq!(FillBufFuture.poll(&p), Poll::Pending);
}

fn wakes(reader: bool, writer: bool, reg_reader: bool, reg_writer: bool) -> Wakes {
    Wakes { wake_reader: reader, wake_writer: writer, register_reader: reg_reader, register_writer: reg_writer }
}

#[test]
fn wakes_follow_the_state_before_the_call() {
    let mut p: Pipe<2> = Pipe::new();
    // empty: a write wakes the reader, a waiting read registers the reader
    assert_eq!(p.wakes(Access::Write, true), wakes(true, false, false, false));
    assert_eq!(p.wakes(Access::Read, true), wakes(false, false, true, false));
    assert_eq!(p.wakes(Access::Read, false), wakes(false, false, false, false));
    assert_eq!(p.try_write(b"a"), Ok(1));
    // neither empty nor full: nobody is woken or registered
    assert_eq!(p.wakes(Access::Write, true), wakes(false, false, false, false));
    assert_eq!(p.wakes(Access::Read, true), wakes(false, false, false, false));
    assert_eq!(p.try_write(b"b"), Ok(1));
    // full: a read wakes the writer, a waiting write registers the writer
    assert_eq!(p.wakes(Access::Read, false), wakes(false, true, false, false));
    assert_eq!(p.wakes(Access::Write, true), wakes(false, false, false, true));
    assert_eq!(p.wakes(Access::Consume, true), wakes(false, false, false, false));
    assert_eq!(p.wakes(Access::Clear, false), wakes(false, true, false, false));
}

#[test]
fn interleaved_writes_and_reads_come_out_in_order() {
    let mut p: Pipe<3> = Pipe::new();
    let mut written = Vec::new();
    let mut read = Vec::new();
    let chunks: [&[u8]; 4] = [b"ab", b"cde", b"f", b"gh"];
    for chunk in chunks.iter() {
        let mut rest: &[u8] = chunk;
        while !rest.is_empty() {
            match p.try_write(rest) {
                Ok(n) => {
                    written.extend_from_slice(&rest[..n]);
                    rest = &rest[n..];
                }
                Err(TryWriteError::Full) => {
                    let mut out = [0u8; 2];
                    let n = p.try_read(&mut out).unwrap();
                    read.extend_from_slice(&out[..n]);
                }
            }
        }
    }
    while let Ok(buf) = p.try_fill_buf() {
        let n = buf.len();
        read.extend_from_slice(buf);
        p.consume(n);
    }
    assert_eq!(read, b"abcdefgh".to_vec());
    assert_eq!(written, read);
}

#[test]
fn a_pending_read_is_woken_by_the_next_write() {
    let mut p: Pipe<4> = Pipe::new();
    let mut w = Waiters::new();
    // task 1 reads the empty pipe and waits
    assert!(w.apply(p.wakes(Access::Read, true), Some(1)).is_empty());
    assert_eq!(w.reader, Some(1));
    // a second wait by the same task keeps it registered
    assert!(w.apply(p.wakes(Access::Read, true), Some(1)).is_empty());
    // clearing wakes the writer side only
    assert!(w.apply(p.wakes(Access::Clear, false), None).is_empty());
    p.clear();
    // the next write wakes task 1
    assert_eq!(w.apply(p.wakes(Access::Write, true), Some(2)), vec![1]);
    assert_eq!(w.reader, None);
    assert_eq!(p.try_write(b"x"), Ok(1));
}

#[test]
fn a_different_waiter_replaces_and_wakes_the_one_before() {
    let p: Pipe<4> = Pipe::new();
    let mut w = Waiters::new();
    assert!(w.apply(p.wakes(Access::Read, true), Some(1)).is_empty());
    assert_eq!(w.apply(p.wakes(Access::Read, true), Some(2)), vec![1]);
    assert_eq!(w.reader, Some(2));
}
