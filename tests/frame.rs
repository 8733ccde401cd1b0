use std::sync::mpsc;

use rand::{thread_rng, Rng};
use shannon::frame::chunker::Chunker;
use shannon::frame::framereader::ReadAction;
use shannon::frame::Frame;

/// Cuts `data` into frames read `read_size` bytes at a time and sends them.
fn send_all(data: &[u8], user_id: u64, read_size: usize, tx: &mpsc::Sender<Frame>) {
    let mut chunker = Chunker::new(user_id);
    for piece in data.chunks(read_size) {
        for frame in chunker.feed(piece) {
            tx.send(frame).unwrap();
        }
    }
    if let Some(frame) = chunker.finish() {
        tx.send(frame).unwrap();
    }
}

/// Reads the whole body stream of `user_id` off `rx`.
fn read_to_end(rx: &mpsc::Receiver<Frame>, user_id: u64, read_size: usize) -> Vec<u8> {
    let mut reader = Frame::read_body_from_stream(user_id);
    let mut out = Vec::new();
    loop {
        let mut action = reader.begin_read(read_size);
        let bytes = loop {
            match action {
                ReadAction::Serve(bytes) => break bytes,
                ReadAction::Receive => match rx.recv() {
                    Ok(frame) => action = reader.on_frame(frame, read_size),
                    Err(_) => break reader.on_closed(read_size),
                },
            }
        };
        if bytes.is_empty() {
            return out;
        }
        out.extend_from_slice(&bytes);
    }
}

#[test]
fn new_frame() {
    Frame::new(&[0; 64], 0).expect("Could not build frame");
}

#[test]
fn frame_to_bytes() {
    let frame = Frame::new(&[0; 64], 0).expect("Could not build frame");
    let v: Vec<u8> = frame.clone().encode();
    println!("Written bytes length does not match expected");
    assert_eq!(v.len(), frame.bytes_required());
}

#[test]
fn reject_body_too_big() {
    let res = Frame::new(&[0; u16::MAX as usize + 1], 0);
    assert!(res.is_err())
}

#[test]
fn channel_one_frame() {
    let buf: Vec<u8> = vec![0x0f; u16::MAX as usize];
    let user_id: u64 = 0x89ABCDEF;
    let (tx, rx) = mpsc::channel::<Frame>();
    send_all(&buf, user_id, u16::MAX as usize, &tx);
    drop(tx);
    let recovered = rx.recv().expect("Expected at least one frame");
    assert_eq!(&buf[..], recovered.payload());
}

#[test]
fn recover_many() {
    let text = "Call me Ishmael. Some years ago - never mind how long precisely - having little \
                or no money in my purse, and nothing particular to interest me on shore, I \
                thought I would sail about a little and see the watery part of the world.\n";
    let buf: Vec<u8> = text.as_bytes().iter().copied().cycle().take(1_250_000).collect();
    let user_id: u64 = thread_rng().gen();
    let (tx, rx) = mpsc::channel::<Frame>();
    send_all(&buf, user_id, 8192, &tx);
    drop(tx);
    let buf2 = read_to_end(&rx, user_id, 4096);
    assert_eq!(buf.len(), buf2.len());
    assert_eq!(&buf[..], &buf2);
}
