use std::sync::mpsc;

use ascii::AsciiChar;
use shannon::frame::body::FrameBody;
use shannon::frame::chunker::{chunk, Chunker};
use shannon::frame::error::FrameError;
use shannon::frame::framereader::{FrameReader, ReadAction};
use shannon::frame::header::FrameHeader;
use shannon::frame::parse::Decoded;
use shannon::frame::Frame;
use shannon::modulator::PulseCodeModulator;

const FOX: &[u8] = b"The quick brown fox jumps over the lazy dog";

fn pattern(len: usize) -> Vec<u8> {
    (0..len).map(|i| (i * 31 + i / 251) as u8).collect()
}

/// Serves one read of `requested` bytes, receiving frames as the reader asks.
fn read_once(reader: &mut FrameReader, rx: &mpsc::Receiver<Frame>, requested: usize) -> Vec<u8> {
    let mut action = reader.begin_read(requested);
    loop {
        match action {
            ReadAction::Serve(bytes) => return bytes,
            ReadAction::Receive => match rx.recv() {
                Ok(frame) => action = reader.on_frame(frame, requested),
                Err(_) => return reader.on_closed(requested),
            },
        }
    }
}

fn read_all(reader: &mut FrameReader, rx: &mpsc::Receiver<Frame>, requested: usize) -> Vec<u8> {
    let mut out = Vec::new();
    loop {
        let bytes = read_once(reader, rx, requested);
        if bytes.is_empty() {
            return out;
        }
        out.extend_from_slice(&bytes);
    }
}

/// Runs a source through a chunker, read `read_size` bytes at a time.
fn chunk_in_pieces(data: &[u8], user_id: u64, read_size: usize) -> Vec<Frame> {
    let mut chunker = Chunker::new(user_id);
    let mut frames = Vec::new();
    for piece in data.chunks(read_size) {
        frames.extend(chunker.feed(piece));
    }
    frames.extend(chunker.finish());
    frames
}

fn end_to_end(data: &[u8]) -> (usize, Vec<u8>) {
    let (tx, rx) = mpsc::channel::<Frame>();
    let frames = chunk_in_pieces(data, 42, 65535);
    let n = frames.len();
    for f in frames {
        tx.send(f).unwrap();
    }
    drop(tx);
    let mut reader = FrameReader::new(42, false);
    (n, read_all(&mut reader, &rx, 1000))
}

fn parsed(bytes: &[u8]) -> (Frame, Vec<u8>) {
    match Frame::decode(bytes) {
        Ok(Decoded::Parsed(f, rest)) => (f, rest.to_vec()),
        Ok(Decoded::Incomplete(n)) => panic!("incomplete, {n} more bytes needed"),
        Err(e) => panic!("decode failed: {e:?}"),
    }
}

#[test]
fn checksum_of_known_text() {
    assert_eq!(FrameBody::new(FOX).crc32(), 0x414fa339);
    assert_eq!(FrameBody::new(&[]).crc32(), 0);
}

#[test]
fn encode_is_bit_exact() {
    let frame = Frame::new(FOX, 0x0102030405060708).unwrap();
    let mut expected = vec![0x01, 0x00, 43, 1, 2, 3, 4, 5, 6, 7, 8, 0x02];
    expected.extend_from_slice(FOX);
    expected.extend_from_slice(&[0x41, 0x4f, 0xa3, 0x39, 0x03]);
    assert_eq!(frame.encode(), expected);
    assert_eq!(frame.bytes_required(), 43 + 17);
    let mut out = vec![9];
    frame.write_frame(&mut out);
    assert_eq!(out[0], 9);
    assert_eq!(&out[1..], &expected[..]);
}

#[test]
fn header_and_body_writes() {
    let header = FrameHeader::new(&[0; 300], 0xAABB).unwrap();
    assert_eq!(header.n_bytes(), 300);
    assert_eq!(header.user_id(), 0xAABB);
    let mut out = Vec::new();
    header.write(&mut out);
    assert_eq!(out, vec![0x01, 0x2C, 0, 0, 0, 0, 0, 0, 0xAA, 0xBB]);

    let body = FrameBody::new(FOX);
    let mut raw = Vec::new();
    body.write_raw(&mut raw);
    let mut expected = FOX.to_vec();
    expected.extend_from_slice(&[0x41, 0x4f, 0xa3, 0x39]);
    assert_eq!(raw, expected);
    let mut only = vec![7];
    body.write_body(&mut only);
    assert_eq!(&only[1..], FOX);

    let frame = Frame::new_unchecked(FrameHeader::new_unchecked(3, 5), FrameBody::new_unchecked(&[1, 2, 3], 77));
    let mut payload = Vec::new();
    frame.write_body(&mut payload);
    assert_eq!(payload, vec![1, 2, 3]);
    assert_eq!(frame.stream_id(), 5);
}

#[test]
fn round_trip_small_empty_and_largest() {
    for (payload, id) in [(FOX.to_vec(), 7u64), (Vec::new(), u64::MAX), (pattern(65535), 0)] {
        let frame = Frame::new(&payload, id).unwrap();
        let (decoded, rest) = parsed(&frame.encode());
        assert_eq!(decoded, frame);
        assert_eq!(decoded.payload(), &payload[..]);
        assert_eq!(decoded.stream_id(), id);
        assert!(rest.is_empty());
    }
}

#[test]
fn decode_leaves_following_bytes() {
    let first = Frame::new(b"one", 1).unwrap();
    let second = Frame::new(b"two!", 2).unwrap();
    let mut bytes = first.encode();
    bytes.extend_from_slice(&second.encode());
    let (f, rest) = parsed(&bytes);
    assert_eq!(f, first);
    assert_eq!(rest, second.encode());
    let (g, rest2) = parsed(&rest);
    assert_eq!(g, second);
    assert!(rest2.is_empty());
}

#[test]
fn size_rejection() {
    assert_eq!(Frame::new(&vec![0; 65536], 3), Err(FrameError::BodySize(65536)));
    assert_eq!(FrameHeader::new(&vec![0; 70000], 3), Err(FrameError::BodySize(70000)));
    assert!(Frame::new(&vec![0; 65535], 3).is_ok());
}

#[test]
fn corruption_is_detected() {
    let payload = pattern(100);
    let frame = Frame::new(&payload, 0x1234).unwrap();
    let wire = frame.encode();
    let crc_start = 12 + payload.len();
    let offsets = [12, 13, 50, 99, 111, crc_start, crc_start + 1, crc_start + 2, crc_start + 3];
    for &offset in offsets.iter() {
        for bit in [0u8, 3, 7] {
            let mut bad = wire.clone();
            bad[offset] ^= 1 << bit;
            match Frame::decode(&bad) {
                Err(FrameError::Crc32(calculated, given)) => assert_ne!(calculated, given),
                _ => panic!("bit {bit} at offset {offset} went unnoticed"),
            }
        }
    }
}

#[test]
fn checked_body_reports_both_checksums() {
    assert!(FrameBody::new_checked(FOX, 0x414fa339).is_ok());
    assert_eq!(
        FrameBody::new_checked(FOX, 5),
        Err(FrameError::Crc32(0x414fa339, 5))
    );
}

#[test]
fn malformed_delimiters() {
    let wire = Frame::new(b"abc", 9).unwrap().encode();
    let mut bad = wire.clone();
    bad[0] = 0x7f;
    assert_eq!(Frame::decode(&bad).err(), Some(FrameError::Delimiter(0x01, 0x7f)));
    let mut bad = wire.clone();
    bad[11] = 0x00;
    assert_eq!(Frame::decode(&bad).err(), Some(FrameError::Delimiter(0x02, 0x00)));
    let mut bad = wire.clone();
    let last = bad.len() - 1;
    bad[last] = 0x04;
    assert_eq!(Frame::decode(&bad).err(), Some(FrameError::Delimiter(0x03, 0x04)));
}

#[test]
fn streaming_decode_of_prefixes() {
    let frame = Frame::new(&pattern(20), 77).unwrap();
    let wire = frame.encode();
    assert_eq!(wire.len(), 37);
    for k in 0..wire.len() {
        match Frame::decode(&wire[..k]) {
            Ok(Decoded::Incomplete(n)) => assert!(n >= 1 && k + n <= wire.len()),
            _ => panic!("prefix of {k} bytes did not ask for more"),
        }
    }
    let hint = |k: usize| match Frame::decode(&wire[..k]) {
        Ok(Decoded::Incomplete(n)) => n,
        _ => 0,
    };
    assert_eq!(hint(0), 1);
    assert_eq!(hint(5), 7);
    assert_eq!(hint(12), 24);
    assert_eq!(hint(35), 1);
    assert_eq!(hint(36), 1);
    let (decoded, rest) = parsed(&wire);
    assert_eq!(decoded, frame);
    assert!(rest.is_empty());
}

#[test]
fn chunking_size_law() {
    for (len, sizes) in [
        (0usize, vec![]),
        (1, vec![1]),
        (100, vec![100]),
        (65535, vec![65535]),
        (65536, vec![65535, 1]),
        (200000, vec![65535, 65535, 65535, 3395]),
    ] {
        let data = pattern(len);
        let frames = chunk(&data, 11);
        let got: Vec<usize> = frames.iter().map(|f| f.payload().len()).collect();
        assert_eq!(got, sizes);
        assert_eq!(frames.len(), (len + 65534) / 65535);
        let joined: Vec<u8> = frames.iter().flat_map(|f| f.payload().to_vec()).collect();
        assert_eq!(joined, data);
        assert!(frames.iter().all(|f| f.stream_id() == 11));
    }
}

#[test]
fn chunking_in_pieces_matches_whole() {
    let data = pattern(200000);
    let whole = chunk(&data, 5);
    for read_size in [1000, 7000, 65535, 65536, 150000] {
        assert_eq!(chunk_in_pieces(&data, 5, read_size), whole);
    }
    let mut chunker = Chunker::new(5);
    assert!(chunker.feed(&data[..65534]).is_empty());
    let frames = chunker.feed(&data[65534..65536]);
    assert_eq!(frames.len(), 1);
    assert_eq!(frames[0].payload(), &data[..65535]);
    let last = chunker.finish().unwrap();
    assert_eq!(last.payload(), &data[65535..65536]);
    assert!(Chunker::new(5).finish().is_none());
}

#[test]
fn end_to_end_empty_source() {
    let (frames, out) = end_to_end(&[]);
    assert_eq!(frames, 0);
    assert!(out.is_empty());
}

#[test]
fn end_to_end_small_source() {
    let data = pattern(100);
    let (frames, out) = end_to_end(&data);
    assert_eq!(frames, 1);
    assert_eq!(out, data);
}

#[test]
fn end_to_end_large_source() {
    let data = pattern(200000);
    let frames = chunk(&data, 42);
    let sizes: Vec<usize> = frames.iter().map(|f| f.payload().len()).collect();
    assert_eq!(sizes, vec![65535, 65535, 65535, 3395]);
    let (n, out) = end_to_end(&data);
    assert_eq!(n, 4);
    assert_eq!(out.len(), 200000);
    assert_eq!(out, data);
}

#[test]
fn multiplexing_filter() {
    let a_data = pattern(150000);
    let b_data: Vec<u8> = pattern(90000).iter().map(|b| b ^ 0xff).collect();
    let a_frames = chunk(&a_data, 1);
    let b_frames = chunk(&b_data, 2);
    let (tx, rx) = mpsc::channel::<Frame>();
    let (tx_b, rx_b) = mpsc::channel::<Frame>();
    let mut a_iter = a_frames.into_iter();
    let mut b_iter = b_frames.into_iter();
    loop {
        let b1 = b_iter.next();
        let a = a_iter.next();
        let b2 = b_iter.next();
        if a.is_none() && b1.is_none() && b2.is_none() {
            break;
        }
        for f in [b1, a, b2].into_iter().flatten() {
            tx_b.send(f.clone()).unwrap();
            tx.send(f).unwrap();
        }
    }
    drop(tx);
    drop(tx_b);
    let mut reader_a = FrameReader::new(1, false);
    assert_eq!(read_all(&mut reader_a, &rx, 3000), a_data);
    let mut reader_b = FrameReader::new(2, false);
    assert_eq!(read_all(&mut reader_b, &rx_b, 70000), b_data);
}

#[test]
fn foreign_frames_only_end_the_stream() {
    let (tx, rx) = mpsc::channel::<Frame>();
    tx.send(Frame::new(b"not yours", 8).unwrap()).unwrap();
    tx.send(Frame::new(b"nor this", 9).unwrap()).unwrap();
    drop(tx);
    let mut reader = FrameReader::new(1, false);
    assert!(read_once(&mut reader, &rx, 10).is_empty());
}

#[test]
fn reader_serves_held_bytes_first() {
    let (tx, rx) = mpsc::channel::<Frame>();
    tx.send(Frame::new(b"hello world", 3).unwrap()).unwrap();
    let mut reader = FrameReader::new(3, false);
    assert!(matches!(reader.begin_read(4), ReadAction::Receive));
    assert_eq!(read_once(&mut reader, &rx, 4), b"hell".to_vec());
    match reader.begin_read(5) {
        ReadAction::Serve(bytes) => assert_eq!(bytes, b"o wor".to_vec()),
        ReadAction::Receive => panic!("five bytes were held"),
    }
    drop(tx);
    assert_eq!(read_once(&mut reader, &rx, 5), b"ld".to_vec());
    assert!(read_once(&mut reader, &rx, 5).is_empty());
    assert!(matches!(reader.begin_read(0), ReadAction::Serve(ref b) if b.is_empty()));
}

#[test]
fn raw_reader_serves_whole_frames() {
    let mine = Frame::new(b"raw", 4).unwrap();
    let (tx, rx) = mpsc::channel::<Frame>();
    tx.send(Frame::new(b"other", 5).unwrap()).unwrap();
    tx.send(mine.clone()).unwrap();
    drop(tx);
    let mut reader = FrameReader::new(4, true);
    assert_eq!(read_all(&mut reader, &rx, 7), mine.encode());
}

#[test]
fn modulator_widens_bytes() {
    let mut m = PulseCodeModulator::new();
    assert_eq!(m.write(&[0, 1, 255, 2]), 4);
    assert_eq!(m.read(3), vec![0, 0, 1]);
    assert_eq!(m.read(10), vec![1, 255, 255, 2, 2]);
    assert!(m.read(10).is_empty());
}

#[test]
fn delimiters_are_ascii_control_characters() {
    assert_eq!(shannon::wire::SOH, AsciiChar::SOH as u8);
    assert_eq!(shannon::wire::STX, AsciiChar::SOX as u8);
    assert_eq!(shannon::wire::ETX, AsciiChar::ETX as u8);
}
