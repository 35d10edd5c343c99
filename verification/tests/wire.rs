use argus_manager::float::F32;
use argus_manager::wire::{after_prefix, frame, AfterPrefix, EngineCommand, PrefixRead};

#[test]
fn a_frame_is_a_length_and_a_payload() {
    assert_eq!(frame(b"abc"), vec![0, 0, 0, 3, b'a', b'b', b'c']);
    assert_eq!(frame(b""), vec![0, 0, 0, 0]);
    let long = vec![7u8; 0x1_0203];
    let framed = frame(&long);
    assert_eq!(framed[..4], (long.len() as u32).to_be_bytes());
    assert_eq!(framed[4..], long[..]);
}

#[test]
fn what_is_framed_is_read_back() {
    for n in [0usize, 1, 255, 256, 65_536, 70_000] {
        let payload: Vec<u8> = (0..n).map(|i| (i % 251) as u8).collect();
        let framed = frame(&payload);
        let prefix = [framed[0], framed[1], framed[2], framed[3]];
        match after_prefix(PrefixRead::Bytes(prefix)) {
            AfterPrefix::ReadPayload(len) => assert_eq!(framed[4..4 + len], payload[..]),
            other => panic!("{other:?}"),
        }
    }
}

#[test]
fn a_reader_without_a_prefix_has_no_message_or_fails() {
    assert_eq!(after_prefix(PrefixRead::NotReady), AfterPrefix::NoMessage);
    assert_eq!(after_prefix(PrefixRead::Failed), AfterPrefix::Fail);
    assert_eq!(
        after_prefix(PrefixRead::Bytes([0xff, 0xff, 0xff, 0xff])),
        AfterPrefix::ReadPayload(u32::MAX as usize)
    );
    assert_eq!(after_prefix(PrefixRead::Bytes([1, 2, 3, 4])), AfterPrefix::ReadPayload(0x0102_0304));
}

#[test]
fn budgets_compare_as_numbers() {
    let c = |x: f32| EngineCommand::KvCompress { budget: F32 { bits: x.to_bits() } };
    assert_eq!(c(0.5), c(0.5));
    assert_eq!(c(0.0), c(-0.0));
    assert!(c(f32::NAN) != c(f32::NAN));
    assert!(c(0.5) != EngineCommand::Suspend);
    assert!(EngineCommand::Resume != EngineCommand::Suspend);
}

#[test]
fn frames_are_read_back_in_order() {
    let payloads: Vec<Vec<u8>> = vec![b"one".to_vec(), vec![], vec![9u8; 300]];
    let mut stream: Vec<u8> = Vec::new();
    for p in &payloads {
        stream.extend(frame(p));
    }
    stream.extend(b"rest");
    let mut at = 0;
    for p in &payloads {
        let prefix = [stream[at], stream[at + 1], stream[at + 2], stream[at + 3]];
        match after_prefix(PrefixRead::Bytes(prefix)) {
            AfterPrefix::ReadPayload(len) => {
                assert_eq!(stream[at + 4..at + 4 + len], p[..]);
                at += 4 + len;
            }
            other => panic!("{other:?}"),
        }
    }
    assert_eq!(&stream[at..], b"rest");
}
