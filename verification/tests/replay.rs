use w3replay::block::check_inflated;
use w3replay::block::combine_checksum;
use w3replay::block::decode_block;
use w3replay::block::BlockFormat;
use w3replay::block::BlockHeader;
use w3replay::block::Blocks;
use w3replay::cursor::Poll;
use w3replay::cursor::RecordCursor;
use w3replay::error::Error;
use w3replay::error::Stage;
use w3replay::header::Header;
use w3replay::iter::RecordIter;
use w3replay::reader::BlockReader;
use w3replay::reader::Request;
use w3replay::reader::Supplied;
use w3replay::records::parse_record;
use w3replay::records::Record;
use w3replay::wire::copy_range;
use w3replay::wire::find_nul;
use w3replay::wire::get_u16;
use w3replay::wire::get_u32;
use w3replay::wire::put_u16;
use w3replay::wire::put_u32;
use w3replay::W3Replay;

const SIGNATURE: &[u8; 28] = b"Warcraft III recorded game\x1A\x00";

const WIDE: BlockFormat = BlockFormat { wide: true, enforce_checksum: false };
const NARROW: BlockFormat = BlockFormat { wide: false, enforce_checksum: false };
const WIDE_STRICT: BlockFormat = BlockFormat { wide: true, enforce_checksum: true };

fn sample_header(num_blocks: u32) -> Header {
    Header {
        header_size: 0x44,
        file_size: 0x0001_E240,
        header_version: 1,
        decompressed_size: 0x0004_0000,
        num_blocks,
        product: 0x5733_5850,
        version: 10032,
        build: 6105,
        flags: 0x8000,
        duration_ms: 1_234_567,
        checksum: 0xDEAD_BEEF,
    }
}

fn deflate(data: &[u8]) -> Vec<u8> {
    let mut enc = flate2::write::ZlibEncoder::new(Vec::new(), flate2::Compression::default());
    std::io::Write::write_all(&mut enc, data).unwrap();
    enc.finish().unwrap()
}

fn block_with_sizes(payload: &[u8], compressed: u32, declared: u32) -> Vec<u8> {
    let mut out = Vec::new();
    out.extend_from_slice(&compressed.to_le_bytes());
    out.extend_from_slice(&declared.to_le_bytes());
    out.extend_from_slice(&0xAABB_CCDDu32.to_le_bytes());
    out.extend_from_slice(payload);
    out
}

fn block(content: &[u8]) -> Vec<u8> {
    let packed = deflate(content);
    block_with_sizes(&packed, packed.len() as u32, content.len() as u32)
}

fn file(blocks: &[Vec<u8>]) -> Vec<u8> {
    let mut out = sample_header(blocks.len() as u32).encode();
    for b in blocks {
        out.extend_from_slice(b);
    }
    out
}

fn time_slot(total: usize, fill: u8) -> Vec<u8> {
    let mut out = vec![0x1F];
    out.extend_from_slice(&((total - 3) as u16).to_le_bytes());
    out.extend_from_slice(&250u16.to_le_bytes());
    out.resize(total, fill);
    out
}

fn chat(player: u8, flags: u8, mode: Option<u32>, text: &[u8]) -> Vec<u8> {
    let mut body = vec![flags];
    if let Some(m) = mode {
        body.extend_from_slice(&m.to_le_bytes());
    }
    body.extend_from_slice(text);
    body.push(0);
    let mut out = vec![0x20, player];
    out.extend_from_slice(&(body.len() as u16).to_le_bytes());
    out.extend_from_slice(&body);
    out
}

fn collect(mut it: RecordIter) -> Vec<Result<Record, Error>> {
    let mut out = Vec::new();
    while let Some(item) = it.next() {
        out.push(item);
    }
    out
}

fn records_of(bytes: Vec<u8>) -> Vec<Result<Record, Error>> {
    collect(W3Replay::from_vec(bytes).unwrap().into_records())
}

#[test]
fn test_open() {
    let mut stream = vec![0x1A, 1, 0, 0, 0, 0x1B, 1, 0, 0, 0, 0x1C, 1, 0, 0, 0];
    stream.extend_from_slice(&time_slot(20, 7));
    let bytes = file(&[block(&stream)]);
    let mut records = W3Replay::from_vec(bytes).unwrap().into_records();
    while let Some(r) = records.next() {
        let r = r.unwrap();
        if r.type_id() == 0x1C {
            println!("{:?}", r);
            break;
        }
    }
}

#[test]
fn header_encodes_to_the_documented_layout() {
    let bytes = sample_header(3).encode();
    assert_eq!(bytes.len(), 68);
    assert_eq!(&bytes[..28], &SIGNATURE[..]);
    assert_eq!(&bytes[28..32], &[0x44, 0, 0, 0]);
    assert_eq!(&bytes[32..36], &[0x40, 0xE2, 0x01, 0x00]);
    assert_eq!(&bytes[44..48], &[3, 0, 0, 0]);
    assert_eq!(&bytes[48..52], b"PX3W");
    assert_eq!(&bytes[56..58], &[0xD9, 0x17]);
    assert_eq!(&bytes[58..60], &[0x00, 0x80]);
    assert_eq!(&bytes[60..64], &[0x87, 0xD6, 0x12, 0x00]);
    assert_eq!(&bytes[64..68], &[0xEF, 0xBE, 0xAD, 0xDE]);
}

#[test]
fn header_round_trips_through_bytes() {
    let h = sample_header(7);
    let bytes = h.encode();
    assert_eq!(Header::decode(&bytes), Ok(h));
    assert_eq!(Header::decode(&bytes).unwrap().encode(), bytes);
}

#[test]
fn header_decode_then_encode_gives_the_first_68_bytes() {
    let mut bytes = SIGNATURE.to_vec();
    for i in 0..60u8 {
        bytes.push(i.wrapping_mul(37).wrapping_add(11));
    }
    let h = Header::decode(&bytes).unwrap();
    assert_eq!(h.encode(), &bytes[..68]);
    assert_eq!(h.num_blocks, u32::from_le_bytes([bytes[44], bytes[45], bytes[46], bytes[47]]));
}

#[test]
fn header_shorter_than_68_bytes_is_truncated() {
    let bytes = sample_header(1).encode();
    assert_eq!(
        Header::decode(&bytes[..67]),
        Err(Error::Truncated { stage: Stage::Header, index: 0 })
    );
    assert_eq!(Header::decode(&[]), Err(Error::Truncated { stage: Stage::Header, index: 0 }));
}

#[test]
fn wrong_magic_is_refused_before_any_block_is_read() {
    let mut bytes = file(&[vec![0xFF; 5]]);
    bytes[3] ^= 0x20;
    let err = match W3Replay::from_vec(bytes) {
        Err(e) => e,
        Ok(_) => panic!("a wrong signature was accepted"),
    };
    assert_eq!(err, Error::MagicMismatch);
    assert_eq!(err.context(), "header");
}

#[test]
fn last_signature_byte_is_checked() {
    let mut bytes = sample_header(0).encode();
    bytes[27] = 1;
    assert_eq!(Header::decode(&bytes), Err(Error::MagicMismatch));
}

#[test]
fn zero_blocks_give_no_records() {
    let mut bytes = sample_header(0).encode();
    bytes.extend_from_slice(&block(&[0x1A, 1, 0, 0, 0]));
    let mut it = W3Replay::from_vec(bytes).unwrap().into_records();
    assert_eq!(it.next(), None);
    assert_eq!(it.next(), None);
}

#[test]
fn two_blocks_give_two_records_in_order() {
    let first = time_slot(100, 0x11);
    let second = time_slot(50, 0x22);
    let bytes = file(&[block(&first), block(&second)]);
    let mut it = W3Replay::from_vec(bytes).unwrap().into_records();
    assert_eq!(it.position(), 0);
    assert_eq!(
        it.next(),
        Some(Ok(Record::TimeSlot {
            fragment: false,
            time_increment_ms: 250,
            actions: vec![0x11; 95],
        }))
    );
    assert_eq!(it.position(), 100);
    assert_eq!(
        it.next(),
        Some(Ok(Record::TimeSlot {
            fragment: false,
            time_increment_ms: 250,
            actions: vec![0x22; 45],
        }))
    );
    assert_eq!(it.position(), 150);
    assert_eq!(it.next(), None);
    assert_eq!(it.next(), None);
}

#[test]
fn a_record_may_span_a_block_boundary() {
    let mut stream = time_slot(40, 3);
    stream.extend_from_slice(&chat(2, 0x20, Some(1), b"gl hf"));
    stream.extend_from_slice(&[0x2F, 1, 0, 0, 0, 10, 0, 0, 0]);
    let whole = records_of(file(&[block(&stream)]));
    assert_eq!(whole.len(), 3);
    for cut in 1..stream.len() {
        let split = records_of(file(&[block(&stream[..cut]), block(&stream[cut..])]));
        assert_eq!(split, whole);
    }
    let mut pos = 0;
    for item in &whole {
        let (record, next) = parse_record(&stream, pos).unwrap();
        assert_eq!(&Ok(record), item);
        pos = next;
    }
    assert_eq!(pos, stream.len());
}

#[test]
fn two_passes_over_the_same_bytes_agree() {
    let mut stream = chat(1, 0x10, None, b"hello");
    stream.extend_from_slice(&[0x17, 1, 0, 0, 0, 4, 9, 0, 0, 0, 2, 0, 0, 0]);
    stream.extend_from_slice(&[0x77]);
    let bytes = file(&[block(&stream[..9]), block(&stream[9..])]);
    let a = records_of(bytes.clone());
    let b = records_of(bytes);
    assert_eq!(a, b);
    assert_eq!(a.len(), 3);
    assert_eq!(a[2], Err(Error::UnknownRecordTag { offset: 25, tag: 0x77 }));
}

#[test]
fn bytes_behind_the_last_block_are_ignored() {
    let stream = time_slot(30, 9);
    let plain = file(&[block(&stream)]);
    let mut padded = plain.clone();
    padded.extend_from_slice(&[0xFF; 40]);
    assert_eq!(records_of(plain.clone()), records_of(padded.clone()));
    assert_eq!(records_of(padded).len(), 1);

    let mut blocks = Blocks::new(plain, 68, 1, WIDE);
    assert_eq!(blocks.remaining(), 1);
    assert_eq!(blocks.next_block(), Some(Ok(stream)));
    assert_eq!(blocks.remaining(), 0);
    assert_eq!(blocks.next_block(), None);
}

#[test]
fn block_stream_hands_out_exactly_the_declared_blocks() {
    let parts: Vec<Vec<u8>> = vec![vec![1; 10], vec![2; 20], vec![3; 30]];
    let mut data = Vec::new();
    for p in &parts {
        data.extend_from_slice(&block(p));
    }
    let mut two = Blocks::new(data.clone(), 0, 2, WIDE);
    assert_eq!(two.next_block(), Some(Ok(parts[0].clone())));
    assert_eq!(two.next_block(), Some(Ok(parts[1].clone())));
    assert_eq!(two.next_block(), None);
    let mut four = Blocks::new(data, 0, 4, WIDE);
    assert_eq!(four.next_block(), Some(Ok(parts[0].clone())));
    assert_eq!(four.next_block(), Some(Ok(parts[1].clone())));
    assert_eq!(four.next_block(), Some(Ok(parts[2].clone())));
    assert_eq!(
        four.next_block(),
        Some(Err(Error::Truncated { stage: Stage::BlockHeader, index: 3 }))
    );
    assert_eq!(four.next_block(), None);
}

#[test]
fn a_start_behind_the_input_leaves_nothing_to_read() {
    let mut blocks = Blocks::new(vec![1, 2, 3], 10, 1, WIDE);
    assert_eq!(
        blocks.next_block(),
        Some(Err(Error::Truncated { stage: Stage::BlockHeader, index: 0 }))
    );
}

#[test]
fn declared_size_must_match_what_comes_out() {
    let content = [5u8; 9];
    let packed = deflate(&content);
    let size = packed.len() as u32;

    let mut more = Blocks::new(block_with_sizes(&packed, size, 10), 0, 1, WIDE);
    assert_eq!(
        more.next_block(),
        Some(Err(Error::BlockSizeMismatch { block: 0, declared: 10, actual: 9 }))
    );
    assert_eq!(more.next_block(), None);

    let mut less = Blocks::new(block_with_sizes(&packed, size, 5), 0, 1, WIDE);
    assert_eq!(
        less.next_block(),
        Some(Err(Error::BlockSizeMismatch { block: 0, declared: 5, actual: 6 }))
    );

    let mut exact = Blocks::new(block_with_sizes(&packed, size, 9), 0, 1, WIDE);
    assert_eq!(exact.next_block(), Some(Ok(content.to_vec())));
}

#[test]
fn size_mismatch_in_the_second_block_keeps_the_first_records() {
    let first = time_slot(12, 1);
    let second = deflate(&time_slot(12, 2));
    let bytes = file(&[block(&first), block_with_sizes(&second, second.len() as u32, 13)]);
    let got = records_of(bytes);
    assert_eq!(got.len(), 2);
    assert!(got[0].is_ok());
    assert_eq!(got[1], Err(Error::BlockSizeMismatch { block: 1, declared: 13, actual: 12 }));
}

#[test]
fn corrupt_payload_is_a_decompress_failure() {
    let junk = [0xFFu8; 16];
    let mut blocks = Blocks::new(block_with_sizes(&junk, 16, 8), 0, 1, WIDE);
    let err = blocks.next_block().unwrap().unwrap_err();
    assert_eq!(err, Error::DecompressFailure { block: 0 });
    assert_eq!(err.context(), "block");
    assert_eq!(blocks.next_block(), None);
}

#[test]
fn block_header_sizes_are_checked_against_the_input() {
    let packed = deflate(&[1, 2, 3]);
    let mut none = Blocks::new(block_with_sizes(&packed, 0, 3), 0, 1, WIDE);
    assert_eq!(none.next_block(), Some(Err(Error::BlockHeader { block: 0 })));

    let size = packed.len() as u32;
    let mut long = Blocks::new(block_with_sizes(&packed, size + 1, 3), 0, 1, WIDE);
    assert_eq!(long.next_block(), Some(Err(Error::BlockHeader { block: 0 })));

    let bytes = block_with_sizes(&packed, size, 3);
    assert_eq!(
        BlockHeader::decode(&bytes, 4, packed.len(), true),
        Ok(BlockHeader { compressed_size: size, decompressed_size: 3, checksum: 0xAABB_CCDD })
    );
    assert_eq!(
        BlockHeader::decode(&bytes, 4, packed.len() - 1, true),
        Err(Error::BlockHeader { block: 4 })
    );
    assert_eq!(
        BlockHeader::decode(&bytes[..11], 4, 100, true),
        Err(Error::Truncated { stage: Stage::BlockHeader, index: 4 })
    );
}

#[test]
fn decode_block_inflates_the_declared_payload() {
    let content = b"the quick brown fox jumps over the lazy dog".to_vec();
    let packed = deflate(&content);
    assert_ne!(packed, content);
    let header = BlockHeader {
        compressed_size: packed.len() as u32,
        decompressed_size: content.len() as u32,
        checksum: 0,
    };
    assert_eq!(decode_block(2, &header, &packed, WIDE), Ok(content.clone()));
    let mut followed = packed.clone();
    followed.extend_from_slice(&[9, 9, 9]);
    assert_eq!(decode_block(2, &header, &followed, WIDE), Ok(content));
    assert_eq!(
        decode_block(2, &header, &packed[..packed.len() - 1], WIDE),
        Err(Error::Truncated { stage: Stage::BlockPayload, index: 2 })
    );
}

#[test]
fn an_empty_block_decodes_to_an_empty_segment() {
    let mut blocks = Blocks::new(block(&[]), 0, 1, WIDE);
    assert_eq!(blocks.next_block(), Some(Ok(Vec::new())));
}

#[test]
fn check_inflated_judges_each_outcome() {
    assert_eq!(check_inflated(3, 4, None), Err(Error::DecompressFailure { block: 3 }));
    assert_eq!(check_inflated(3, 4, Some(vec![1, 2, 3, 4])), Ok(vec![1, 2, 3, 4]));
    assert_eq!(
        check_inflated(3, 4, Some(vec![1, 2, 3])),
        Err(Error::BlockSizeMismatch { block: 3, declared: 4, actual: 3 })
    );
    assert_eq!(
        check_inflated(0, 0, Some(vec![1])),
        Err(Error::BlockSizeMismatch { block: 0, declared: 0, actual: 1 })
    );
    assert_eq!(check_inflated(0, 0, Some(vec![])), Ok(vec![]));
}

#[test]
fn a_cut_inside_a_record_is_reported_at_that_record() {
    let mut stream = vec![0x1A, 1, 0, 0, 0];
    stream.extend_from_slice(&[0x17, 1, 0, 0, 0, 4, 9, 0, 0, 0, 2, 0, 0, 0]);
    stream.extend_from_slice(&[0x1C, 1, 0, 0, 0]);
    for cut in 6..19 {
        let got = records_of(file(&[block(&stream[..cut])]));
        assert_eq!(got.len(), 2);
        assert_eq!(got[0], Ok(Record::CountDownStart { unknown: 1 }));
        assert_eq!(got[1], Err(Error::Truncated { stage: Stage::Record, index: 5 }));
    }
    let at_boundary = records_of(file(&[block(&stream[..19])]));
    assert_eq!(at_boundary.len(), 2);
    assert!(at_boundary[1].is_ok());
    let err = parse_record(&stream[..8], 5).unwrap_err();
    assert_eq!(err.context(), "record");
}

#[test]
fn nothing_follows_an_error() {
    let stream = [0x1A, 1, 0, 0, 0, 0x99, 0x1A, 1, 0, 0, 0];
    let mut it = W3Replay::from_vec(file(&[block(&stream)])).unwrap().into_records();
    assert_eq!(it.next(), Some(Ok(Record::CountDownStart { unknown: 1 })));
    assert_eq!(it.next(), Some(Err(Error::UnknownRecordTag { offset: 5, tag: 0x99 })));
    assert_eq!(it.next(), None);
    assert_eq!(it.position(), 5);
}

#[test]
fn the_end_of_replay_record_ends_the_sequence() {
    let stream = [0x1B, 2, 0, 0, 0, 0x00, 0x00, 0x1A, 1, 0, 0, 0];
    let got = records_of(file(&[block(&stream), block(&[0x1C, 1, 0, 0, 0])]));
    assert_eq!(got, vec![Ok(Record::CountDownEnd { unknown: 2 }), Ok(Record::EndOfReplay)]);
}

#[test]
fn fixed_layout_records_are_read_field_by_field() {
    let left = [0x17, 0x0C, 0, 0, 0, 3, 0x0D, 0, 0, 0, 0x78, 0x56, 0x34, 0x12, 0xEE];
    assert_eq!(
        parse_record(&left, 0),
        Ok((
            Record::PlayerLeft { reason: 12, player_id: 3, result: 13, unknown: 0x1234_5678 },
            14
        ))
    );
    let timer = [0xEE, 0x2F, 1, 0, 0, 0, 0x10, 0x27, 0, 0];
    assert_eq!(
        parse_record(&timer, 1),
        Ok((Record::EndTimer { over: 1, countdown_secs: 10000 }, 10))
    );
    assert_eq!(
        parse_record(&[0x1A, 0xFF, 0xFF, 0xFF, 0xFF], 0),
        Ok((Record::CountDownStart { unknown: u32::MAX }, 5))
    );
    assert_eq!(
        parse_record(&[0x1B, 0, 1, 0, 0], 0),
        Ok((Record::CountDownEnd { unknown: 256 }, 5))
    );
    assert_eq!(
        parse_record(&[0x1C, 0, 0, 1, 0], 0),
        Ok((Record::GameStart { unknown: 65536 }, 5))
    );
    assert_eq!(parse_record(&[0x00], 0), Ok((Record::EndOfReplay, 1)));
    assert_eq!(
        parse_record(&[0x1C, 0, 0, 1], 0),
        Err(Error::Truncated { stage: Stage::Record, index: 0 })
    );
}

#[test]
fn sized_records_are_read_by_their_length() {
    assert_eq!(
        parse_record(&[0x19, 3, 0, 7, 8, 9, 0x1A], 0),
        Ok((Record::SlotInfo { data: vec![7, 8, 9] }, 6))
    );
    assert_eq!(
        parse_record(&[0x19, 0, 0], 0),
        Ok((Record::SlotInfo { data: vec![] }, 3))
    );
    assert_eq!(
        parse_record(&[0x22, 4, 0xDE, 0xAD, 0xBE, 0xEF], 0),
        Ok((Record::TimeSlotAck { checksum: vec![0xDE, 0xAD, 0xBE, 0xEF] }, 6))
    );
    assert_eq!(
        parse_record(&[0x22, 4, 0xDE, 0xAD, 0xBE], 0),
        Err(Error::Truncated { stage: Stage::Record, index: 0 })
    );
    assert_eq!(
        parse_record(&[0x1E, 4, 0, 0x64, 0, 0xAA, 0xBB], 0),
        Ok((
            Record::TimeSlot { fragment: true, time_increment_ms: 100, actions: vec![0xAA, 0xBB] },
            7
        ))
    );
    assert_eq!(
        parse_record(&[0x1F, 2, 0, 0x00, 0x01], 0),
        Ok((Record::TimeSlot { fragment: false, time_increment_ms: 256, actions: vec![] }, 5))
    );
    assert_eq!(
        parse_record(&[0x1F, 1, 0, 0x00, 0x01], 0),
        Err(Error::MalformedRecordField { offset: 0, tag: 0x1F })
    );
}

#[test]
fn player_info_holds_name_and_extra_bytes() {
    let mut bytes = vec![0x16, 5];
    bytes.extend_from_slice(b"Grubby\0");
    bytes.extend_from_slice(&[2, 0xA1, 0xA2]);
    bytes.extend_from_slice(&[1, 0, 0, 0]);
    bytes.push(0x1A);
    assert_eq!(
        parse_record(&bytes, 0),
        Ok((
            Record::PlayerInfo {
                player_id: 5,
                name: b"Grubby".to_vec(),
                extra: vec![0xA1, 0xA2],
                unknown: 1,
            },
            16
        ))
    );
    for cut in 1..16 {
        assert_eq!(
            parse_record(&bytes[..cut], 0),
            Err(Error::Truncated { stage: Stage::Record, index: 0 })
        );
    }
    let (record, _) = parse_record(&bytes, 0).unwrap();
    assert_eq!(record.type_id(), 0x16);
}

#[test]
fn chat_messages_with_and_without_a_mode() {
    let scoped = chat(4, 0x20, Some(3), b"push now");
    assert_eq!(
        parse_record(&scoped, 0),
        Ok((
            Record::ChatMessage {
                player_id: 4,
                flags: 0x20,
                mode: Some(3),
                message: b"push now".to_vec(),
            },
            scoped.len()
        ))
    );
    let plain = chat(1, 0x10, None, b"");
    assert_eq!(
        parse_record(&plain, 0),
        Ok((Record::ChatMessage { player_id: 1, flags: 0x10, mode: None, message: vec![] }, 6))
    );
}

#[test]
fn chat_message_that_contradicts_its_length_is_malformed() {
    let bad = Err(Error::MalformedRecordField { offset: 0, tag: 0x20 });
    assert_eq!(parse_record(&[0x20, 1, 0, 0, 0x10], 0), bad);
    assert_eq!(parse_record(&[0x20, 1, 3, 0, 0x10, b'a', b'b', 0], 0), bad);
    assert_eq!(parse_record(&[0x20, 1, 4, 0, 0x20, 1, 0, 0, 0, 0], 0), bad);
    assert_eq!(
        parse_record(&[0x20, 1, 3, 0, 0x10, b'a'], 0),
        Err(Error::Truncated { stage: Stage::Record, index: 0 })
    );
    let err = parse_record(&[0x20, 1, 0, 0, 0x10], 0).unwrap_err();
    assert_eq!(err.context(), "record");
}

#[test]
fn unknown_tags_are_fatal() {
    assert_eq!(
        parse_record(&[0x1A, 0, 0, 0, 0, 0x55, 0, 0], 5),
        Err(Error::UnknownRecordTag { offset: 5, tag: 0x55 })
    );
    assert_eq!(
        parse_record(&[1, 2, 3], 3),
        Err(Error::Truncated { stage: Stage::Record, index: 3 })
    );
    assert_eq!(
        parse_record(&[1, 2, 3], 9),
        Err(Error::Truncated { stage: Stage::Record, index: 9 })
    );
}

#[test]
fn from_buf_reads_what_the_buffer_holds() {
    let stream = time_slot(25, 4);
    let bytes = file(&[block(&stream)]);
    let replay = W3Replay::from_buf(bytes::Bytes::from(bytes.clone())).unwrap();
    assert_eq!(*replay.header(), sample_header(1));
    assert_eq!(collect(replay.into_records()), records_of(bytes));
    assert!(matches!(
        W3Replay::from_buf(bytes::Bytes::from(vec![0u8; 80])),
        Err(Error::MagicMismatch)
    ));
    assert!(matches!(
        W3Replay::from_buf(bytes::Bytes::from(vec![0u8; 10])),
        Err(Error::Truncated { stage: Stage::Header, index: 0 })
    ));
}

#[test]
fn error_labels_name_the_stage() {
    assert_eq!(Error::MagicMismatch.context(), "header");
    assert_eq!(Error::Truncated { stage: Stage::Header, index: 0 }.context(), "header");
    assert_eq!(Error::Truncated { stage: Stage::BlockHeader, index: 1 }.context(), "block");
    assert_eq!(Error::Truncated { stage: Stage::BlockPayload, index: 1 }.context(), "block");
    assert_eq!(Error::Truncated { stage: Stage::Record, index: 1 }.context(), "record");
    assert_eq!(Error::BlockHeader { block: 0 }.context(), "block");
    assert_eq!(Error::ChecksumMismatch { block: 0 }.context(), "block");
    assert_eq!(Error::DecompressFailure { block: 0 }.context(), "block");
    assert_eq!(
        Error::BlockSizeMismatch { block: 0, declared: 1, actual: 2 }.context(),
        "block"
    );
    assert_eq!(Error::StreamTooLong.context(), "block");
    assert_eq!(Error::UnknownRecordTag { offset: 0, tag: 1 }.context(), "record");
    assert_eq!(Error::MalformedRecordField { offset: 0, tag: 1 }.context(), "record");
}

#[test]
fn little_endian_fields() {
    let data = [0x78, 0x56, 0x34, 0x12, 0xFF, 0xFF, 0xFF, 0xFF];
    assert_eq!(get_u32(&data, 0), 0x1234_5678);
    assert_eq!(get_u32(&data, 4), u32::MAX);
    assert_eq!(get_u16(&data, 1), 0x3456);
    assert_eq!(get_u16(&data, 6), u16::MAX);
    let mut out = vec![9];
    put_u32(&mut out, 0x1234_5678);
    put_u16(&mut out, 0xABCD);
    assert_eq!(out, vec![9, 0x78, 0x56, 0x34, 0x12, 0xCD, 0xAB]);
    assert_eq!(copy_range(&data, 2, 5), vec![0x34, 0x12, 0xFF]);
    assert_eq!(find_nul(&[1, 0, 2, 0], 0, 4), 1);
    assert_eq!(find_nul(&[1, 0, 2, 0], 2, 4), 3);
    assert_eq!(find_nul(&[1, 0, 2, 0], 2, 3), 3);
    assert_eq!(find_nul(&[1, 0, 2, 0], 4, 4), 4);
}

fn game_info_bytes() -> Vec<u8> {
    let mut bytes = vec![0x10, 0x01, 0x00, 0x00, 0x00, 1];
    bytes.extend_from_slice(b"host\0");
    bytes.extend_from_slice(&[1, 0xAA]);
    bytes.extend_from_slice(b"2v2 ladder\0");
    bytes.push(0);
    bytes.extend_from_slice(b"\x01\x03Maps\\x.w3x\0");
    bytes.extend_from_slice(&4u32.to_le_bytes());
    bytes.extend_from_slice(&0x0900_0001u32.to_le_bytes());
    bytes.extend_from_slice(&0x0409u32.to_le_bytes());
    bytes
}

#[test]
fn game_info_opens_the_stream() {
    let bytes = game_info_bytes();
    let expected = Record::GameInfo {
        word: 0x110,
        host_kind: 0,
        host_id: 1,
        host_name: b"host".to_vec(),
        host_extra: vec![0xAA],
        game_name: b"2v2 ladder".to_vec(),
        settings: b"\x01\x03Maps\\x.w3x".to_vec(),
        player_count: 4,
        game_type: 0x0900_0001,
        language_id: 0x0409,
    };
    assert_eq!(bytes.len(), 50);
    assert_eq!(parse_record(&bytes, 0), Ok((expected.clone(), 50)));
    assert_eq!(expected.type_id(), 0x10);
    for cut in 1..bytes.len() {
        assert_eq!(
            parse_record(&bytes[..cut], 0),
            Err(Error::Truncated { stage: Stage::Record, index: 0 })
        );
    }
    let mut stream = bytes.clone();
    stream.extend_from_slice(&[0x16, 2, b'p', 0, 0, 0, 0, 0, 0]);
    let got = records_of(file(&[block(&stream[..20]), block(&stream[20..])]));
    assert_eq!(got.len(), 2);
    assert_eq!(got[0], Ok(expected));
    assert_eq!(
        got[1],
        Ok(Record::PlayerInfo { player_id: 2, name: vec![b'p'], extra: vec![], unknown: 0 })
    );
}

#[test]
fn cursor_asks_for_input_until_a_record_is_whole() {
    let mut cursor = RecordCursor::new();
    assert_eq!(cursor.position(), 0);
    assert_eq!(cursor.poll(true), Poll::NeedInput);
    cursor.feed(vec![0x1A, 7, 0]);
    assert_eq!(cursor.poll(true), Poll::NeedInput);
    assert_eq!(cursor.position(), 0);
    cursor.feed(vec![0, 0, 0x1B]);
    assert_eq!(cursor.poll(true), Poll::Record(Record::CountDownStart { unknown: 7 }));
    assert_eq!(cursor.position(), 5);
    assert_eq!(cursor.poll(true), Poll::NeedInput);
    assert!(!cursor.is_finished());
    assert_eq!(
        cursor.poll(false),
        Poll::Failed(Error::Truncated { stage: Stage::Record, index: 5 })
    );
    assert!(cursor.is_finished());
    assert_eq!(cursor.poll(true), Poll::Finished);
    assert_eq!(cursor.poll(false), Poll::Finished);
}

#[test]
fn cursor_ends_cleanly_at_a_record_boundary() {
    let mut cursor = RecordCursor::new();
    cursor.feed(vec![0x1C, 1, 0, 0, 0]);
    assert_eq!(cursor.poll(false), Poll::Record(Record::GameStart { unknown: 1 }));
    assert_eq!(cursor.poll(false), Poll::Finished);
    assert!(cursor.is_finished());

    let mut empty = RecordCursor::new();
    assert_eq!(empty.poll(false), Poll::Finished);

    let mut halted = RecordCursor::new();
    halted.feed(vec![0x1C, 1, 0, 0, 0]);
    halted.stop();
    assert_eq!(halted.poll(true), Poll::Finished);
    assert_eq!(halted.position(), 0);
}

#[test]
fn cursor_fails_on_what_it_cannot_read() {
    let mut cursor = RecordCursor::new();
    cursor.feed(vec![0x1F, 0, 0, 0x1A]);
    assert_eq!(
        cursor.poll(true),
        Poll::Failed(Error::MalformedRecordField { offset: 0, tag: 0x1F })
    );
    assert_eq!(cursor.poll(true), Poll::Finished);
}

fn narrow_block(content: &[u8]) -> Vec<u8> {
    let packed = deflate(content);
    let mut out = Vec::new();
    out.extend_from_slice(&(packed.len() as u16).to_le_bytes());
    out.extend_from_slice(&(content.len() as u16).to_le_bytes());
    out.extend_from_slice(&0x0102_0304u32.to_le_bytes());
    out.extend_from_slice(&packed);
    out
}

#[test]
fn older_versions_store_block_sizes_in_16_bits() {
    let mut header = sample_header(2);
    header.version = 26;
    let first = time_slot(30, 1);
    let second = time_slot(20, 2);
    let mut bytes = header.encode();
    bytes.extend_from_slice(&narrow_block(&first));
    bytes.extend_from_slice(&narrow_block(&second));
    let got = records_of(bytes);
    assert_eq!(
        got,
        vec![
            Ok(Record::TimeSlot { fragment: false, time_increment_ms: 250, actions: vec![1; 25] }),
            Ok(Record::TimeSlot { fragment: false, time_increment_ms: 250, actions: vec![2; 15] }),
        ]
    );

    let raw = narrow_block(&first);
    assert_eq!(
        BlockHeader::decode(&raw, 0, raw.len() - 8, false),
        Ok(BlockHeader {
            compressed_size: (raw.len() - 8) as u32,
            decompressed_size: 30,
            checksum: 0x0102_0304,
        })
    );
    assert_eq!(
        BlockHeader::decode(&raw[..7], 1, 100, false),
        Err(Error::Truncated { stage: Stage::BlockHeader, index: 1 })
    );
    let mut blocks = Blocks::new(raw, 0, 1, NARROW);
    assert_eq!(blocks.next_block(), Some(Ok(first)));
}

#[test]
fn the_version_decides_the_width_at_the_threshold() {
    let content = time_slot(10, 5);
    let mut old = sample_header(1);
    old.version = 10031;
    let mut bytes = old.encode();
    bytes.extend_from_slice(&narrow_block(&content));
    assert_eq!(records_of(bytes).len(), 1);

    let mut new = sample_header(1);
    new.version = 10032;
    let mut bytes = new.encode();
    bytes.extend_from_slice(&block(&content));
    assert_eq!(records_of(bytes).len(), 1);
}

#[test]
fn checksums_combine_two_folded_sums() {
    assert_eq!(combine_checksum(0x1234_5678, 0xABCD_EF01), 0x44CC_444C);
    assert_eq!(combine_checksum(0, 0), 0);
    assert_eq!(combine_checksum(0xFFFF_0000, 0x0000_FFFF), 0xFFFF_FFFF);
    assert_eq!(combine_checksum(0xFFFF_FFFF, 0xFFFF_FFFF), 0);
}

#[test]
fn block_checksum_uses_crc32_of_header_and_payload() {
    let header = BlockHeader { compressed_size: 9, decompressed_size: 100, checksum: 0 };
    let sum = header.checksum_of(true, b"123456789");
    assert_eq!(sum >> 16, 0xF2D2);
    let mut crc = flate2::Crc::new();
    crc.update(&[9, 0, 0, 0, 100, 0, 0, 0, 0, 0, 0, 0]);
    assert_eq!(sum, combine_checksum(crc.sum(), 0xCBF4_3926));
    let mut crc = flate2::Crc::new();
    crc.update(&[9, 0, 100, 0, 0, 0, 0, 0]);
    assert_eq!(header.checksum_of(false, b"123456789"), combine_checksum(crc.sum(), 0xCBF4_3926));
}

#[test]
fn checksums_are_enforced_only_on_request() {
    let content = time_slot(16, 8);
    let packed = deflate(&content);
    let mut header = BlockHeader {
        compressed_size: packed.len() as u32,
        decompressed_size: 16,
        checksum: 0,
    };
    let right = header.checksum_of(true, &packed);
    header.checksum = right ^ 1;
    assert_eq!(decode_block(0, &header, &packed, WIDE), Ok(content.clone()));
    assert_eq!(
        decode_block(0, &header, &packed, WIDE_STRICT),
        Err(Error::ChecksumMismatch { block: 0 })
    );
    header.checksum = right;
    assert_eq!(decode_block(0, &header, &packed, WIDE_STRICT), Ok(content.clone()));

    let mut good = Vec::new();
    good.extend_from_slice(&(packed.len() as u32).to_le_bytes());
    good.extend_from_slice(&16u32.to_le_bytes());
    good.extend_from_slice(&right.to_le_bytes());
    good.extend_from_slice(&packed);
    let mut bytes = sample_header(1).encode();
    bytes.extend_from_slice(&good);
    let strict = W3Replay::from_vec_with(bytes.clone(), true).unwrap();
    assert_eq!(collect(strict.into_records()).len(), 1);

    bytes[68 + 8] ^= 0x40;
    let lax = W3Replay::from_vec_with(bytes.clone(), false).unwrap();
    assert_eq!(collect(lax.into_records()).len(), 1);
    assert_eq!(records_of(bytes.clone()).len(), 1);
    let strict = W3Replay::from_vec_with(bytes, true).unwrap();
    assert_eq!(collect(strict.into_records()), vec![Err(Error::ChecksumMismatch { block: 0 })]);
}

#[test]
fn cursor_lets_go_of_what_it_has_read() {
    let mut cursor = RecordCursor::new();
    assert_eq!(cursor.buffered(), 0);
    assert!(cursor.feed(time_slot(100, 1)));
    assert_eq!(cursor.buffered(), 100);
    assert!(matches!(cursor.poll(true), Poll::Record(_)));
    assert_eq!(cursor.position(), 100);
    assert_eq!(cursor.poll(true), Poll::NeedInput);
    assert!(cursor.feed(vec![0x1A, 1, 0]));
    assert_eq!(cursor.buffered(), 3);
    assert_eq!(cursor.poll(true), Poll::NeedInput);
    assert!(cursor.feed(vec![0, 0, 0x77, 0x1A]));
    assert_eq!(cursor.buffered(), 7);
    assert_eq!(cursor.poll(true), Poll::Record(Record::CountDownStart { unknown: 1 }));
    assert_eq!(cursor.position(), 105);
    assert_eq!(cursor.poll(true), Poll::Failed(Error::UnknownRecordTag { offset: 105, tag: 0x77 }));
    assert_eq!(cursor.position(), 105);
}

#[test]
fn offsets_count_from_the_start_of_the_stream() {
    let mut stream = time_slot(60, 1);
    stream.extend_from_slice(&chat(1, 0x10, None, b"one"));
    stream.extend_from_slice(&[0x20, 1, 2, 0, 0x10, b'x']);
    let got = records_of(file(&[block(&stream[..50]), block(&stream[50..65]), block(&stream[65..])]));
    assert_eq!(got.len(), 3);
    assert_eq!(got[2], Err(Error::MalformedRecordField { offset: 69, tag: 0x20 }));
    let mut cut = stream.clone();
    cut.truncate(71);
    let got = records_of(file(&[block(&cut[..62]), block(&cut[62..])]));
    assert_eq!(got[2], Err(Error::Truncated { stage: Stage::Record, index: 69 }));
}

#[test]
fn block_reader_asks_for_header_then_payload() {
    let content = time_slot(40, 6);
    let raw = block(&content);
    let size = raw.len() - 12;
    let mut reader = BlockReader::new(1, raw.len(), WIDE);
    assert_eq!(reader.request(), Request::Header(12));
    assert_eq!(reader.supply(&raw[..12]), Supplied::Continue);
    assert_eq!(reader.remaining, size);
    assert_eq!(reader.request(), Request::Payload(size));
    assert_eq!(reader.supply(&raw[12..]), Supplied::Segment(content));
    assert_eq!(reader.done, 1);
    assert_eq!(reader.remaining, 0);
    assert_eq!(reader.request(), Request::Finished);
    assert_eq!(reader.supply(&raw[..12]), Supplied::Finished);
}

#[test]
fn block_reader_agrees_with_the_stream_in_memory() {
    let parts: Vec<Vec<u8>> = vec![vec![1; 10], vec![2; 300], vec![]];
    let mut data = Vec::new();
    for p in &parts {
        data.extend_from_slice(&narrow_block(p));
    }
    data.extend_from_slice(&[0xEE; 5]);
    let mut blocks = Blocks::new(data.clone(), 0, 3, NARROW);
    let mut reader = BlockReader::new(3, data.len(), NARROW);
    let mut at = 0;
    loop {
        let want = match reader.request() {
            Request::Finished => break,
            Request::Header(n) | Request::Payload(n) => n,
        };
        let end = (at + want).min(data.len());
        let answer = reader.supply(&data[at..end]);
        at = end;
        if let Supplied::Segment(segment) = answer {
            assert_eq!(blocks.next_block(), Some(Ok(segment)));
        } else {
            assert_eq!(answer, Supplied::Continue);
        }
    }
    assert_eq!(blocks.next_block(), None);
    assert_eq!(at, data.len() - 5);
    assert_eq!(reader.remaining, 5);
}

#[test]
fn block_reader_fails_where_the_input_ends() {
    let raw = block(&[7; 20]);
    let size = raw.len() - 12;

    let mut short_header = BlockReader::new(2, raw.len(), WIDE);
    assert_eq!(
        short_header.supply(&raw[..11]),
        Supplied::Failed(Error::Truncated { stage: Stage::BlockHeader, index: 0 })
    );
    assert_eq!(short_header.request(), Request::Finished);

    let mut short_payload = BlockReader::new(2, raw.len(), WIDE);
    assert_eq!(short_payload.supply(&raw[..12]), Supplied::Continue);
    assert_eq!(
        short_payload.supply(&raw[12..raw.len() - 1]),
        Supplied::Failed(Error::Truncated { stage: Stage::BlockPayload, index: 0 })
    );
    assert_eq!(short_payload.request(), Request::Finished);
    assert_eq!(short_payload.supply(&raw[..12]), Supplied::Finished);

    let mut too_long = BlockReader::new(1, 12 + size - 1, WIDE);
    assert_eq!(too_long.supply(&raw[..12]), Supplied::Failed(Error::BlockHeader { block: 0 }));

    let mut second = BlockReader::new(2, 2 * raw.len(), WIDE);
    assert_eq!(second.supply(&raw[..12]), Supplied::Continue);
    assert_eq!(second.supply(&raw[12..]), Supplied::Segment(vec![7; 20]));
    assert_eq!(second.request(), Request::Header(12));
    assert_eq!(
        second.supply(&[]),
        Supplied::Failed(Error::Truncated { stage: Stage::BlockHeader, index: 1 })
    );
}
