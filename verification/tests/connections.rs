//! What goes over a connection, and how files are fetched.
use cipherclip::crypto::{CryptoError, CryptoState};
use cipherclip::download::{file_name, file_request, files_of_download, files_of_download_with, FileBuffer};
use cipherclip::storage::StorageManager;
use cipherclip::wire::{
    asks_for, chunk, chunk_packet, count_chunks, file_header, frame, on_message, packet, sealed_message,
    FrameReader, MessageKind, Received, Role, Step, CHUNK, MAX_CHUNK, MAX_MESSAGE,
};

fn key() -> CryptoState {
    CryptoState::from_key(vec![5; 32]).unwrap()
}

/// Feeds a reader until it stops or the bytes run out.
fn read(role: Role, bytes: &[u8]) -> (FrameReader, Vec<Step>, usize) {
    let mut reader = FrameReader::new(role);
    let mut at = 0;
    let mut steps = Vec::new();
    while !reader.is_done() && at + reader.wanted() <= bytes.len() {
        let n = reader.wanted();
        match reader.feed(bytes[at..at + n].to_vec()) {
            Step::More => {}
            s => steps.push(s),
        }
        at += n;
    }
    (reader, steps, at)
}

fn describe(r: Received) -> String {
    match r {
        Received::FileWanted(s) => format!("file {}", s),
        Received::SyncWanted(o) => format!("sync {:?}", o),
        Received::Events(o) => format!("events {:?}", o),
        Received::Clip(s) => format!("clip {}", s),
        Received::Nothing => "nothing".to_string(),
    }
}

#[test]
fn a_message_has_this_form() {
    assert_eq!(frame(b"AB", b"xyz"), b"\x02AB\x00\x00\x00\x03xyz".to_vec());
    assert_eq!(frame(b"", &[]), vec![0, 0, 0, 0, 0]);
    assert_eq!(frame(b"k", &vec![7; 0x010203])[2..6], [0, 1, 2, 3]);
}

#[test]
fn a_message_is_read_back() {
    let bytes = frame(b"SYNC_REQ", b"payload");
    let (reader, steps, at) = read(Role::Server, &bytes);
    assert!(reader.is_done());
    assert_eq!(at, bytes.len());
    assert!(matches!(&steps[..], [Step::Message { kind, payload }] if kind == b"SYNC_REQ" && payload == b"payload"));

    let (reader, steps, _) = read(Role::SyncClient, &frame(b"SYNC_RES", b""));
    assert!(reader.is_done());
    assert!(matches!(&steps[..], [Step::Message { kind, payload }] if kind == b"SYNC_RES" && payload.is_empty()));
}

#[test]
fn readers_stop_at_what_they_did_not_ask_for() {
    let (reader, steps, at) = read(Role::SyncClient, &frame(b"BIN_RES", b"x"));
    assert!(reader.is_done());
    assert!(matches!(&steps[..], [Step::Stop]));
    assert_eq!(at, 8);
    assert!(matches!(&read(Role::Download, &frame(b"SYNC_RES", b"x")).1[..], [Step::Stop]));
    assert!(matches!(FrameReader::new(Role::Server).feed(vec![0]), Step::More));
}

#[test]
fn messages_that_are_too_long_are_not_read() {
    let head = |kind: &[u8], n: u32| {
        let mut v = vec![kind.len() as u8];
        v.extend_from_slice(kind);
        v.extend_from_slice(&n.to_be_bytes());
        v
    };
    let (reader, steps, _) = read(Role::Server, &head(b"TEXT", MAX_MESSAGE));
    assert_eq!(reader.wanted(), MAX_MESSAGE as usize);
    assert!(steps.is_empty());
    assert!(matches!(&read(Role::Server, &head(b"TEXT", MAX_MESSAGE + 1)).1[..], [Step::Stop]));
    assert!(matches!(&read(Role::SyncClient, &head(b"SYNC_RES", MAX_MESSAGE)).1[..], [Step::Stop]));
    assert_eq!(read(Role::SyncClient, &head(b"SYNC_RES", MAX_MESSAGE - 1)).0.wanted(), MAX_MESSAGE as usize - 1);
}

#[test]
fn sealed_messages_ask_for_something() {
    let k = key();
    let ask = |kind: MessageKind, body: &[u8]| {
        let m = sealed_message(&k, kind, body).unwrap();
        let (_, mut steps, _) = read(Role::Server, &m);
        match steps.pop() {
            Some(Step::Message { kind, payload }) => describe(on_message(&k, &kind, &payload)),
            _ => "unread".to_string(),
        }
    };
    assert_eq!(ask(MessageKind::FileRequest, "näme".as_bytes()), "file näme");
    assert_eq!(ask(MessageKind::FileRequest, b"\xff"), "nothing");
    assert_eq!(ask(MessageKind::SyncRequest, b"{}"), "sync Some(\"{}\")");
    assert_eq!(ask(MessageKind::SyncRequest, b"\xff"), "sync None");
    assert_eq!(ask(MessageKind::SyncResponse, b"{}"), "events Some(\"{}\")");
    assert_eq!(describe(on_message(&k, b"EVENT", &k.encrypt(b"x").unwrap())), "nothing");
    assert_eq!(describe(on_message(&k, b"TE\xffXT", &k.encrypt(b"x").unwrap())), "clip TE\u{fffd}XT");
    assert_eq!(describe(on_message(&k, b"TEXT", b"not sealed")), "nothing");
    assert_eq!(describe(asks_for(b"TEXT", Err(CryptoError::Cipher))), "nothing");
    assert_eq!(describe(asks_for(b"image", Ok(vec![1]))), "clip image");
}

#[test]
fn a_file_is_sent_in_chunks() {
    assert_eq!(count_chunks(0), 0);
    assert_eq!(count_chunks(1), 1);
    assert_eq!(count_chunks(CHUNK), 1);
    assert_eq!(count_chunks(CHUNK + 1), 2);
    assert_eq!(count_chunks(usize::MAX), usize::MAX / CHUNK + 1);
    let data: Vec<u8> = (0..CHUNK + 10).map(|i| (i % 251) as u8).collect();
    assert_eq!(chunk(&data, 0), data[..CHUNK].to_vec());
    assert_eq!(chunk(&data, 1), data[CHUNK..].to_vec());
    assert_eq!(file_header("ab", CHUNK + 1), b"\x07BIN_RES\x00\x00\x00\x02\x00\x00\x00\x02ab".to_vec());
}

#[test]
fn a_file_that_was_sent_is_received() {
    let k = key();
    let data: Vec<u8> = (0..3 * CHUNK + 10).map(|i| (i % 251) as u8).collect();
    let mut sent = file_header("näme", data.len());
    for i in 0..count_chunks(data.len()) {
        sent.extend(chunk_packet(&k, &data, i).unwrap());
    }
    for role in [Role::Server, Role::Download] {
        let (reader, steps, at) = read(role, &sent);
        assert!(reader.is_done());
        assert_eq!(reader.chunks(), 4);
        assert_eq!(at, sent.len());
        let mut buffer = FileBuffer::new();
        for (i, s) in steps.iter().enumerate() {
            match s {
                Step::FileStart { name } => assert_eq!(file_name(name), "näme"),
                Step::FileChunk { index, sealed } => {
                    assert_eq!(*index as usize, i - 1);
                    assert!(buffer.add_chunk(&k, sealed));
                }
                _ => panic!("unexpected"),
            }
        }
        assert_eq!(buffer.len(), data.len());
        assert_eq!(buffer.bytes(), &data);
    }
    let (reader, steps, _) = read(Role::Download, &file_header("x", 0));
    assert!(reader.is_done());
    assert_eq!(steps.len(), 1);
}

#[test]
fn a_chunk_that_does_not_open_ends_the_file() {
    let mut buffer = FileBuffer::new();
    assert!(buffer.take(Ok(vec![1, 2])));
    assert!(!buffer.take(Err(CryptoError::Cipher)));
    assert!(!buffer.add_chunk(&key(), &[0; 50]));
    assert_eq!(buffer.bytes(), &vec![1, 2]);
    let mut head = file_header("x", 5);
    head.extend_from_slice(&(MAX_CHUNK + 1).to_be_bytes());
    let (reader, steps, _) = read(Role::Download, &head);
    assert!(reader.is_done());
    assert!(matches!(steps.last(), Some(Step::Stop)));
}

#[test]
fn a_file_is_asked_for_by_its_name() {
    let k = key();
    let (_, steps, _) = read(Role::Server, &file_request(&k, "abc").unwrap());
    match &steps[..] {
        [Step::Message { kind, payload }] => assert_eq!(describe(on_message(&k, kind, payload)), "file abc"),
        _ => panic!("unread"),
    }
    assert_eq!(file_name(b"a\xffb"), "a\u{fffd}b");
}

#[test]
fn a_received_file_is_kept_plain_and_sealed() {
    let k = key();
    let files = files_of_download(&k, &StorageManager::new("dir".to_string()), "abc", &b"content".to_vec());
    assert_eq!(files.len(), 2);
    assert_eq!((files[0].path.dir.as_str(), files[0].path.name.as_str()), ("dir", "abc.png"));
    assert_eq!(files[0].bytes, b"content");
    assert_eq!((files[1].path.dir.as_str(), files[1].path.name.as_str()), ("dir", "abc.enc"));
    assert_eq!(k.decrypt(&files[1].bytes).unwrap(), b"content");
}

#[test]
fn without_a_nonce_a_received_file_is_kept_plain_only() {
    let k = key();
    let storage = StorageManager::new("dir".to_string());
    let data = b"content".to_vec();
    let files = files_of_download_with(&k, &storage, "abc", &data, Some(vec![6; 24]));
    assert_eq!(files.len(), 2);
    assert_eq!(files[1].bytes, k.encrypt_with(&[6; 24], b"content").unwrap());
    let files = files_of_download_with(&k, &storage, "abc", &data, None);
    assert_eq!(files.len(), 1);
    assert_eq!((files[0].path.name.as_str(), files[0].bytes.as_slice()), ("abc.png", b"content".as_slice()));
}

#[test]
fn a_packet_tells_its_length() {
    assert_eq!(packet(b""), [0, 0, 0, 0]);
    assert_eq!(packet(&[7; 258])[..6], [0, 0, 1, 2, 7, 7]);
    assert_eq!(packet(&[7; 258]).len(), 262);
}
