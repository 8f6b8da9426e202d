use file_transfer::{
    producer_step, receive_download, receive_upload, serve_download, split_into_chunks,
    upload_messages, FileServiceImpl, ProducerAction, ReadEvent, TransferError, UploadMessage,
    UploadReceiver, UploadStep, CHUNK_SIZE, QUEUE_CAPACITY,
};

fn pseudo_random_bytes(len: usize, seed: u64) -> Vec<u8> {
    let mut state = seed;
    let mut out = Vec::with_capacity(len);
    for _ in 0..len {
        state = state.wrapping_mul(6364136223846793005).wrapping_add(1442695040888963407);
        out.push((state >> 33) as u8);
    }
    out
}

fn round_trip(data: &Vec<u8>) -> (String, Vec<u8>, Vec<u8>) {
    let messages = upload_messages("payload.bin", data);
    let (path, stored) = receive_upload("/srv/files", messages).expect("upload succeeds");
    let items = serve_download(Some(&stored));
    let downloaded = receive_download(items).expect("download succeeds");
    (path, stored, downloaded)
}

#[test]
fn constants_match_the_flow_control_design() {
    assert_eq!(CHUNK_SIZE, 1024 * 1024);
    assert_eq!(QUEUE_CAPACITY, 10);
}

#[test]
fn empty_file_is_sent_as_no_chunks() {
    assert!(split_into_chunks(&Vec::new()).is_empty());
    let messages = upload_messages("empty", &Vec::new());
    assert_eq!(messages.len(), 1);
    assert!(matches!(&messages[0], UploadMessage::Name(n) if n == "empty"));
}

#[test]
fn short_file_is_one_chunk() {
    let data = b"hello".to_vec();
    let chunks = split_into_chunks(&data);
    assert_eq!(chunks, vec![data]);
}

#[test]
fn exact_chunk_file_is_one_full_chunk() {
    let data = pseudo_random_bytes(CHUNK_SIZE, 7);
    let chunks = split_into_chunks(&data);
    assert_eq!(chunks.len(), 1);
    assert_eq!(chunks[0], data);
}

#[test]
fn long_file_is_full_chunks_then_the_rest() {
    let data = pseudo_random_bytes(2 * CHUNK_SIZE + 37, 11);
    let chunks = split_into_chunks(&data);
    let lens: Vec<usize> = chunks.iter().map(|c| c.len()).collect();
    assert_eq!(lens, vec![CHUNK_SIZE, CHUNK_SIZE, 37]);
    assert_eq!(chunks.concat(), data);
}

#[test]
fn producer_decisions() {
    assert!(matches!(
        producer_step(ReadEvent::OpenFailed),
        ProducerAction::Fail(TransferError::NotFound)
    ));
    assert!(matches!(
        producer_step(ReadEvent::ReadFailed),
        ProducerAction::Fail(TransferError::Io)
    ));
    assert!(matches!(producer_step(ReadEvent::Read(Vec::new())), ProducerAction::Stop));
    match producer_step(ReadEvent::Read(vec![1, 2, 3])) {
        ProducerAction::Send { chunk, more } => {
            assert_eq!(chunk, vec![1, 2, 3]);
            assert!(!more);
        }
        _ => panic!("a short read is sent as the last chunk"),
    }
    match producer_step(ReadEvent::Read(vec![0; CHUNK_SIZE])) {
        ProducerAction::Send { chunk, more } => {
            assert_eq!(chunk.len(), CHUNK_SIZE);
            assert!(more);
        }
        _ => panic!("a full read is sent and followed by another read"),
    }
}

#[test]
fn round_trip_of_empty_file() {
    let data = Vec::new();
    let (path, stored, downloaded) = round_trip(&data);
    assert_eq!(path, "/srv/files/payload.bin");
    assert_eq!(stored, data);
    assert_eq!(downloaded, data);
}

#[test]
fn round_trip_of_short_file() {
    let data = pseudo_random_bytes(1000, 3);
    let (_, stored, downloaded) = round_trip(&data);
    assert_eq!(stored, data);
    assert_eq!(downloaded, data);
}

#[test]
fn round_trip_of_exact_chunk_file() {
    let data = pseudo_random_bytes(CHUNK_SIZE, 5);
    let (_, stored, downloaded) = round_trip(&data);
    assert_eq!(stored, data);
    assert_eq!(downloaded, data);
}

#[test]
fn round_trip_of_multi_chunk_file() {
    let data = pseudo_random_bytes(3 * CHUNK_SIZE + 1, 9);
    let (_, stored, downloaded) = round_trip(&data);
    assert_eq!(stored, data);
    assert_eq!(downloaded, data);
}

#[test]
fn upload_of_two_mebibytes_and_37_bytes_is_stored_identically() {
    let data = pseudo_random_bytes(2 * 1024 * 1024 + 37, 42);
    let messages = upload_messages("random.bin", &data);
    assert_eq!(messages.len(), 4);
    let (path, stored) = receive_upload("/srv/files", messages).unwrap();
    assert_eq!(path, "/srv/files/random.bin");
    assert_eq!(stored.len(), data.len());
    assert_eq!(stored, data);
}

#[test]
fn upload_starting_with_chunk_is_a_protocol_violation() {
    let messages = vec![UploadMessage::Chunk(b"hello".to_vec()), UploadMessage::Name("a".to_string())];
    assert_eq!(
        receive_upload("/srv", messages).err(),
        Some(TransferError::ProtocolViolation)
    );

    let mut receiver = UploadReceiver::new("/srv");
    let step = receiver.on_message(UploadMessage::Chunk(b"x".to_vec()));
    assert_eq!(step.err(), Some(TransferError::ProtocolViolation));
    assert!(receiver.name.is_none());
    assert_eq!(receiver.on_end().err(), Some(TransferError::ProtocolViolation));
}

#[test]
fn empty_upload_is_a_protocol_violation() {
    assert_eq!(
        receive_upload("/srv", Vec::new()).err(),
        Some(TransferError::ProtocolViolation)
    );
}

#[test]
fn second_name_is_a_protocol_violation() {
    let mut receiver = UploadReceiver::new("/srv");
    match receiver.on_message(UploadMessage::Name("abc".to_string())) {
        Ok(UploadStep::Create(p)) => assert_eq!(p, "/srv/abc"),
        _ => panic!("the first name creates the destination"),
    }
    match receiver.on_message(UploadMessage::Chunk(b"hi".to_vec())) {
        Ok(UploadStep::Write(b)) => assert_eq!(b, b"hi".to_vec()),
        _ => panic!("a chunk after the name is written"),
    }
    assert_eq!(
        receiver.on_message(UploadMessage::Name("xyz".to_string())).err(),
        Some(TransferError::ProtocolViolation)
    );
    assert!(matches!(receiver.on_end(), Ok(UploadStep::Commit)));
}

#[test]
fn upload_name_with_separator_is_refused() {
    let messages = vec![
        UploadMessage::Name("../etc/passwd".to_string()),
        UploadMessage::Chunk(b"x".to_vec()),
    ];
    assert_eq!(
        receive_upload("/srv", messages).err(),
        Some(TransferError::ProtocolViolation)
    );
}

#[test]
fn download_of_missing_file_is_not_found_with_no_bytes() {
    let items = serve_download(None);
    assert_eq!(items.len(), 1);
    assert_eq!(items[0].as_ref().err(), Some(&TransferError::NotFound));
    assert_eq!(receive_download(items).err(), Some(TransferError::NotFound));
}

#[test]
fn download_that_ends_in_error_is_not_complete() {
    let items = vec![Ok(b"hel".to_vec()), Err(TransferError::Io), Ok(b"lo".to_vec())];
    assert_eq!(receive_download(items).err(), Some(TransferError::Io));
}

#[test]
fn download_path_resolves_under_the_served_directory() {
    let service = FileServiceImpl::new("/srv/files".to_string());
    assert_eq!(service.download_path("abc"), Ok("/srv/files/abc".to_string()));
    assert_eq!(service.download_path("../secret"), Err(TransferError::NotFound));
    assert_eq!(service.download_path(""), Err(TransferError::NotFound));
    assert_eq!(service.list_root(), "/srv/files");
    let receiver = service.start_upload();
    assert_eq!(receiver.root, "/srv/files");
    assert!(receiver.name.is_none());
}

#[test]
fn two_downloads_each_get_their_own_content() {
    let first = pseudo_random_bytes(CHUNK_SIZE + 10, 1);
    let second = pseudo_random_bytes(CHUNK_SIZE + 20, 2);
    let mut a = serve_download(Some(&first));
    let mut b = serve_download(Some(&second));
    let mut got_a = Vec::new();
    let mut got_b = Vec::new();
    while !a.is_empty() || !b.is_empty() {
        if !a.is_empty() {
            got_a.push(a.remove(0));
        }
        if !b.is_empty() {
            got_b.push(b.remove(0));
        }
    }
    assert_eq!(receive_download(got_a).unwrap(), first);
    assert_eq!(receive_download(got_b).unwrap(), second);
}
