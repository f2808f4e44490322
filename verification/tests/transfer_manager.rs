use roomrtc::app::file_transfer::{FileMetadata, FileTransferEvent, FileTransferManager};
use roomrtc::config::FileTransferConfig;
use roomrtc::protocols::message::Message;

fn small_config(check: bool) -> FileTransferConfig {
    FileTransferConfig {
        chunk_size_kb: 1,
        max_file_size_mb: 1,
        max_concurrent_uploads: 2,
        max_concurrent_downloads: 10,
        enable_integrity_check: check,
    }
}

fn hex(bytes: &[u8]) -> String {
    bytes.iter().map(|b| format!("{:02x}", b)).collect()
}

fn offer(id: u16, data: &[u8], digest: Option<[u8; 32]>) -> Message {
    let meta = FileMetadata::from_file(Some("f.bin"), data).unwrap();
    let mut m = Message::new("OFFER_FILE");
    m.insert("stream_id".to_string(), id.to_string());
    m.insert("file_name".to_string(), "f.bin".to_string());
    m.insert("file_size".to_string(), data.len().to_string());
    m.insert("file_sha256".to_string(), hex(&digest.unwrap_or(meta.sha256)));
    m
}

#[test]
fn defaults_and_counts() {
    let m = FileTransferManager::new_with_defaults();
    assert_eq!(m.chunk_size_bytes(), 64 * 1024);
    assert_eq!(m.config().max_concurrent_uploads, 5);
    assert_eq!(m.active_downloads_count(), 0);
    assert_eq!(m.active_uploads_count(), 0);
    assert!(m.get_active_download_streams().is_empty());
}

#[test]
fn uploads_are_limited_in_number_and_size() {
    let mut m = FileTransferManager::new(small_config(true));
    assert!(m.upload_limit_error().is_none());
    let big = vec![0u8; 2 * 1024 * 1024 + 1];
    assert_eq!(m.prepare_upload(Some("big"), &big).unwrap_err(), "Archivo demasiado grande: 2 MB (máximo: 1 MB)");
    assert_eq!(m.prepare_upload(None, b"abc").unwrap_err(), "No se pudo extraer nombre del archivo");
    let meta = m.prepare_upload(Some("a.txt"), b"abc").unwrap();
    assert_eq!(meta, FileMetadata::from_file(Some("a.txt"), b"abc").unwrap());
    m.register_upload(3, meta.clone(), vec![1u8; 2500]);
    m.register_upload(4, meta, vec![]);
    assert_eq!(m.active_uploads_count(), 2);
    assert_eq!(m.active_uploads[&3].total_chunks, 3);
    assert_eq!(m.active_uploads[&4].total_chunks, 0);
    assert_eq!(m.upload_limit_error().unwrap(), "Máximo de uploads concurrentes alcanzado (2)");
    assert_eq!(m.get_upload_metadata(3).unwrap().name, "a.txt");
    assert!(m.get_upload_metadata(5).is_none());
}

#[test]
fn accepted_upload_is_cut_into_chunks() {
    let mut m = FileTransferManager::new(small_config(true));
    let data: Vec<u8> = (0..2500u32).map(|i| i as u8).collect();
    let meta = FileMetadata::from_file(Some("x"), &data).unwrap();
    m.register_upload(7, meta, data.clone());
    let chunks = m.on_accept_file(7).unwrap();
    assert_eq!(chunks.iter().map(|c| c.len()).collect::<Vec<_>>(), vec![1024, 1024, 452]);
    assert_eq!(chunks.concat(), data);
    assert_eq!(m.active_uploads_count(), 0);
    assert_eq!(m.on_accept_file(7).unwrap_err(), "Upload no encontrado");
}

#[test]
fn offered_file_is_downloaded_and_checked() {
    let mut m = FileTransferManager::new(small_config(true));
    let data = b"hello file transfer".to_vec();
    match m.on_offer_file(offer(9, &data, None)).unwrap() {
        FileTransferEvent::IncomingOffer { stream_id, metadata } => {
            assert_eq!(stream_id, 9);
            assert_eq!(metadata.size, data.len() as u64);
        }
        _ => panic!("not an offer"),
    }
    m.accept(9);
    assert_eq!(m.get_active_download_streams(), vec![9]);
    assert_eq!(m.get_download_metadata(9).unwrap().name, "f.bin");

    let (events, dropped) = m.poll_events(vec![(9, data[..5].to_vec()), (1, vec![1, 2, 3])]);
    assert!(events.is_empty() && dropped.is_empty());
    assert_eq!(m.active_downloads[&9].received_bytes, data[..5].to_vec());

    let mut rest = data[5..].to_vec();
    rest.extend_from_slice(b"trailing bytes beyond the size");
    let (events, dropped) = m.poll_events(vec![(9, rest)]);
    assert!(dropped.is_empty());
    match &events[..] {
        [FileTransferEvent::Completed { stream_id: 9, file }] => {
            assert_eq!(file.data, data);
            assert!(file.verify_integrity());
        }
        _ => panic!("file not completed"),
    }
    assert_eq!(m.active_downloads_count(), 0);
}

#[test]
fn corrupted_file_drops_the_channel() {
    let mut m = FileTransferManager::new(small_config(true));
    let data = b"abcdef".to_vec();
    m.on_offer_file(offer(2, &data, Some([7u8; 32]))).unwrap();
    m.accept(2);
    let (events, dropped) = m.poll_events(vec![(2, data.clone())]);
    assert!(events.is_empty());
    assert_eq!(dropped, vec![2]);
    assert_eq!(m.active_downloads_count(), 0);

    let mut unchecked = FileTransferManager::new(small_config(false));
    unchecked.on_offer_file(offer(2, &data, Some([7u8; 32]))).unwrap();
    unchecked.accept(2);
    let (events, dropped) = unchecked.poll_events(vec![(2, data)]);
    assert_eq!(events.len(), 1);
    assert!(dropped.is_empty());
}

#[test]
fn malformed_offer_and_reject_and_shutdown() {
    let mut m = FileTransferManager::new(small_config(true));
    assert_eq!(m.on_offer_file(Message::new("OFFER_FILE")).unwrap_err(), "OFFER_FILE sin stream_id");
    m.on_offer_file(offer(5, b"x", None)).unwrap();
    m.accept(6);
    assert_eq!(m.active_downloads_count(), 0);
    m.reject(5);
    m.accept(5);
    assert_eq!(m.active_downloads_count(), 0);
    m.on_offer_file(offer(8, b"y", None)).unwrap();
    m.accept(8);
    m.register_upload(1, FileMetadata::from_file(Some("z"), b"z").unwrap(), b"z".to_vec());
    m.shutdown();
    assert_eq!((m.active_downloads_count(), m.active_uploads_count()), (0, 0));
}

#[test]
fn chunk_is_limited_to_the_chunk_size() {
    let mut m = FileTransferManager::new(small_config(true));
    let data = vec![3u8; 3000];
    m.on_offer_file(offer(4, &data, None)).unwrap();
    m.accept(4);
    let (events, _) = m.poll_events(vec![(4, data.clone())]);
    assert!(events.is_empty());
    assert_eq!(m.active_downloads[&4].received_bytes.len(), 1024);
}
