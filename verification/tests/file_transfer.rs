use roomrtc::app::file_transfer::{offer_from_message, FileMetadata, ReceivedFile};
use roomrtc::config::FileTransferConfig;
use roomrtc::protocols::message::Message;
use sha2::{Digest, Sha256};

fn get_chunk_size() -> usize {
    FileTransferConfig::default().chunk_size_kb * 1024
}

#[test]
fn test_metadata_serialization_roundtrip() {
    let metadata = FileMetadata {
        name: "test.txt".to_string(),
        size: 12345,
        sha256: [42u8; 32],
    };

    let bytes = metadata.to_bytes();
    let decoded = FileMetadata::from_bytes(&bytes).expect("Should decode successfully");

    assert_eq!(metadata, decoded);
}

#[test]
fn test_metadata_from_bytes_too_short() {
    let buf = vec![0u8; 10];
    let result = FileMetadata::from_bytes(&buf);

    assert!(result.is_err());
}

#[test]
fn test_received_file_verify_integrity() {
    let data = b"Hello, World!";
    let mut hasher = Sha256::new();
    hasher.update(data);
    let hash = hasher.finalize();
    let mut sha256 = [0u8; 32];
    sha256.copy_from_slice(&hash[..]);

    let file = ReceivedFile {
        metadata: FileMetadata {
            name: "test.txt".to_string(),
            size: data.len() as u64,
            sha256,
        },
        data: data.to_vec(),
    };

    assert!(file.verify_integrity());
}

#[test]
fn test_received_file_verify_integrity_fails() {
    let data = b"Hello, World!";
    let wrong_hash = [99u8; 32];

    let file = ReceivedFile {
        metadata: FileMetadata {
            name: "test.txt".to_string(),
            size: data.len() as u64,
            sha256: wrong_hash,
        },
        data: data.to_vec(),
    };

    assert!(!file.verify_integrity());
}

#[test]
fn test_default_chunk_size() {
    let config = FileTransferConfig::default();
    assert_eq!(config.chunk_size_kb, 64);
    assert_eq!(config.chunk_size_kb * 1024, 64 * 1024);
}

#[test]
fn test_config_limits() {
    let config = FileTransferConfig::default();
    assert_eq!(config.max_file_size_mb, 100);
    assert_eq!(config.max_concurrent_uploads, 5);
    assert_eq!(config.max_concurrent_downloads, 10);
    assert!(config.enable_integrity_check);
}

#[test]
fn test_metadata_long_filename() {
    let long_name = "a".repeat(1000);
    let metadata = FileMetadata {
        name: long_name.clone(),
        size: 12345,
        sha256: [42u8; 32],
    };

    let bytes = metadata.to_bytes();
    let parsed = FileMetadata::from_bytes(&bytes).expect("Failed to parse");

    assert_eq!(parsed.name, long_name);
    assert_eq!(parsed.size, 12345);
    assert_eq!(parsed.sha256, [42u8; 32]);
}

#[test]
fn test_metadata_empty_file() {
    let metadata = FileMetadata {
        name: "empty.txt".to_string(),
        size: 0,
        sha256: [0u8; 32],
    };

    let bytes = metadata.to_bytes();
    let parsed = FileMetadata::from_bytes(&bytes).expect("Failed to parse");

    assert_eq!(parsed.size, 0);
}

#[test]
fn test_metadata_max_size() {
    let metadata = FileMetadata {
        name: "huge.bin".to_string(),
        size: u64::MAX,
        sha256: [255u8; 32],
    };

    let bytes = metadata.to_bytes();
    let parsed = FileMetadata::from_bytes(&bytes).expect("Failed to parse");

    assert_eq!(parsed.size, u64::MAX);
}

#[test]
fn test_metadata_truncated_buffer() {
    let metadata = FileMetadata {
        name: "test.txt".to_string(),
        size: 100,
        sha256: [1u8; 32],
    };

    let bytes = metadata.to_bytes();
    let truncated = &bytes[..bytes.len() - 10];

    let result = FileMetadata::from_bytes(truncated);
    assert!(result.is_err());
}

#[test]
fn test_metadata_invalid_utf8() {
    let mut bytes = vec![0, 0, 0, 5];
    bytes.extend_from_slice(&[0xFF, 0xFE, 0xFD, 0xFC, 0xFB]);
    bytes.extend_from_slice(&100u64.to_be_bytes());
    bytes.extend_from_slice(&[7u8; 32]);

    let result = FileMetadata::from_bytes(&bytes);
    assert!(result.is_err());
}

#[test]
fn test_chunk_reassembly() {
    let chunk_size = get_chunk_size();
    let original_data = vec![0x55; chunk_size * 2 + 123];
    let chunks: Vec<_> = original_data.chunks(chunk_size).collect();

    assert!(chunks.len() > 1, "Should split into multiple chunks");

    let mut reassembled = Vec::new();
    for chunk in chunks {
        reassembled.extend_from_slice(chunk);
    }

    assert_eq!(reassembled, original_data);
}

#[test]
fn test_integrity_verification() {
    let data = b"Test data for integrity check";
    let mut hasher = Sha256::new();
    hasher.update(data);
    let hash: [u8; 32] = hasher.finalize().into();

    let file = ReceivedFile {
        metadata: FileMetadata {
            name: "integrity.txt".to_string(),
            size: data.len() as u64,
            sha256: hash,
        },
        data: data.to_vec(),
    };

    assert!(file.verify_integrity());

    let corrupted_file = ReceivedFile {
        metadata: file.metadata.clone(),
        data: b"Corrupted data".to_vec(),
    };

    assert!(!corrupted_file.verify_integrity());
}

#[test]
fn test_performance_serialization() {
    let metadata = FileMetadata {
        name: "performance_test.dat".to_string(),
        size: 1_000_000,
        sha256: [42u8; 32],
    };

    let start = std::time::Instant::now();
    for _ in 0..10_000 {
        let bytes = metadata.to_bytes();
        let _ = FileMetadata::from_bytes(&bytes).expect("Parse failed");
    }
    let duration = start.elapsed();

    assert!(duration.as_secs() < 1, "Performance should be under 1 second");
}

#[test]
fn test_serialization_format_stability() {
    let metadata = FileMetadata {
        name: "stable.dat".to_string(),
        size: 1024,
        sha256: [0xAB; 32],
    };

    let bytes = metadata.to_bytes();

    assert_eq!(bytes.len(), 4 + 10 + 8 + 32);

    let name_len = u32::from_be_bytes([bytes[0], bytes[1], bytes[2], bytes[3]]);
    assert_eq!(name_len, 10);

    let name_bytes = &bytes[4..14];
    assert_eq!(name_bytes, b"stable.dat");

    let size_bytes = &bytes[14..22];
    let size = u64::from_be_bytes(size_bytes.try_into().unwrap());
    assert_eq!(size, 1024);

    let hash_bytes = &bytes[22..54];
    assert_eq!(hash_bytes, &[0xAB; 32]);
}

#[test]
fn test_multiple_metadata_serializations() {
    let test_files = vec![
        ("file1.txt", 100u64),
        ("file2.dat", 50000u64),
        ("file3.bin", 1_000_000u64),
    ];

    for (name, size) in test_files {
        let metadata = FileMetadata {
            name: name.to_string(),
            size,
            sha256: [0xFF; 32],
        };

        let bytes = metadata.to_bytes();
        let parsed = FileMetadata::from_bytes(&bytes)
            .unwrap_or_else(|_| panic!("Failed to parse metadata for {}", name));

        assert_eq!(parsed.name, name);
        assert_eq!(parsed.size, size);
        assert_eq!(parsed.sha256, [0xFF; 32]);
    }
}

#[test]
fn test_hash_consistency() {
    let data = b"Consistency test data";

    for _ in 0..100 {
        let mut hasher = Sha256::new();
        hasher.update(data);
        let hash1: [u8; 32] = hasher.finalize().into();

        let mut hasher2 = Sha256::new();
        hasher2.update(data);
        let hash2: [u8; 32] = hasher2.finalize().into();

        assert_eq!(hash1, hash2, "SHA-256 should be deterministic");
    }
}

#[test]
fn test_received_file_construction() {
    let data = b"Received file test data";
    let mut hasher = Sha256::new();
    hasher.update(data);
    let hash: [u8; 32] = hasher.finalize().into();

    let received_file = ReceivedFile {
        metadata: FileMetadata {
            name: "received.txt".to_string(),
            size: data.len() as u64,
            sha256: hash,
        },
        data: data.to_vec(),
    };

    assert_eq!(received_file.metadata.name, "received.txt");
    assert_eq!(received_file.metadata.size, data.len() as u64);
    assert_eq!(received_file.data, data);
    assert!(received_file.verify_integrity());
}

#[test]
fn from_file_takes_name_size_and_digest() {
    let data = b"Testing metadata roundtrip.";
    let metadata = FileMetadata::from_file(Some("notes.txt"), data).expect("metadata");
    let expected: [u8; 32] = Sha256::digest(data).into();
    assert_eq!(metadata.name, "notes.txt");
    assert_eq!(metadata.size, data.len() as u64);
    assert_eq!(metadata.sha256, expected);
    assert!(FileMetadata::from_file(None, data).is_err());
}

#[test]
fn from_bytes_rejects_announced_name_longer_than_buffer() {
    let mut bytes = vec![0, 0, 0, 100];
    bytes.extend_from_slice(&[b'a'; 10]);
    bytes.extend_from_slice(&[0u8; 40]);
    assert_eq!(
        FileMetadata::from_bytes(&bytes).unwrap_err(),
        "Buffer too short for name"
    );
}

#[test]
fn from_bytes_ignores_trailing_bytes() {
    let metadata = FileMetadata {
        name: "ñandú.txt".to_string(),
        size: 7,
        sha256: [3u8; 32],
    };
    let mut bytes = metadata.to_bytes();
    bytes.extend_from_slice(&[9, 9, 9]);
    assert_eq!(FileMetadata::from_bytes(&bytes).unwrap(), metadata);
}

fn offer(fields: &[(&str, &str)]) -> Message {
    let mut m = Message::new("OFFER_FILE");
    for (k, v) in fields {
        m.insert(k.to_string(), v.to_string());
    }
    m
}

#[test]
fn offer_from_message_reads_every_field() {
    let digest = "ab".repeat(32);
    let msg = offer(&[
        ("to", "bob"),
        ("stream_id", "7"),
        ("file_name", "a.bin"),
        ("file_size", "+1024"),
        ("file_sha256", &digest),
    ]);
    let (id, meta) = offer_from_message(&msg).expect("valid offer");
    assert_eq!(id, 7);
    assert_eq!(meta.name, "a.bin");
    assert_eq!(meta.size, 1024);
    assert_eq!(meta.sha256, [0xAB; 32]);
}

#[test]
fn offer_from_message_reports_each_problem() {
    let digest = "AB".repeat(32);
    assert_eq!(offer_from_message(&offer(&[])).unwrap_err(), "OFFER_FILE sin stream_id");
    assert_eq!(
        offer_from_message(&offer(&[("stream_id", "70000")])).unwrap_err(),
        "stream_id inválido"
    );
    assert_eq!(
        offer_from_message(&offer(&[("stream_id", "1")])).unwrap_err(),
        "OFFER_FILE sin file_name"
    );
    assert_eq!(
        offer_from_message(&offer(&[("stream_id", "1"), ("file_name", "x")])).unwrap_err(),
        "OFFER_FILE sin file_size"
    );
    assert_eq!(
        offer_from_message(&offer(&[("stream_id", "1"), ("file_name", "x"), ("file_size", "-1")]))
            .unwrap_err(),
        "file_size inválido"
    );
    assert_eq!(
        offer_from_message(&offer(&[("stream_id", "1"), ("file_name", "x"), ("file_size", "1")]))
            .unwrap_err(),
        "OFFER_FILE sin file_sha256"
    );
    assert_eq!(
        offer_from_message(&offer(&[
            ("stream_id", "1"),
            ("file_name", "x"),
            ("file_size", "1"),
            ("file_sha256", "zz")
        ]))
        .unwrap_err(),
        "sha256 inválido"
    );
    assert_eq!(
        offer_from_message(&offer(&[
            ("stream_id", "1"),
            ("file_name", "x"),
            ("file_size", "1"),
            ("file_sha256", "abcd")
        ]))
        .unwrap_err(),
        "sha256 len inválida"
    );
    assert!(offer_from_message(&offer(&[
        ("stream_id", "1"),
        ("file_name", "x"),
        ("file_size", "1"),
        ("file_sha256", &digest)
    ]))
    .is_ok());
}
