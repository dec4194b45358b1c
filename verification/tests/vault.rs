use aegis_engine::crypto::{AegisCrypto, CryptoError};
use aegis_engine::naming::sanitize_filename;
use aegis_engine::sdk::{IoFault, SdkError, Vault, VaultHeader};

fn header_json(header: &VaultHeader) -> Vec<u8> {
    let mut map = serde_json::Map::new();
    map.insert(
        "original_filename".to_string(),
        serde_json::Value::String(header.original_filename.clone()),
    );
    map.insert(
        "timestamp".to_string(),
        serde_json::Value::Number(header.timestamp.into()),
    );
    map.insert(
        "version".to_string(),
        serde_json::Value::Number(header.version.into()),
    );
    map.insert(
        "total_size".to_string(),
        match header.total_size {
            Some(size) => serde_json::Value::Number(size.into()),
            None => serde_json::Value::Null,
        },
    );
    serde_json::to_vec(&serde_json::Value::Object(map)).unwrap()
}

fn parse_header(bytes: &[u8]) -> VaultHeader {
    let value: serde_json::Value = serde_json::from_slice(bytes).unwrap();
    VaultHeader {
        original_filename: value["original_filename"].as_str().unwrap().to_string(),
        timestamp: value["timestamp"].as_u64().unwrap(),
        version: value["version"].as_u64().unwrap() as u8,
        total_size: value["total_size"].as_u64(),
    }
}

fn store(vault: &Vault, data: &[u8], filename: &str) -> (String, Vec<u8>) {
    let header = VaultHeader::new(filename, Some(1_700_000_000), Some(data.len() as u64));
    vault.store_memory(data, &header_json(&header)).unwrap()
}

fn load(vault: &Vault, container: &[u8]) -> Result<Vec<u8>, SdkError> {
    let header = parse_header(&vault.read_header(container)?);
    vault.load_file_to_memory(container, &header)
}

// The lengths of the frames of all records of a container, the header's first.
fn frame_lengths(container: &[u8]) -> Vec<usize> {
    let mut lengths = Vec::new();
    let mut pos = 0;
    while pos < container.len() {
        let len = u32::from_le_bytes(container[pos..pos + 4].try_into().unwrap()) as usize;
        lengths.push(len);
        pos += 4 + len;
    }
    assert_eq!(pos, container.len());
    lengths
}

fn new_vault(root: &str) -> Vault {
    let (_crypto, key) = AegisCrypto::new_random();
    Vault::new(root, &key).unwrap()
}

#[test]
fn test_memory_ingestion_and_restoration() {
    let vault = new_vault("vault_mem");

    let secret_data = b"Super Secret Key In Memory";

    let (_stored_name, container) = store(&vault, secret_data, "secret.key");

    let loaded_data = load(&vault, &container).unwrap();

    assert_eq!(secret_data.to_vec(), loaded_data);
}

#[test]
fn test_vault_stream_store_restore() {
    let vault = new_vault("vault");

    let data = vec![0x42u8; 2_500_000];
    let (stored_name, container) = store(&vault, &data, "large_secret.bin");

    assert!(stored_name.ends_with(".enc"));
    assert_ne!(stored_name, "large_secret.bin.enc");
    assert!(uuid::Uuid::parse_str(&stored_name.replace(".enc", "")).is_ok());

    let header = parse_header(&vault.read_header(&container).unwrap());
    assert_eq!(
        sanitize_filename(&header.original_filename).unwrap(),
        "large_secret.bin"
    );
    assert_eq!(header.total_size, Some(2_500_000));

    let restored_data = vault.load_file_to_memory(&container, &header).unwrap();
    assert_eq!(data, restored_data);

    let lengths = frame_lengths(&container);
    assert_eq!(lengths.len(), 4);
    assert_eq!(&lengths[1..], &[1_048_576 + 28, 1_048_576 + 28, 402_848 + 28]);
}

#[test]
fn test_truncation_detection() {
    let vault = new_vault("vault_trunc");

    let data = vec![0u8; 100];
    let (_name, mut container) = store(&vault, &data, "test.bin");

    container.pop();

    let result = load(&vault, &container);
    assert!(matches!(
        result,
        Err(SdkError::Io(_)) | Err(SdkError::TruncationError) | Err(SdkError::Crypto(_))
    ));
    assert!(matches!(result, Err(SdkError::Io(IoFault::UnexpectedEof))));
}

#[test]
fn test_path_traversal_sanitization() {
    let vault = new_vault("vault_path");

    let data = b"Sensitive Data";
    let (_stored_name, container) = store(&vault, data, "../../../etc/passwd");

    let header = parse_header(&vault.read_header(&container).unwrap());
    assert_eq!(header.original_filename, "../../../etc/passwd");
    let safe = sanitize_filename(&header.original_filename).unwrap();

    let restore_dir = std::path::Path::new("safe_zone");
    let restored_path = restore_dir.join(&safe);
    assert_eq!(restored_path.parent().unwrap(), restore_dir);
    assert_eq!(restored_path.file_name().unwrap(), "passwd");

    assert_eq!(
        vault.load_file_to_memory(&container, &header).unwrap(),
        b"Sensitive Data".to_vec()
    );
}

#[test]
fn corruption_in_the_middle_fails_the_restore() {
    let vault = new_vault("vault_fail");

    let data = vec![0u8; 1024];
    let (_name, mut container) = store(&vault, &data, "fail.bin");

    for byte in container[150..160].iter_mut() {
        *byte = 0xFF;
    }

    let result = load(&vault, &container);
    assert!(matches!(
        result,
        Err(SdkError::Crypto(CryptoError::DecryptionError))
    ));
}

#[test]
fn another_key_is_a_crypto_error() {
    let one = Vault::new("v", &[1u8; 32]).unwrap();
    let other = Vault::new("v", &[2u8; 32]).unwrap();
    let (_name, container) = store(&one, b"for one only", "a.txt");
    assert!(matches!(
        other.read_header(&container),
        Err(SdkError::Crypto(CryptoError::DecryptionError))
    ));
    let header = VaultHeader::new("a.txt", Some(0), Some(12));
    assert!(matches!(
        other.load_file_to_memory(&container, &header),
        Err(SdkError::Crypto(CryptoError::DecryptionError))
    ));
    assert_eq!(load(&one, &container).unwrap(), b"for one only".to_vec());
}

#[test]
fn header_comes_back_as_it_was_sealed() {
    let vault = new_vault("v");
    let header = VaultHeader::new("d\u{e9}j\u{e0} vu/\"quoted\".bin", Some(42), Some(3));
    let json = header_json(&header);
    let (_name, container) = vault.store_memory(b"abc", &json).unwrap();
    let found = vault.read_header(&container).unwrap();
    assert_eq!(found, json);
    let parsed = parse_header(&found);
    assert_eq!(parsed.original_filename, "d\u{e9}j\u{e0} vu/\"quoted\".bin");
    assert_eq!(parsed.timestamp, 42);
    assert_eq!(parsed.version, 1);
    assert_eq!(parsed.total_size, Some(3));
}

#[test]
fn stored_name_does_not_depend_on_the_file_name() {
    let vault = new_vault("v");
    let (first, _) = store(&vault, b"abc", "same.txt");
    let (second, _) = store(&vault, b"abc", "same.txt");
    assert_ne!(first, second);
    assert!(!first.contains("same"));
    assert_eq!(first.len(), 40);
    let id = uuid::Uuid::parse_str(&first[..36]).unwrap();
    assert_eq!(id.get_version_num(), 4);
}

#[test]
fn container_layout_of_small_data() {
    let vault = new_vault("v");
    let json = header_json(&VaultHeader::new("x", Some(0), Some(10)));
    let (_name, container) = vault.store_memory(&[7u8; 10], &json).unwrap();
    assert_eq!(frame_lengths(&container), vec![json.len() + 28, 10 + 28]);
    assert_eq!(container.len(), 4 + json.len() + 28 + 4 + 10 + 28);
}

#[test]
fn empty_data_has_no_chunk_record() {
    let vault = new_vault("v");
    let json = header_json(&VaultHeader::new("empty", Some(0), Some(0)));
    let (_name, container) = vault.store_memory(b"", &json).unwrap();
    assert_eq!(frame_lengths(&container), vec![json.len() + 28]);
    assert_eq!(load(&vault, &container).unwrap(), Vec::<u8>::new());
    assert_eq!(vault.seal_chunks(b"").unwrap(), Vec::<u8>::new());
}

#[test]
fn chunk_boundaries_follow_the_length_alone() {
    let vault = new_vault("v");
    let mib = 1_048_576usize;
    let cases: [(usize, Vec<usize>); 6] = [
        (1, vec![1]),
        (mib - 1, vec![mib - 1]),
        (mib, vec![mib]),
        (mib + 1, vec![mib, 1]),
        (2 * mib, vec![mib, mib]),
        (2 * mib + mib / 2, vec![mib, mib, mib / 2]),
    ];
    for (len, chunks) in cases {
        let data: Vec<u8> = (0..len).map(|i| (i % 251) as u8).collect();
        let records = vault.seal_chunks(&data).unwrap();
        let expected: Vec<usize> = chunks.iter().map(|n| n + 28).collect();
        assert_eq!(frame_lengths(&records), expected);
        assert_eq!(records.len(), len + 32 * chunks.len());
        assert_eq!(vault.process_stream(&records, Some(len as u64)).unwrap(), data);
    }
}

#[test]
fn every_truncation_is_detected() {
    let vault = new_vault("v");
    let data: Vec<u8> = (0..300u32).map(|i| i as u8).collect();
    let (_name, container) = store(&vault, &data, "t.bin");
    let header = parse_header(&vault.read_header(&container).unwrap());
    for cut in 0..container.len() {
        let short = &container[..cut];
        assert!(matches!(
            load(&vault, short),
            Err(SdkError::Io(IoFault::UnexpectedEof)) | Err(SdkError::TruncationError)
        ));
        assert!(matches!(
            vault.load_file_to_memory(short, &header),
            Err(SdkError::Io(IoFault::UnexpectedEof)) | Err(SdkError::TruncationError)
        ));
    }
    assert_eq!(load(&vault, &container).unwrap(), data);
}

#[test]
fn truncation_at_a_record_boundary_is_a_truncation_error() {
    let vault = new_vault("v");
    let data = vec![5u8; 1_048_576 + 10];
    let (_name, container) = store(&vault, &data, "t.bin");
    let lengths = frame_lengths(&container);
    assert_eq!(lengths.len(), 3);
    let after_header = 4 + lengths[0];
    let after_first = after_header + 4 + lengths[1];
    assert!(matches!(
        load(&vault, &container[..after_header]),
        Err(SdkError::TruncationError)
    ));
    assert!(matches!(
        load(&vault, &container[..after_first]),
        Err(SdkError::TruncationError)
    ));
    // In the middle of a length prefix the stream ended early.
    assert!(matches!(
        load(&vault, &container[..after_first + 2]),
        Err(SdkError::Io(IoFault::UnexpectedEof))
    ));
}

#[test]
fn without_an_announced_size_a_lost_record_goes_unnoticed() {
    let vault = new_vault("v");
    let json = header_json(&VaultHeader::new("stream", Some(0), None));
    let data = vec![5u8; 1_048_576 + 10];
    let (_name, container) = vault.store_memory(&data, &json).unwrap();
    assert_eq!(load(&vault, &container).unwrap(), data);
    let lengths = frame_lengths(&container);
    let after_first = 4 + lengths[0] + 4 + lengths[1];
    assert_eq!(
        load(&vault, &container[..after_first]).unwrap(),
        vec![5u8; 1_048_576]
    );
}

#[test]
fn every_flipped_bit_behind_the_first_length_is_detected() {
    let vault = new_vault("v");
    let data: Vec<u8> = (0..40u8).collect();
    let (_name, container) = store(&vault, &data, "t.bin");
    for byte in 4..container.len() {
        for bit in 0..8 {
            let mut bad = container.clone();
            bad[byte] ^= 1 << bit;
            assert!(matches!(
                load(&vault, &bad),
                Err(SdkError::Crypto(CryptoError::DecryptionError))
                    | Err(SdkError::Io(IoFault::UnexpectedEof))
            ));
        }
    }
}

#[test]
fn wrong_announced_size_is_a_truncation_error() {
    let vault = new_vault("v");
    let (_name, container) = store(&vault, b"twelve bytes", "t.bin");
    for size in [0u64, 11, 13, u64::MAX] {
        let header = VaultHeader::new("t.bin", Some(0), Some(size));
        assert!(matches!(
            vault.load_file_to_memory(&container, &header),
            Err(SdkError::TruncationError)
        ));
    }
    let header = VaultHeader::new("t.bin", Some(0), Some(12));
    assert!(vault.load_file_to_memory(&container, &header).is_ok());
    let header = VaultHeader::new("t.bin", Some(0), None);
    assert!(vault.load_file_to_memory(&container, &header).is_ok());
}

#[test]
fn other_versions_are_refused() {
    let vault = new_vault("v");
    let (_name, container) = store(&vault, b"abc", "t.bin");
    for version in [0u8, 2, 3, 255] {
        let header = VaultHeader {
            original_filename: "t.bin".to_string(),
            timestamp: 0,
            version,
            total_size: Some(3),
        };
        assert_eq!(
            vault.load_file_to_memory(&container, &header),
            Err(SdkError::UnsupportedVersion(version))
        );
    }
}

#[test]
fn a_bad_header_record_comes_before_the_version() {
    let vault = new_vault("v");
    let header = VaultHeader {
        original_filename: "t.bin".to_string(),
        timestamp: 0,
        version: 9,
        total_size: None,
    };
    assert_eq!(
        vault.load_file_to_memory(&[], &header),
        Err(SdkError::Io(IoFault::UnexpectedEof))
    );
    assert_eq!(
        vault.load_file_to_memory(&[0, 0, 0, 0], &header),
        Err(SdkError::Crypto(CryptoError::DecryptionError))
    );
}

#[test]
fn read_header_of_short_input() {
    let vault = new_vault("v");
    for bytes in [&[][..], &[1][..], &[1, 0, 0][..], &[5, 0, 0, 0, 1, 2][..]] {
        assert_eq!(
            vault.read_header(bytes),
            Err(SdkError::Io(IoFault::UnexpectedEof))
        );
    }
    assert_eq!(
        vault.read_header(&[0, 0, 0, 0]),
        Err(SdkError::Crypto(CryptoError::DecryptionError))
    );
}

#[test]
fn seal_record_is_length_then_frame() {
    let vault = Vault::new("v", &[8u8; 32]).unwrap();
    let record = vault.seal_record(b"header bytes").unwrap();
    assert_eq!(record.len(), 4 + 12 + 28);
    assert_eq!(&record[..4], &[40, 0, 0, 0]);
    assert_eq!(
        vault.crypto().decrypt(&record[4..]).unwrap(),
        b"header bytes".to_vec()
    );
}

#[test]
fn process_stream_of_nothing() {
    let vault = new_vault("v");
    assert_eq!(vault.process_stream(&[], None).unwrap(), Vec::<u8>::new());
    assert_eq!(vault.process_stream(&[], Some(0)).unwrap(), Vec::<u8>::new());
    assert_eq!(
        vault.process_stream(&[], Some(1)),
        Err(SdkError::TruncationError)
    );
}

#[test]
fn process_stream_reports_the_first_bad_record() {
    let vault = new_vault("v");
    let mut records = vault.seal_record(b"first").unwrap();
    let second_at = records.len();
    records.extend(vault.seal_record(b"second").unwrap());
    assert_eq!(
        vault.process_stream(&records, Some(11)).unwrap(),
        b"firstsecond".to_vec()
    );
    // A bad first frame wins over a stream that also ends early.
    let mut bad = records.clone();
    bad[10] ^= 1;
    bad.pop();
    assert_eq!(
        vault.process_stream(&bad, Some(11)),
        Err(SdkError::Crypto(CryptoError::DecryptionError))
    );
    // A length that reaches past the end is an early end.
    let mut long = records.clone();
    long[second_at] = 0xFF;
    assert_eq!(
        vault.process_stream(&long, Some(11)),
        Err(SdkError::Io(IoFault::UnexpectedEof))
    );
    // A frame of length zero cannot be opened.
    let mut zero = records[..second_at].to_vec();
    zero.extend([0, 0, 0, 0]);
    assert_eq!(
        vault.process_stream(&zero, None),
        Err(SdkError::Crypto(CryptoError::DecryptionError))
    );
}
