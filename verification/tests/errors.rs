//! One input for every error the library can return.

use vach::archive::Archive;
use vach::builder::{Builder, BuilderConfig};
use vach::errors::{InternalError, InternalResult};
use vach::header::ArchiveConfig;
use vach::leaf::Leaf;

#[test]
fn truncated_source_is_malformed() {
    let result = Archive::new(vec![1u8, 2, 3]);
    assert!(matches!(result, Err(InternalError::MalformedArchiveSource(_))));
}

#[test]
fn wrong_magic_is_malformed() -> InternalResult {
    let mut builder = Builder::new();
    builder.add(b"payload".to_vec(), "entry")?;
    let config = BuilderConfig::default().magic(*b"QUIRK");
    let target = builder.dump(&config)?;

    let result = Archive::new(target);
    assert!(matches!(result, Err(InternalError::MalformedArchiveSource(_))));
    Ok(())
}

#[test]
fn wrong_version_is_incompatible() {
    let mut source = Vec::new();
    source.extend_from_slice(b"VfACH");
    source.extend_from_slice(&0u32.to_le_bytes());
    source.extend_from_slice(&9999u16.to_le_bytes());
    source.extend_from_slice(&0u16.to_le_bytes());

    let result = Archive::new(source);
    assert!(matches!(result, Err(InternalError::IncompatibleArchiveVersionError(9999))));
}

#[test]
fn missing_id_is_reported() -> InternalResult {
    let mut builder = Builder::new();
    builder.add(b"here".to_vec(), "present")?;
    let archive = Archive::new(builder.dump(&BuilderConfig::default())?)?;

    match archive.fetch("absent") {
        Err(InternalError::MissingResourceError(id)) => assert_eq!(id, "absent"),
        _ => panic!("a fetch of an unknown id must report it"),
    }
    Ok(())
}

#[test]
fn encryption_without_key_is_refused_on_write() {
    let mut builder = Builder::new();
    builder.add_leaf(Leaf::from_handle(b"secret".to_vec()).id("secret").encrypt(true));
    let result = builder.dump(&BuilderConfig::default());
    assert!(matches!(result, Err(InternalError::NoKeypairError)));
}

#[test]
fn encrypted_fetch_without_key_is_refused() -> InternalResult {
    let keypair = ed25519_dalek::SigningKey::from_bytes(&[3u8; 32]).to_keypair_bytes();
    let mut config = BuilderConfig::default();
    config.load_keypair(&keypair)?;

    let mut builder = Builder::new();
    builder.add_leaf(Leaf::from_handle(b"secret".to_vec()).id("secret").encrypt(true));
    let target = builder.dump(&config)?;

    let archive = Archive::new(target)?;
    assert!(matches!(archive.fetch("secret"), Err(InternalError::NoKeypairError)));
    Ok(())
}

#[test]
fn wrong_key_fails_decryption() -> InternalResult {
    let keypair = ed25519_dalek::SigningKey::from_bytes(&[3u8; 32]).to_keypair_bytes();
    let other = ed25519_dalek::SigningKey::from_bytes(&[4u8; 32]).to_keypair_bytes();
    let mut config = BuilderConfig::default();
    config.load_keypair(&keypair)?;

    let mut builder = Builder::new();
    builder.add_leaf(Leaf::from_handle(b"secret".to_vec()).id("secret").encrypt(true));
    let target = builder.dump(&config)?;

    let mut archive_config = ArchiveConfig::default();
    archive_config.load_public_key(&other[32..])?;
    let archive = Archive::with_config(target, &archive_config)?;
    assert!(matches!(archive.fetch("secret"), Err(InternalError::CipherError(_))));
    Ok(())
}

#[test]
fn oversized_id_is_refused() {
    let mut builder = Builder::new();
    let long_id = "i".repeat(70000);
    builder.add_leaf(Leaf::from_handle(b"x".to_vec()).id(&long_id));
    let result = builder.dump(&BuilderConfig::default());
    assert!(matches!(result, Err(InternalError::IDSizeOverflowError(_, 70000))));
}

#[test]
fn id_length_boundary() -> InternalResult {
    // An id of u16::MAX bytes is refused, one byte under it is written
    // and read back.
    let mut builder = Builder::new();
    builder.add_leaf(Leaf::from_handle(b"x".to_vec()).id(&"i".repeat(65535)));
    let result = builder.dump(&BuilderConfig::default());
    assert!(matches!(result, Err(InternalError::IDSizeOverflowError(_, 65535))));

    let widest = "i".repeat(65534);
    let mut builder = Builder::new();
    builder.add_leaf(Leaf::from_handle(b"x".to_vec()).id(&widest));
    let archive = Archive::new(builder.dump(&BuilderConfig::default())?)?;
    assert_eq!(archive.fetch(&widest)?.data.as_slice(), b"x");
    Ok(())
}

#[test]
fn compressed_entry_without_algorithm_is_malformed() -> InternalResult {
    let mut builder = Builder::new();
    builder.add(b"hello".to_vec(), "a")?;
    let mut target = builder.dump(&BuilderConfig::default())?;

    // Set COMPRESSED on the entry record without any algorithm bit:
    // the flags field's high byte sits at offset 13 + 3.
    target[16] |= 0x80;
    let archive = Archive::new(target)?;
    assert!(matches!(archive.fetch("a"), Err(InternalError::MalformedEntry(_))));
    Ok(())
}

#[test]
fn corrupt_compressed_bytes_are_reported() -> InternalResult {
    let mut builder = Builder::new();
    builder.add(b"hello".to_vec(), "a")?;
    let mut target = builder.dump(&BuilderConfig::default())?;

    // Claim LZ4 compression over bytes that are no LZ4 frame.
    target[16] |= 0x80 | 0x40;
    let archive = Archive::new(target)?;
    assert!(matches!(archive.fetch("a"), Err(InternalError::DecompressionError(_))));
    Ok(())
}

#[test]
fn malformed_keys_are_refused() {
    let mut archive_config = ArchiveConfig::default();
    assert!(matches!(
        archive_config.load_public_key(&[1u8, 2, 3]),
        Err(InternalError::ParseError(_))
    ));

    let mut builder_config = BuilderConfig::default();
    assert!(matches!(
        builder_config.load_keypair(&[9u8; 63]),
        Err(InternalError::ParseError(_))
    ));
}

#[test]
fn entry_range_past_source_is_malformed() -> InternalResult {
    let mut builder = Builder::new();
    builder.add(b"hello".to_vec(), "a")?;
    let mut target = builder.dump(&BuilderConfig::default())?;

    // Truncate the data blob: the entry's recorded range now runs past
    // the end of the source.
    target.truncate(target.len() - 2);
    let archive = Archive::new(target)?;
    assert!(matches!(archive.fetch("a"), Err(InternalError::MalformedArchiveSource(_))));
    Ok(())
}

#[test]
fn too_many_leaves_are_refused() {
    let mut builder = Builder::new();
    let mut i: usize = 0;
    while i < 65536 {
        builder.add_leaf(Leaf::from_handle(Vec::new()).id("i"));
        i += 1;
    }
    let result = builder.dump(&BuilderConfig::default());
    assert!(matches!(result, Err(InternalError::OtherError(_))));
}
