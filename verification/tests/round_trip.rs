//! Whole-archive scenarios: write with the builder, read back with the
//! archive, across compression, encryption and signing.

use vach::archive::Archive;
use vach::builder::{Builder, BuilderConfig};
use vach::compressor::CompressionAlgorithm;
use vach::errors::InternalResult;
use vach::flags::Flags;
use vach::header::ArchiveConfig;
use vach::leaf::{CompressMode, Leaf};

fn fixed_keypair_bytes(seed: u8) -> [u8; 64] {
    ed25519_dalek::SigningKey::from_bytes(&[seed; 32]).to_keypair_bytes()
}

#[test]
fn unsigned_round_trip() -> InternalResult {
    let mut builder = Builder::new();
    builder.add_leaf(
        Leaf::from_handle(b"Hello, Cassandra!".to_vec())
            .compress(CompressMode::Never)
            .id("greeting"),
    );
    builder.add_leaf(
        Leaf::from_handle(vec![0xAAu8; 4096])
            .compress(CompressMode::Always)
            .compression_algo(CompressionAlgorithm::LZ4)
            .id("poem"),
    );
    let target = builder.dump(&BuilderConfig::default())?;

    let archive = Archive::new(target)?;
    assert_eq!(archive.entries().len(), 2);
    assert!(!archive.flags().contains(Flags::SIGNED_FLAG));

    let greeting = archive.fetch("greeting")?;
    assert_eq!(greeting.data.as_slice(), b"Hello, Cassandra!");
    assert!(!greeting.authenticated);
    assert!(!greeting.flags.contains(Flags::COMPRESSED_FLAG));

    let poem = archive.fetch("poem")?;
    assert_eq!(poem.data.as_slice(), &[0xAAu8; 4096]);
    assert!(!poem.authenticated);
    assert!(poem.flags.contains(Flags::COMPRESSED_FLAG | Flags::LZ4_COMPRESSED));

    Ok(())
}

#[test]
fn signed_archive() -> InternalResult {
    let keypair = fixed_keypair_bytes(23);
    let mut config = BuilderConfig::default();
    config.load_keypair(&keypair)?;

    let mut builder = Builder::new();
    builder.add_leaf(
        Leaf::from_handle(b"Don't forget to recite your beatitudes!".to_vec())
            .id("signed")
            .sign(true),
    );
    builder.add_leaf(Leaf::from_handle(b"unremarkable".to_vec()).id("not_signed"));
    let target = builder.dump(&config)?;

    let mut archive_config = ArchiveConfig::default();
    archive_config.load_public_key(&keypair[32..])?;
    let archive = Archive::with_config(target, &archive_config)?;
    assert!(archive.flags().contains(Flags::SIGNED_FLAG));

    let signed = archive.fetch("signed")?;
    assert!(signed.authenticated);
    assert!(signed.flags.contains(Flags::SIGNED_FLAG));
    assert_eq!(signed.data.as_slice(), b"Don't forget to recite your beatitudes!");

    let not_signed = archive.fetch("not_signed")?;
    assert!(!not_signed.authenticated);
    assert!(!not_signed.flags.contains(Flags::SIGNED_FLAG));

    Ok(())
}

#[test]
fn encrypted_archive() -> InternalResult {
    let keypair = fixed_keypair_bytes(42);
    let mut config = BuilderConfig::default();
    config.load_keypair(&keypair)?;

    let mut builder = Builder::new();
    builder.add_leaf(
        Leaf::from_handle(b"Snitches get stitches, iOS sucks".to_vec())
            .encrypt(true)
            .sign(true)
            .compression_algo(CompressionAlgorithm::Brotli(11))
            .compress(CompressMode::Always)
            .id("stitches.snitches"),
    );
    let target = builder.dump(&config)?;

    let mut archive_config = ArchiveConfig::default();
    archive_config.load_public_key(&keypair[32..])?;
    let archive = Archive::with_config(target, &archive_config)?;

    let resource = archive.fetch("stitches.snitches")?;
    assert_eq!(resource.data.as_slice(), b"Snitches get stitches, iOS sucks");
    assert!(resource.flags.contains(Flags::ENCRYPTED_FLAG));
    assert!(resource.authenticated);

    Ok(())
}

#[test]
fn tampering_clears_authentication() -> InternalResult {
    let keypair = fixed_keypair_bytes(5);
    let mut config = BuilderConfig::default();
    config.load_keypair(&keypair)?;

    let mut builder = Builder::new();
    builder.add_leaf(Leaf::from_handle(b"load-bearing bytes".to_vec()).id("signed").sign(true));
    let baseline = builder.dump(&config)?;

    let mut archive_config = ArchiveConfig::default();
    archive_config.load_public_key(&keypair[32..])?;

    // Untampered, the entry authenticates.
    let archive = Archive::with_config(baseline.clone(), &archive_config)?;
    assert!(archive.fetch("signed")?.authenticated);

    // One bit flipped in the data blob: decodes, but no longer
    // authenticates.
    let mut tampered = baseline.clone();
    let last = tampered.len() - 1;
    tampered[last] ^= 0x01;
    let archive = Archive::with_config(tampered, &archive_config)?;
    assert!(!archive.fetch("signed")?.authenticated);

    // One bit flipped in the entry's registry record (its content
    // version byte): still parses, but no longer authenticates.
    let mut tampered = baseline.clone();
    tampered[13 + 4] ^= 0x01;
    let archive = Archive::with_config(tampered, &archive_config)?;
    assert!(!archive.fetch("signed")?.authenticated);

    Ok(())
}

#[test]
fn unicode_ids_round_trip() -> InternalResult {
    let mut builder = Builder::new();
    builder.add(b"non-ascii id".to_vec(), "p\u{f6}em \u{1f980}")?;
    let target = builder.dump(&BuilderConfig::default())?;

    let archive = Archive::new(target)?;
    let resource = archive.fetch("p\u{f6}em \u{1f980}")?;
    assert_eq!(resource.data.as_slice(), b"non-ascii id");

    Ok(())
}

#[test]
fn duplicate_ids_last_wins() -> InternalResult {
    let mut builder = Builder::new();
    builder.add(b"first".to_vec(), "twin")?;
    builder.add(b"second".to_vec(), "twin")?;
    let target = builder.dump(&BuilderConfig::default())?;

    let archive = Archive::new(target)?;
    assert_eq!(archive.entries().len(), 1);
    assert_eq!(archive.fetch("twin")?.data.as_slice(), b"second");

    Ok(())
}

#[test]
fn empty_archive_round_trip() -> InternalResult {
    let builder = Builder::new();
    let target = builder.dump(&BuilderConfig::default())?;
    assert_eq!(target.len(), 13);

    let archive = Archive::new(target)?;
    assert_eq!(archive.entries().len(), 0);

    Ok(())
}

#[test]
fn layout_exact() -> InternalResult {
    let mut builder = Builder::new();
    builder.add(vec![1u8, 2, 3], "a")?;
    let target = builder.dump(&BuilderConfig::default())?;

    // Header (13) + entry record (23) + id (1) + data (3).
    assert_eq!(target.len(), 13 + 23 + 1 + 3);
    assert_eq!(&target[0..5], b"VfACH");
    assert_eq!(&target[9..11], &vach::VERSION.to_le_bytes());
    assert_eq!(&target[11..13], &1u16.to_le_bytes());
    assert_eq!(&target[36..37], b"a");
    assert_eq!(&target[37..40], &[1u8, 2, 3]);

    let archive = Archive::new(target)?;
    let entry = archive.fetch_entry("a").unwrap();
    assert_eq!(entry.location, 37);
    assert_eq!(entry.offset, 3);

    Ok(())
}

#[test]
fn detect_mode_keeps_smaller_form() -> InternalResult {
    let mut builder = Builder::new();
    // Highly compressible: Detect keeps the compressed form, strictly
    // smaller than the original.
    builder.add_leaf(
        Leaf::from_handle(vec![0u8; 2048]).compress(CompressMode::Detect).id("zeroes"),
    );
    // Incompressible three bytes: Detect stores the original length.
    builder.add_leaf(
        Leaf::from_handle(vec![9u8, 80, 7]).compress(CompressMode::Detect).id("tiny"),
    );
    let target = builder.dump(&BuilderConfig::default())?;

    let archive = Archive::new(target)?;
    let zeroes = archive.fetch_entry("zeroes").unwrap();
    assert!(zeroes.flags.contains(Flags::COMPRESSED_FLAG));
    assert!(zeroes.offset < 2048);
    let tiny = archive.fetch_entry("tiny").unwrap();
    assert!(!tiny.flags.contains(Flags::COMPRESSED_FLAG));
    assert_eq!(tiny.offset, 3);

    assert_eq!(archive.fetch("zeroes")?.data.as_slice(), &[0u8; 2048]);
    assert_eq!(archive.fetch("tiny")?.data.as_slice(), &[9u8, 80, 7]);

    Ok(())
}

#[test]
fn oversized_brotli_quality_is_clamped() -> InternalResult {
    let mut builder = Builder::new();
    builder.add_leaf(
        Leaf::from_handle(vec![3u8; 1024])
            .compression_algo(CompressionAlgorithm::Brotli(99))
            .compress(CompressMode::Always)
            .id("clamped"),
    );
    let target = builder.dump(&BuilderConfig::default())?;

    let archive = Archive::new(target)?;
    assert!(archive.fetch_entry("clamped").unwrap().offset < 1024);
    assert_eq!(archive.fetch("clamped")?.data.as_slice(), &[3u8; 1024]);
    Ok(())
}
