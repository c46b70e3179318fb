//! The larger ported scenarios: all three compressors side by side, the
//! consolidated end-to-end example, and parallel fetching over one
//! shared archive.

use std::collections::HashMap;

use rayon::iter::{IntoParallelRefIterator, ParallelIterator};
use vach::archive::Archive;
use vach::builder::{Builder, BuilderConfig};
use vach::compressor::CompressionAlgorithm;
use vach::errors::{InternalError, InternalResult};
use vach::header::ArchiveConfig;
use vach::leaf::{CompressMode, Leaf};

#[test]
fn consolidated_example() -> InternalResult {
    const MAGIC: &[u8; 5] = b"CSDTD";

    // Data to be written
    let data_1 = b"Around The World, Fatter wetter stronker" as &[u8];
    let data_2 = b"Imago" as &[u8];
    let data_3 = b"Fast-Acting Long-Lasting, *Bathroom Reader*" as &[u8];

    // Builder definition
    let keypair_bytes = ed25519_dalek::SigningKey::from_bytes(&[60u8; 32]).to_keypair_bytes();
    let mut config = BuilderConfig::default().magic(*MAGIC);
    config.load_keypair(&keypair_bytes)?;
    let mut builder = Builder::new().template(Leaf::default().encrypt(true));

    // Add data
    let template = Leaf::default().encrypt(true).version(59).sign(true);
    builder.add_leaf(Leaf::from_handle(data_1.to_vec()).id("d1").template(&template));
    builder.add_leaf(Leaf::from_handle(data_2.to_vec()).id("d2").template(&template));
    builder.add_leaf(Leaf::from_handle(data_3.to_vec()).id("d3").template(&template));

    // Dump data
    let target = builder.dump(&config)?;

    // Load data
    let mut archive_config = ArchiveConfig::default().magic(*MAGIC);
    archive_config.load_public_key(&keypair_bytes[32..])?;
    let mut archive = Archive::with_config(target, &archive_config)?;

    // Quick assertions
    assert_eq!(archive.fetch_mut("d1")?.data.as_slice(), data_1);
    assert_eq!(archive.fetch_mut("d2")?.data.as_slice(), data_2);
    assert_eq!(archive.fetch_mut("d3")?.data.as_slice(), data_3);

    Ok(())
}

#[test]
fn test_compressors() -> InternalResult {
    const INPUT_LEN: usize = 4096;

    let input = [12u8; INPUT_LEN];
    let mut builder = Builder::new();

    builder.add_leaf(
        Leaf::from_handle(input.to_vec())
            .id("LZ4")
            .compression_algo(CompressionAlgorithm::LZ4)
            .compress(CompressMode::Always),
    );
    builder.add_leaf(
        Leaf::from_handle(input.to_vec())
            .id("BROTLI")
            .compression_algo(CompressionAlgorithm::Brotli(9))
            .compress(CompressMode::Always),
    );
    builder.add_leaf(
        Leaf::from_handle(input.to_vec())
            .id("SNAPPY")
            .compression_algo(CompressionAlgorithm::Snappy)
            .compress(CompressMode::Always),
    );

    let target = builder.dump(&BuilderConfig::default())?;
    let mut archive = Archive::new(target)?;

    let d1 = archive.fetch_mut("LZ4")?;
    let d2 = archive.fetch_mut("BROTLI")?;
    let d3 = archive.fetch_mut("SNAPPY")?;

    // Identity tests
    assert_eq!(d1.data.len(), INPUT_LEN);
    assert_eq!(d2.data.len(), INPUT_LEN);
    assert_eq!(d3.data.len(), INPUT_LEN);

    assert!(&d1.data[..] == &input);
    assert!(&d2.data[..] == &input);
    assert!(&d3.data[..] == &input);

    // Compression tests
    assert!(archive.fetch_entry("LZ4").unwrap().offset < INPUT_LEN as u64);
    assert!(archive.fetch_entry("BROTLI").unwrap().offset < INPUT_LEN as u64);
    assert!(archive.fetch_entry("SNAPPY").unwrap().offset < INPUT_LEN as u64);

    // A simple test to show that these are somehow not the same data
    assert!(archive.fetch_entry("SNAPPY").unwrap().offset != archive.fetch_entry("LZ4").unwrap().offset);
    assert!(archive.fetch_entry("BROTLI").unwrap().offset != archive.fetch_entry("LZ4").unwrap().offset);
    assert!(archive.fetch_entry("SNAPPY").unwrap().offset != archive.fetch_entry("BROTLI").unwrap().offset);

    Ok(())
}

#[test]
fn test_batch_fetching() -> InternalResult {
    // Define input constants
    const INPUT_LEN: usize = 8;
    const INPUT: [u8; INPUT_LEN] = [69u8; INPUT_LEN];

    let mut builder = Builder::new();

    // Define and queue data
    let mut ids = vec![];

    for i in 0..120 {
        let id = format!("ID {}", i);
        ids.push(id);

        builder.add(INPUT.to_vec(), ids[i].as_str())?;
    }

    ids.push("ERRORS".to_string());

    // Process data
    let target = builder.dump(&BuilderConfig::default())?;

    let archive = Archive::new(target)?;
    let mut resources = ids
        .as_slice()
        .par_iter()
        .map(|id| (id.as_str(), archive.fetch(id.as_str())))
        .collect::<HashMap<_, _>>();

    // Tests and checks
    assert!(resources.get("NON_EXISTENT").is_none());
    assert!(resources.get("ERRORS").is_some());

    match resources.remove("ERRORS").unwrap() {
        Ok(_) => {
            return Err(InternalError::OtherError("This should be an error".to_string()));
        },
        Err(err) => match err {
            InternalError::MissingResourceError(_) => {
                resources.remove("ERRORS");
            },

            specific => return Err(specific),
        },
    };

    for (_, res) in resources {
        assert_eq!(res?.data.as_slice(), &INPUT[..]);
    }

    Ok(())
}
