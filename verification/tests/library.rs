//! Unit-level checks: defaults, flag access policy, the symmetric
//! cipher, and caller bitflags riding through an archive.

use vach::archive::Archive;
use vach::builder::{Builder, BuilderConfig};
use vach::crypto::Encryptor;
use vach::errors::{InternalError, InternalResult};
use vach::flags::Flags;
use vach::header::{ArchiveConfig, Header};
use vach::leaf::Leaf;
use vach::reg_entry::RegistryEntry;
use vach::resource::Resource;

const CUSTOM_FLAG_1: u32 = 0b0000_0000_0000_0000_0000_1000_0000_0000;
const CUSTOM_FLAG_2: u32 = 0b0000_0000_0000_0000_0000_0100_0000_0000;
const CUSTOM_FLAG_3: u32 = 0b0000_0000_0000_0000_0000_0000_1000_0000;
const CUSTOM_FLAG_4: u32 = 0b0000_0000_0000_0000_0000_0000_0001_0000;

#[test]
fn defaults() {
    let _header = Header::default();
    let _registry_entry = RegistryEntry::empty();
    let _resource = Resource::empty();
    let _leaf = Leaf::default();
    let _builder = Builder::default();
    let _builder_config = BuilderConfig::default();
    let _archive_config = ArchiveConfig::default();
    let _flags = Flags::empty();
}

#[test]
fn flag_restricted_access() {
    let mut flag = Flags::from_bits(0b1111_1000_0000_0000);

    // This should return an error
    if let Err(error) = flag.set(Flags::COMPRESSED_FLAG, true) {
        assert!(matches!(error, InternalError::RestrictedFlagAccessError));
    } else {
        panic!("Access to restricted flags has been allowed, this should not be feasible")
    };
}

#[test]
fn flags_set_intersects() {
    let mut flag = Flags::empty();

    flag.force_set(Flags::COMPRESSED_FLAG, true);
    assert_eq!(flag.bits(), Flags::COMPRESSED_FLAG);

    flag.force_set(Flags::COMPRESSED_FLAG, true);
    assert_eq!(flag.bits(), Flags::COMPRESSED_FLAG);

    flag.force_set(Flags::SIGNED_FLAG, true);
    assert_eq!(flag.bits(), Flags::COMPRESSED_FLAG | Flags::SIGNED_FLAG);

    flag.force_set(Flags::COMPRESSED_FLAG, false);
    assert_eq!(flag.bits(), Flags::SIGNED_FLAG);

    flag.force_set(Flags::COMPRESSED_FLAG, false);
    assert_eq!(flag.bits(), Flags::SIGNED_FLAG);

    flag.force_set(Flags::COMPRESSED_FLAG | Flags::SIGNED_FLAG, true);
    assert_eq!(flag.bits(), Flags::COMPRESSED_FLAG | Flags::SIGNED_FLAG);
}

#[test]
fn decryptor_test() -> InternalResult {
    let signing_key = ed25519_dalek::SigningKey::from_bytes(&[7u8; 32]);
    let vk = signing_key.verifying_key().to_bytes();

    let crypt = Encryptor::new(&vk, &vach::DEFAULT_MAGIC);
    let data = vec![12, 12, 12, 12];

    let ciphertext = crypt.encrypt(&data)?;
    let plaintext = crypt.decrypt(&ciphertext)?;

    assert_ne!(&plaintext, &ciphertext);
    assert_eq!(&plaintext, &data);

    Ok(())
}

#[test]
fn custom_bitflags() -> InternalResult {
    let mut poem_flags = Flags::empty();
    poem_flags.set(CUSTOM_FLAG_1 | CUSTOM_FLAG_2 | CUSTOM_FLAG_3 | CUSTOM_FLAG_4, true)?;

    let mut builder = Builder::new();
    builder.add_leaf(
        Leaf::from_handle(b"And the people bowed and prayed".to_vec())
            .id("poem")
            .flags(poem_flags),
    );
    let target = builder.dump(&BuilderConfig::default())?;
    let archive = Archive::new(target)?;

    let entry = archive.fetch_entry("poem").unwrap();
    let flags = entry.flags;

    assert_eq!(flags.bits(), entry.flags.bits());
    assert!(flags.contains(CUSTOM_FLAG_1 | CUSTOM_FLAG_2 | CUSTOM_FLAG_3 | CUSTOM_FLAG_4));

    Ok(())
}

#[test]
fn esdalek_test() -> InternalResult {
    println!("Bytes per esdalek::Signature: {}", ed25519_dalek::SIGNATURE_LENGTH);
    assert_eq!(ed25519_dalek::SIGNATURE_LENGTH, vach::SIGNATURE_LENGTH);
    Ok(())
}
