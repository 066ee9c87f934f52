use sha2::Digest;
use zkvm_exec::image::MemoryImage;

#[test]
fn compute_id_matches_canonical_serialization() {
    let mut image = MemoryImage::new(5);
    image.store_word(0, 7);
    let id = image.compute_id();
    // serialization: (address, word) pairs in address order, little
    // endian, followed by the entry point.
    let bytes: Vec<u8> = vec![0, 0, 0, 0, 7, 0, 0, 0, 5, 0, 0, 0];
    let expected = sha2::Sha256::digest(&bytes).to_vec();
    assert_eq!(id, expected);
}

#[test]
fn compute_id_is_canonical_in_store_order() {
    let mut a = MemoryImage::new(0);
    a.store_word(0x100, 1);
    a.store_word(0x200, 2);
    let mut b = MemoryImage::new(0);
    b.store_word(0x200, 2);
    b.store_word(0x100, 1);
    assert_eq!(a.compute_id(), b.compute_id());
}

#[test]
fn compute_id_depends_on_contents_and_entry() {
    let mut a = MemoryImage::new(0);
    a.store_word(0x100, 1);
    let mut b = MemoryImage::new(0);
    b.store_word(0x100, 2);
    assert_ne!(a.compute_id(), b.compute_id());
    let c = MemoryImage::new(0);
    let d = MemoryImage::new(4);
    assert_ne!(c.compute_id(), d.compute_id());
}

#[test]
fn overwriting_a_word_keeps_one_entry() {
    let mut a = MemoryImage::new(0);
    a.store_word(0x100, 1);
    a.store_word(0x100, 9);
    let mut b = MemoryImage::new(0);
    b.store_word(0x100, 9);
    assert_eq!(a.compute_id(), b.compute_id());
    assert_eq!(a.load_word(0x100), 9);
    assert_eq!(a.load_word(0x104), 0);
}
