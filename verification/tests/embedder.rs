//! The embedder for tests.

use localdb_core::embedder::{FakeEmbedder, VectorEncoding};

#[test]
fn fake_embedder_dim_accessor() {
    let embedder = FakeEmbedder::new(256);
    assert_eq!(embedder.embedding_dim(), 256);
}

#[test]
fn fake_embedder_model_id_contains_dim() {
    let embedder = FakeEmbedder::new(128);
    assert!(
        embedder.model_id().contains("128"),
        "model_id should mention dimension"
    );
}

#[test]
fn mixing_wraps_around() {
    let embedder = FakeEmbedder::new(4);
    let expected = |text: &str, i: u64| -> u64 {
        let mut sum = 0u64;
        for (j, b) in text.bytes().enumerate() {
            sum = sum.wrapping_add(
                (b as u64)
                    .wrapping_mul((j as u64).wrapping_add(1))
                    .wrapping_mul(i.wrapping_add(7)),
            );
        }
        sum.wrapping_add(i.wrapping_mul(0x9e3779b97f4a7c15))
    };
    assert_eq!(embedder.mix("", 0), 0);
    assert_eq!(embedder.mix("a", 0), 97 * 7);
    for text in ["", "a", "hello world", "ünïcödé"] {
        for i in 0..50 {
            assert_eq!(embedder.mix(text, i), expected(text, i as u64));
        }
    }
    assert_ne!(embedder.mix("hello", 3), embedder.mix("goodbye", 3));
    assert_eq!(VectorEncoding::default(), VectorEncoding::Float32);
}
