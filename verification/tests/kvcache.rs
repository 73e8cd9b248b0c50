//! The key/value cache.

use lumen::runtime::kvcache::{KvCache, LayerKvCache};

#[test]
fn append_and_read_back() {
    let mut c = LayerKvCache::new(4, 3);
    assert!(c.is_empty());
    c.append(&[1.0, 2.0, 3.0], &[4.0, 5.0, 6.0]);
    c.append(&[7.0, 8.0, 9.0], &[10.0, 11.0, 12.0]);
    assert_eq!(c.len(), 2);
    assert_eq!(c.k_filled(), &[1.0, 2.0, 3.0, 7.0, 8.0, 9.0]);
    assert_eq!(c.v_filled(), &[4.0, 5.0, 6.0, 10.0, 11.0, 12.0]);
}

#[test]
fn reset_returns_empty() {
    let mut c = LayerKvCache::new(4, 2);
    c.append(&[1.0, 2.0], &[3.0, 4.0]);
    c.reset();
    assert!(c.is_empty());
    assert_eq!(c.k_filled(), &[] as &[f32]);
}

#[test]
fn multi_layer_cache_independent() {
    let mut c = KvCache::new(3, 4, 2);
    assert_eq!(c.n_layers(), 3);
    c.layer_mut(0).append(&[1.0, 2.0], &[3.0, 4.0]);
    c.layer_mut(1).append(&[5.0, 6.0], &[7.0, 8.0]);
    assert_eq!(c.layer(0).len(), 1);
    assert_eq!(c.layer(1).len(), 1);
    assert_eq!(c.layer(2).len(), 0);
}

#[test]
fn a_cache_can_be_filled_again_after_a_reset() {
    let mut c = KvCache::new(2, 2, 1);
    for i in 0..2 {
        c.layer_mut(1).append(&[i as u32], &[10 + i as u32]);
    }
    assert_eq!((c.layer(1).len(), c.layer(1).max_seq(), c.layer(1).kv_dim()), (2, 2, 1));
    c.reset();
    assert!(c.layer(1).is_empty());
    c.layer_mut(1).append(&[7], &[8]);
    assert_eq!(c.layer(1).k_filled(), &[7]);
    assert_eq!(c.layer(1).v_filled(), &[8]);
}
