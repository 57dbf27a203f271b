use autodiff::lin_layer::LinLayer;
use rand::distributions::Distribution;
use rand::SeedableRng;
use rand_chacha::ChaCha8Rng;
use statrs::distribution::Normal;

fn he_samples(i_size: usize, o_size: usize, seed: u64) -> Vec<f64> {
    let rng = ChaCha8Rng::seed_from_u64(seed);
    let normal = Normal::new(0.0, f64::sqrt(2.0 / (i_size as f64))).unwrap();
    normal.sample_iter(rng).take(o_size * (i_size + 1)).collect()
}

#[test]
fn construct_lin_layer() {
    let samples = he_samples(2, 1, 0);
    let layer: LinLayer<f64> = LinLayer::from_samples(2, 1, samples.clone());
    assert_eq!(layer.w.shape(), vec![2, 1]);
    assert_eq!(layer.b.shape(), vec![1, 1]);
    assert_eq!(layer.w.data(), &samples[..2].to_vec());
    assert_eq!(layer.b.data(), &samples[2..].to_vec());
}

#[test]
fn weights_first_then_bias() {
    let layer = LinLayer::from_samples(2, 3, vec![1, 2, 3, 4, 5, 6, 7, 8, 9]);
    assert_eq!(layer.w.shape(), vec![2, 3]);
    assert_eq!(layer.w.data(), &vec![1, 2, 3, 4, 5, 6]);
    assert_eq!(layer.b.shape(), vec![1, 3]);
    assert_eq!(layer.b.data(), &vec![7, 8, 9]);
    assert_eq!(layer.params(), vec![1, 2, 3, 4, 5, 6, 7, 8, 9]);
}

#[test]
fn layer_without_inputs_has_only_a_bias() {
    let layer = LinLayer::from_samples(0, 2, vec![4u8, 5]);
    assert_eq!(layer.w.shape(), vec![0, 2]);
    assert!(layer.w.data().is_empty());
    assert_eq!(layer.b.data(), &vec![4u8, 5]);
    assert_eq!(layer.params(), vec![4u8, 5]);
}
