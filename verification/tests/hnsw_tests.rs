use vortex::hnsw::HnswIndex;
use vortex::quantization::ScalarQuantizer;
use vortex::simd::scalar_dot_u8;

/// Stored-vector quantization: L2-normalize, then map [-1, 1] linearly
/// onto the unsigned byte range.
fn quantize_vector(v: &[f32]) -> Vec<u8> {
    let mag: f32 = v.iter().map(|x| x * x).sum::<f32>().sqrt();
    let scale = if mag > 0.0 { 1.0 / mag } else { 1.0 };
    v.iter()
        .map(|&x| {
            let mapped = (x * scale + 1.0) * 127.5;
            mapped.clamp(0.0, 255.0) as u8
        })
        .collect()
}

/// Query quantization: L2-normalize, then map [-1, 1] linearly onto the
/// signed byte range.
fn quantize_query(q: &[f32]) -> Vec<i8> {
    let mag: f32 = q.iter().map(|x| x * x).sum::<f32>().sqrt();
    let scale = if mag > 0.0 { 1.0 / mag } else { 1.0 };
    q.iter()
        .map(|&x| {
            let mapped = x * scale * 127.0;
            mapped.clamp(-128.0, 127.0) as i8
        })
        .collect()
}

#[test]
fn scalar_kernel_exact_value() {
    let q: [i8; 3] = [1, -2, 100];
    let v: [u8; 3] = [3, 4, 200];
    // dot = 3 - 8 + 20000 = 19995; the kernel returns the negation.
    assert_eq!(scalar_dot_u8(&q, &v), -19995);
}

#[test]
fn scalar_kernel_negative_components() {
    let q: [i8; 2] = [-128, -1];
    let v: [u8; 2] = [255, 255];
    assert_eq!(scalar_dot_u8(&q, &v), 128 * 255 + 255);
}

/// Integer kernel equivalence: the verified kernel agrees exactly with
/// an independently written scalar reference over a byte pattern
/// spanning both signedness ranges.
#[test]
fn test_dot_product_u8_equivalence() {
    let n = 256;
    let v: Vec<u8> = (0..n).map(|i| (128 + (i % 32)) as u8).collect();
    let q: Vec<i8> = (0..n).map(|i| ((i % 64) as i16 - 32) as i8).collect();
    let mut reference: i32 = 0;
    for i in 0..n {
        reference += v[i] as i16 as i32 * q[i] as i32;
    }
    assert_eq!(scalar_dot_u8(&q, &v), -reference);
}

#[test]
fn centering_shifts_into_signed_range() {
    let v: [u8; 4] = [0, 127, 128, 255];
    let c = ScalarQuantizer::center(&v);
    assert_eq!(c, vec![-128, -1, 0, 127]);
}

/// Three-axis sanity check through the quantized pipeline: the neighbor
/// closest to [0.1, 0.9, 0.1] is id 1.
#[test]
fn test_hnsw_precision_recall() {
    let mut index = HnswIndex::new(3, 100);
    index.insert(0, &quantize_vector(&[1.0, 0.0, 0.0]));
    index.insert(1, &quantize_vector(&[0.0, 1.0, 0.0]));
    index.insert(2, &quantize_vector(&[0.0, 0.0, 1.0]));
    let results = index.search(&quantize_query(&[0.1, 0.9, 0.1]), 1);
    assert_eq!(results.len(), 1);
    assert_eq!(results[0].0, 1);
}

#[test]
fn empty_index_returns_nothing() {
    let mut index = HnswIndex::new(4, 10);
    assert_eq!(index.len(), 0);
    let r = index.search(&[0i8; 4], 5);
    assert!(r.is_empty());
}

#[test]
fn capacity_is_respected() {
    let mut index = HnswIndex::new(2, 2);
    index.insert(10, &quantize_vector(&[1.0, 0.0]));
    index.insert(11, &quantize_vector(&[0.0, 1.0]));
    index.insert(12, &quantize_vector(&[0.5, 0.5]));
    assert_eq!(index.len(), 2, "inserts beyond capacity are dropped");
}

#[test]
fn results_are_sorted_and_distinct() {
    let mut index = HnswIndex::new(4, 64);
    for i in 0..20u64 {
        let angle = i as f32 * 0.3;
        index.insert(i, &quantize_vector(&[angle.cos(), angle.sin(), 0.2, -0.1]));
    }
    let q = quantize_query(&[1.0, 0.1, 0.2, -0.1]);
    let hits = index.search(&q, 8);
    assert_eq!(hits.len(), 8);
    for w in hits.windows(2) {
        assert!(w[0].1 <= w[1].1, "distances must come ascending");
    }
    let mut ids: Vec<u64> = hits.iter().map(|h| h.0).collect();
    ids.sort_unstable();
    ids.dedup();
    assert_eq!(ids.len(), 8, "hits must name distinct rows");
}

struct Lcg(u64);

impl Lcg {
    fn next_f32(&mut self) -> f32 {
        self.0 = self.0.wrapping_mul(6364136223846793005).wrapping_add(1442695040888963407);
        ((self.0 >> 33) as f32 / (1u64 << 31) as f32) - 0.5
    }
}

fn random_unit(rng: &mut Lcg, dim: usize) -> Vec<f32> {
    loop {
        let v: Vec<f32> = (0..dim).map(|_| rng.next_f32()).collect();
        let mag: f32 = v.iter().map(|x| x * x).sum::<f32>().sqrt();
        if mag > 1e-3 {
            return v.iter().map(|x| x / mag).collect();
        }
    }
}

fn refined_top_k(candidates: &[(u64, i32)], arena: &[Vec<f32>], q: &[f32], k: usize) -> Vec<u64> {
    let mut scored: Vec<(f32, u64)> = candidates
        .iter()
        .map(|&(id, _)| {
            let v = &arena[id as usize];
            let dot: f32 = v.iter().zip(q.iter()).map(|(a, b)| a * b).sum();
            (-dot, id)
        })
        .collect();
    scored.sort_by(|a, b| a.0.partial_cmp(&b.0).unwrap());
    scored.truncate(k);
    scored.into_iter().map(|(_, id)| id).collect()
}

/// Recall baseline, scaled down to stay fast: random unit vectors, exact
/// brute-force neighbors as ground truth, graph search plus a
/// full-precision refinement pass, recall@10 at least 0.9.
#[test]
fn recall_baseline() {
    let dim = 16;
    let n = 300u64;
    let queries = 30;
    let k = 10;
    let mut rng = Lcg(42);
    let mut index = HnswIndex::new(dim, n as usize);
    let mut arena: Vec<Vec<f32>> = Vec::new();
    for id in 0..n {
        let v = random_unit(&mut rng, dim);
        index.insert(id, &quantize_vector(&v));
        arena.push(v);
    }
    let mut hit = 0usize;
    let mut total = 0usize;
    for _ in 0..queries {
        let q = random_unit(&mut rng, dim);
        // Ground truth by brute force over the full-precision vectors.
        let mut exact: Vec<(f32, u64)> = arena
            .iter()
            .enumerate()
            .map(|(id, v)| {
                let dot: f32 = v.iter().zip(q.iter()).map(|(a, b)| a * b).sum();
                (-dot, id as u64)
            })
            .collect();
        exact.sort_by(|a, b| a.0.partial_cmp(&b.0).unwrap());
        let truth: Vec<u64> = exact[..k].iter().map(|&(_, id)| id).collect();
        // Graph search with the coarse kernel, refined in full precision.
        let coarse = index.search(&quantize_query(&q), 64);
        let got = refined_top_k(&coarse, &arena, &q, k);
        total += k;
        hit += got.iter().filter(|id| truth.contains(id)).count();
    }
    let recall = hit as f64 / total as f64;
    assert!(recall >= 0.9, "recall@10 was {recall}");
}
