use std::collections::{BTreeMap, VecDeque};

use replay_renderer::error::RendererError;
use replay_renderer::gpu::{
    clip_batch_ranges, drain_contiguous_ready_sequences, next_instance_capacity,
    order_adapters, padded_bytes_per_row, parse_gpu_preference, unpad_readback_rows,
    AdapterDesc, AdapterKind, GpuError, GpuPreference, SpriteBlendMode,
    ReadbackRing,
};

#[test]
fn preferences_parse_case_insensitively() {
    assert_eq!(parse_gpu_preference("high"), Ok(GpuPreference::High));
    assert_eq!(parse_gpu_preference(" LOW "), Ok(GpuPreference::Low));
    assert_eq!(parse_gpu_preference("Auto"), Ok(GpuPreference::Auto));
    assert_eq!(
        parse_gpu_preference("fast"),
        Err("unknown gpu preference: fast".to_string())
    );
    let parsed: Result<GpuPreference, String> = "HIGH".parse();
    assert_eq!(parsed, Ok(GpuPreference::High));
}

#[test]
fn error_messages() {
    assert_eq!(GpuError::NoAdapter.message(), "No suitable GPU adapter found");
    assert_eq!(
        GpuError::DeviceRequest("lost".to_string()).message(),
        "Failed to create device: lost"
    );
    let wrapped = RendererError::from(GpuError::NoAdapter);
    assert_eq!(wrapped.message(), "GPU error: No suitable GPU adapter found");
}

#[test]
fn readback_rows_are_aligned_to_256_bytes() {
    assert_eq!(padded_bytes_per_row(0), 0);
    assert_eq!(padded_bytes_per_row(1), 256);
    assert_eq!(padded_bytes_per_row(64), 256);
    assert_eq!(padded_bytes_per_row(65), 512);
    assert_eq!(padded_bytes_per_row(1920), 7680);
}

#[test]
fn unpadding_keeps_the_leading_bytes_of_each_row() {
    // Two rows of width 2 (8 bytes) in a 12-byte padded layout.
    let data: Vec<u8> = (0..20).collect();
    let mut frame = vec![0u8; 16];
    unpad_readback_rows(&mut frame, &data, 2, 2, 12);
    assert_eq!(frame, vec![0, 1, 2, 3, 4, 5, 6, 7, 12, 13, 14, 15, 16, 17, 18, 19]);
}

#[test]
fn instance_buffers_grow_by_doubling_up_to_the_device_limit() {
    assert_eq!(next_instance_capacity(100, 50, 1000), None);
    assert_eq!(next_instance_capacity(100, 100, 1000), None);
    assert_eq!(next_instance_capacity(100, 101, 1000), Some(200));
    assert_eq!(next_instance_capacity(100, 300, 1000), Some(400));
    assert_eq!(next_instance_capacity(100, 900, 1000), Some(1000));
    assert_eq!(next_instance_capacity(0, 5, 1000), Some(8));
    assert_eq!(next_instance_capacity(1000, 5000, 1000), None);
    assert_eq!(next_instance_capacity(0, 5, 0), Some(1));
    assert_eq!(next_instance_capacity(usize::MAX / 2 + 1, usize::MAX, usize::MAX), Some(usize::MAX));
}

#[test]
fn batches_are_clipped_at_the_instance_limit() {
    let ranges = vec![
        ('a', SpriteBlendMode::Alpha, 0, 10),
        ('b', SpriteBlendMode::Additive, 10, 10),
        ('c', SpriteBlendMode::Alpha, 20, 10),
        ('d', SpriteBlendMode::Alpha, 5, 1),
    ];
    assert_eq!(
        clip_batch_ranges(&ranges, 15),
        vec![('a', SpriteBlendMode::Alpha, 0, 10), ('b', SpriteBlendMode::Additive, 10, 5)]
    );
    assert_eq!(clip_batch_ranges(&ranges, 0), vec![]);
    assert_eq!(clip_batch_ranges(&ranges, 100), ranges);
    let empty_batch = vec![('e', SpriteBlendMode::Alpha, 3, 0), ('f', SpriteBlendMode::Alpha, 3, 2)];
    assert_eq!(clip_batch_ranges(&empty_batch, 4), vec![('f', SpriteBlendMode::Alpha, 3, 1)]);
    let saturating = vec![('g', SpriteBlendMode::Alpha, u32::MAX - 1, 5)];
    assert_eq!(
        clip_batch_ranges(&saturating, u32::MAX),
        vec![('g', SpriteBlendMode::Alpha, u32::MAX - 1, 1)]
    );
}

#[test]
fn frames_are_delivered_in_sequence_order() {
    let mut next = 0u64;
    let mut waiting: BTreeMap<u64, Vec<u8>> = BTreeMap::new();
    let mut ready: VecDeque<Vec<u8>> = VecDeque::new();
    waiting.insert(1, vec![1]);
    waiting.insert(3, vec![3]);
    drain_contiguous_ready_sequences(&mut next, &mut waiting, &mut ready);
    assert_eq!(next, 0);
    assert!(ready.is_empty());
    waiting.insert(0, vec![0]);
    drain_contiguous_ready_sequences(&mut next, &mut waiting, &mut ready);
    assert_eq!(next, 2);
    assert_eq!(ready, VecDeque::from(vec![vec![0], vec![1]]));
    assert_eq!(waiting.keys().copied().collect::<Vec<_>>(), vec![3]);
    waiting.insert(2, vec![2]);
    drain_contiguous_ready_sequences(&mut next, &mut waiting, &mut ready);
    assert_eq!(next, 4);
    assert_eq!(ready.len(), 4);
    assert!(waiting.is_empty());
}

#[test]
fn delivery_wraps_around_the_sequence_counter() {
    let mut next = u64::MAX;
    let mut waiting: BTreeMap<u64, Vec<u8>> = BTreeMap::new();
    let mut ready: VecDeque<Vec<u8>> = VecDeque::new();
    waiting.insert(u64::MAX, vec![9]);
    waiting.insert(0, vec![10]);
    drain_contiguous_ready_sequences(&mut next, &mut waiting, &mut ready);
    assert_eq!(next, 1);
    assert_eq!(ready, VecDeque::from(vec![vec![9], vec![10]]));
}

fn adapter(name: &str, kind: AdapterKind) -> AdapterDesc {
    AdapterDesc { name: name.to_string(), kind }
}

#[test]
fn adapters_are_ordered_by_preference_and_filtered_by_hint() {
    let adapters = vec![
        adapter("llvmpipe", AdapterKind::Other),
        adapter("NVIDIA GeForce", AdapterKind::DiscreteGpu),
        adapter("Intel UHD", AdapterKind::IntegratedGpu),
        adapter("AMD Radeon", AdapterKind::DiscreteGpu),
    ];
    assert_eq!(order_adapters(&adapters, GpuPreference::High, None), vec![1, 3, 2, 0]);
    assert_eq!(order_adapters(&adapters, GpuPreference::Low, None), vec![2, 1, 3, 0]);
    assert_eq!(order_adapters(&adapters, GpuPreference::Auto, None), vec![2, 1, 3, 0]);
    assert_eq!(order_adapters(&adapters, GpuPreference::Low, Some("nvidia")), vec![1]);
    assert_eq!(order_adapters(&adapters, GpuPreference::High, Some("I")), vec![1, 2, 0]);
    assert_eq!(order_adapters(&adapters, GpuPreference::High, Some("apple")), Vec::<usize>::new());
    assert_eq!(order_adapters(&[], GpuPreference::High, None), Vec::<usize>::new());
}

#[test]
fn readbacks_deliver_frames_in_submit_order() {
    let mut ring = ReadbackRing::new(3);
    let a = ring.start_frame().unwrap();
    ring.begin_readback(a);
    let b = ring.start_frame().unwrap();
    ring.begin_readback(b);
    assert_eq!((a, b), (0, 1));
    assert_eq!(ring.pending_readbacks, 2);
    // The second frame finishes first and waits for the first.
    ring.finish_readback(b, vec![2]);
    assert!(ring.take_next_ready_frame().is_none());
    assert_eq!(ring.pending_readbacks, 1);
    ring.finish_readback(a, vec![1]);
    assert_eq!(ring.take_next_ready_frame(), Some(vec![1]));
    assert_eq!(ring.take_next_ready_frame(), Some(vec![2]));
    assert_eq!(ring.take_next_ready_frame(), None);
    assert_eq!(ring.pending_readbacks, 0);
}

#[test]
fn a_full_ring_hands_out_nothing_until_a_buffer_frees() {
    let mut ring = ReadbackRing::new(2);
    let a = ring.start_frame().unwrap();
    ring.begin_readback(a);
    let b = ring.start_frame().unwrap();
    assert_eq!(ring.start_frame(), None);
    ring.begin_readback(b);
    ring.finish_readback(a, vec![7]);
    // The search goes on round the ring from where it stopped.
    assert_eq!(ring.start_frame(), Some(0));
    assert_eq!(ring.next_submit_sequence, 3);
}
