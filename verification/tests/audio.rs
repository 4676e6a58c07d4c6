use tuner::audio::{extract_sliding_frames, AudioInputKind, CaptureConfig};

#[test]
fn test_audio_capture_creation() {
    let audio = CaptureConfig::new(4096, 1024, 44_100);
    assert_eq!(audio.frame_size, 4096);
    assert_eq!(audio.hop_size, 1024);
    assert_eq!(audio.sample_rate_hz, 44_100);
}

#[test]
fn capture_config_takes_zero_hop_and_rate_as_one() {
    let audio = CaptureConfig::new(512, 0, 0);
    assert_eq!(audio.frame_size, 512);
    assert_eq!(audio.hop_size, 1);
    assert_eq!(audio.sample_rate_hz, 1);
}

#[test]
fn extracts_overlapping_frames_using_hop_size() {
    let mut buffer = (0..8).map(|sample| sample as f32).collect::<Vec<_>>();

    let frames = extract_sliding_frames(&mut buffer, 4, 2);

    assert_eq!(
        frames,
        vec![
            vec![0.0, 1.0, 2.0, 3.0],
            vec![2.0, 3.0, 4.0, 5.0],
            vec![4.0, 5.0, 6.0, 7.0],
        ]
    );
    assert_eq!(buffer, vec![6.0, 7.0]);
}

#[test]
fn normalizes_zero_hop_size_to_one_sample() {
    let mut buffer = vec![0.0, 1.0, 2.0, 3.0];

    let frames = extract_sliding_frames(&mut buffer, 4, 0);

    assert_eq!(frames, vec![vec![0.0, 1.0, 2.0, 3.0]]);
    assert_eq!(buffer, vec![1.0, 2.0, 3.0]);
}

#[test]
fn zero_frame_size_empties_the_buffer() {
    let mut buffer = vec![1u8, 2, 3];
    let frames = extract_sliding_frames(&mut buffer, 0, 1);
    assert!(frames.is_empty());
    assert!(buffer.is_empty());
}

#[test]
fn short_buffer_gives_no_frame_and_stays() {
    let mut buffer = vec![1u8, 2, 3];
    let frames = extract_sliding_frames(&mut buffer, 4, 1);
    assert!(frames.is_empty());
    assert_eq!(buffer, vec![1, 2, 3]);
}

#[test]
fn hop_longer_than_frame_skips_samples_and_drains_at_most_the_buffer() {
    let mut buffer: Vec<u32> = (0..7).collect();
    let frames = extract_sliding_frames(&mut buffer, 2, 4);
    assert_eq!(frames, vec![vec![0, 1], vec![4, 5]]);
    assert!(buffer.is_empty());
}

#[test]
fn frames_of_a_stream_do_not_depend_on_how_it_is_split() {
    let stream: Vec<u32> = (0..23).collect();
    let mut whole = stream.clone();
    let all_at_once = extract_sliding_frames(&mut whole, 5, 3);

    let mut pending: Vec<u32> = Vec::new();
    let mut in_pieces = Vec::new();
    for piece in stream.chunks(4) {
        pending.extend_from_slice(piece);
        in_pieces.extend(extract_sliding_frames(&mut pending, 5, 3));
    }
    assert_eq!(in_pieces, all_at_once);
    assert_eq!(pending, whole);
}

#[test]
fn input_kinds_differ() {
    assert_ne!(AudioInputKind::Live, AudioInputKind::Mock);
}
