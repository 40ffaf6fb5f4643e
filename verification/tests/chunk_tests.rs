use musical_key_cnn::chunk::{chunk_spectrogram, FREQUENCY_BINS, MODEL_FRAMES};
use musical_key_cnn::Error;

#[test]
fn partitions_long_spectrograms_into_balanced_chunks() -> Result<(), Error> {
    let columns = MODEL_FRAMES + 188;
    let values = vec![1.0; FREQUENCY_BINS * columns];
    let chunks = chunk_spectrogram(&values, FREQUENCY_BINS, columns)?;
    assert_eq!(chunks.len(), 2);
    assert_eq!(
        chunks
            .iter()
            .map(|chunk| chunk.source_frames)
            .collect::<Vec<_>>(),
        [350, 350],
    );
    assert!(chunks.iter().all(|chunk| {
        chunk.tensor.shape == [1, 1, FREQUENCY_BINS, MODEL_FRAMES]
            && chunk.tensor.data.len() == FREQUENCY_BINS * MODEL_FRAMES
    }));
    Ok(())
}

#[test]
fn short_spectrograms_repeat_their_frames() {
    let columns = 3;
    let values: Vec<u32> = (0..(FREQUENCY_BINS * columns) as u32).collect();
    let chunks = chunk_spectrogram(&values, FREQUENCY_BINS, columns).expect("valid buffer");
    assert_eq!(chunks.len(), 1);
    assert_eq!(chunks[0].source_frames, 3);
    let data = &chunks[0].tensor.data;
    assert_eq!(&data[0..7], &[0, 1, 2, 0, 1, 2, 0]);
    assert_eq!(data[MODEL_FRAMES], 3);
    assert_eq!(data[MODEL_FRAMES + 4], 4);
    assert_eq!(data[104 * MODEL_FRAMES + 511], 104 * 3 + 511 % 3);
}

#[test]
fn uneven_spectrograms_split_into_windows_of_near_equal_width() {
    let columns = 1025;
    let values: Vec<u32> = (0..(FREQUENCY_BINS * columns) as u32).collect();
    let chunks = chunk_spectrogram(&values, FREQUENCY_BINS, columns).expect("valid buffer");
    let frames: Vec<usize> = chunks.iter().map(|chunk| chunk.source_frames).collect();
    assert_eq!(frames, [341, 342, 342]);
    assert_eq!(frames.iter().sum::<usize>(), columns);
    assert_eq!(chunks[1].tensor.data[0], 341);
    assert_eq!(chunks[2].tensor.data[MODEL_FRAMES], columns as u32 + 683);
    assert_eq!(chunks[2].tensor.data[342], 683);
}

#[test]
fn exactly_one_window_of_frames_is_one_chunk() {
    let values = vec![0.5f32; FREQUENCY_BINS * MODEL_FRAMES];
    let chunks = chunk_spectrogram(&values, FREQUENCY_BINS, MODEL_FRAMES).expect("valid buffer");
    assert_eq!(chunks.len(), 1);
    assert_eq!(chunks[0].source_frames, MODEL_FRAMES);
}

#[test]
fn malformed_buffers_are_invalid_audio() {
    let values = vec![0.0f64; FREQUENCY_BINS * 4];
    assert!(matches!(chunk_spectrogram(&values, 104, 4), Err(Error::InvalidAudio(_))));
    assert!(matches!(chunk_spectrogram(&values, FREQUENCY_BINS, 0), Err(Error::InvalidAudio(_))));
    assert!(matches!(chunk_spectrogram(&values, FREQUENCY_BINS, 5), Err(Error::InvalidAudio(_))));
    assert!(matches!(
        chunk_spectrogram(&values, usize::MAX, 2),
        Err(Error::InvalidAudio(_))
    ));
}

#[test]
fn malformed_buffer_errors_give_the_shape() {
    let values = vec![0u8; 10];
    match chunk_spectrogram(&values, 104, 4) {
        Err(Error::InvalidAudio(message)) => {
            assert_eq!(message, "invalid CQT buffer: 104x4 for 10 values")
        }
        other => panic!("unexpected {:?}", other.map(|chunks| chunks.len())),
    }
}

#[test]
fn oversized_shapes_are_refused_by_name() {
    let values = vec![0u8; 4];
    match chunk_spectrogram(&values, usize::MAX, 2) {
        Err(Error::InvalidAudio(message)) => assert_eq!(message, "CQT shape overflow"),
        other => panic!("unexpected {:?}", other.map(|chunks| chunks.len())),
    }
}
