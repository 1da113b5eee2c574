use svod_tensor::frame::{frame_length, read_frame, write_frame, FrameError};

#[test]
fn frames_have_their_length_first() {
    let mut stream = vec![];
    write_frame(&mut stream, &vec![7, 8, 9]);
    assert_eq!(stream, vec![3, 0, 0, 0, 0, 0, 0, 0, 7, 8, 9]);
    assert_eq!(read_frame(&stream), Ok(Some((vec![7, 8, 9], 11))));
    write_frame(&mut stream, &vec![]);
    assert_eq!(stream.len(), 19);
    assert_eq!(read_frame(&stream[11..]), Ok(Some((vec![], 8))));
}

#[test]
fn streams_of_frames_read_back() {
    let payloads: Vec<Vec<u8>> = vec![vec![], vec![1], (0..=255).collect(), vec![0; 300]];
    let mut stream = vec![];
    for payload in &payloads {
        write_frame(&mut stream, payload);
    }
    let mut rest = stream.as_slice();
    let mut read = vec![];
    while let Some((payload, length)) = read_frame(rest).unwrap() {
        read.push(payload);
        rest = &rest[length..];
    }
    assert_eq!(read, payloads);
    assert!(rest.is_empty());
}

#[test]
fn input_that_ends_early_is_told_apart() {
    assert_eq!(read_frame(&[]), Ok(None));
    assert_eq!(read_frame(&[3, 0, 0, 0, 0, 0, 0]), Ok(None), "an input that ends in a header has ended");
    assert_eq!(read_frame(&[3, 0, 0, 0, 0, 0, 0, 0, 7, 8]), Err(FrameError::Truncated));
    assert_eq!(read_frame(&[255; 8]), Err(FrameError::Truncated));
}

#[test]
fn lengths_are_little_endian() {
    assert_eq!(frame_length(&[1, 2, 0, 0, 0, 0, 0, 0]), Ok(513));
    assert_eq!(frame_length(&[0; 8]), Ok(0));
    assert_eq!(FrameError::TooLong.to_string(), "BEAM frame length does not fit usize");
    assert!(!FrameError::Truncated.to_string().is_empty());
}
