use imdbdownloader::unmask::{is_masked_header, unmask_payload, unmask_temp_path, unmasked_path, remux_command, remux_command_fd};

const PNG: [u8; 8] = [0x89, 0x50, 0x4e, 0x47, 0x0d, 0x0a, 0x1a, 0x0a];

#[test]
fn headers_of_images_are_masked() {
    assert!(is_masked_header(&[0x89, b'P', b'N', b'G']));
    assert!(is_masked_header(&[0xff, 0xd8, 0xff, 0x00, 0x01]));
    assert!(!is_masked_header(&[0xff, 0xd8, 0xff]));
    assert!(!is_masked_header(&[0x47, 0x40, 0x00, 0x10]));
    assert!(!is_masked_header(&[]));
}

#[test]
fn png_wrapper_is_cut_out() {
    let mut data = vec![1u8, 2];
    data.extend_from_slice(&PNG);
    data.extend_from_slice(&[0, 0, 0x47, 9, 9, 9]);
    assert_eq!(unmask_payload(&data), Some(vec![1, 2, 0x47, 9, 9, 9]));
}

#[test]
fn jpeg_wrapper_at_start_resumes_at_id3() {
    let data = vec![0xff, 0xd8, 0xff, 5, 5, b'I', b'D', b'3', 4, 4];
    assert_eq!(unmask_payload(&data), Some(vec![b'I', b'D', b'3', 4, 4]));
}

#[test]
fn earliest_signature_is_used() {
    let mut data = vec![0xff, 0xd8, 0xff, 0x47, 1, 2];
    data.extend_from_slice(&PNG);
    data.extend_from_slice(&[0x47, 3, 3]);
    let out = unmask_payload(&data).unwrap();
    assert_eq!(out[0], 0x47);
    assert_eq!(out.len(), data.len() - 3);
}

#[test]
fn streams_without_signature_or_video_stay_as_they_are() {
    assert_eq!(unmask_payload(&[0x47, 1, 2, 3, 4]), None);
    let mut data = PNG.to_vec();
    data.extend_from_slice(&[1, 2, 3]);
    assert_eq!(unmask_payload(&data), None);
    // a sync byte too close to the end does not count
    let mut late = PNG.to_vec();
    late.extend_from_slice(&[1, 0x47, 1]);
    assert_eq!(unmask_payload(&late), None);
    assert_eq!(unmask_payload(&[]), None);
}

#[test]
fn unmask_paths_and_command() {
    assert_eq!(unmask_temp_path("out.mp4"), "out.mp4.tmp.ts");
    assert_eq!(unmasked_path("a/b.mp4"), "a/b.mp4.unmasked.mp4");
    assert_eq!(
        remux_command("in.ts", "out.mp4"),
        "ffmpeg -y -i \"in.ts\" -c copy -bsf:a aac_adtstoasc -movflags +faststart \"out.mp4\""
    );
}

#[test]
fn remux_between_descriptors() {
    assert_eq!(
        remux_command_fd(7, 9),
        "ffmpeg -y -i \"/dev/fd/7\" -c copy -bsf:a aac_adtstoasc -movflags +faststart \"/dev/fd/9\""
    );
}
