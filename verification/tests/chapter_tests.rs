use mangadl::chapter::{assemble_chapter, ImageFetchOutcome};
use mangadl::images::{
    decode_body, image_fetch_step, status_is_success, FetchDirective, TransportEvent,
};
use mangadl::output::{chapter_dir_name, image_file_name};
use mangadl::run::collect_run;

/// A one-pixel PNG, encoded through the image crate itself.
fn png_bytes() -> Vec<u8> {
    let bitmap = image::RgbImage::new(1, 1);
    let dynamic = image::DynamicImage::ImageRgb8(bitmap);
    let mut buffer = std::io::Cursor::new(Vec::new());
    dynamic
        .write_to(&mut buffer, image::ImageFormat::Png)
        .unwrap();
    buffer.into_inner()
}

fn fetched(ordinal_index: usize) -> ImageFetchOutcome {
    let body = png_bytes();
    let img = decode_body(ordinal_index, body.as_slice()).unwrap();
    assert_eq!(img.ordinal_index, ordinal_index);
    ImageFetchOutcome::Fetched(img)
}

#[test]
fn decode_body_accepts_real_image() {
    let body = png_bytes();
    let img = decode_body(7, body.as_slice()).unwrap();
    assert_eq!(img.ordinal_index, 7);
}

#[test]
fn decode_body_rejects_garbage() {
    assert!(decode_body(0, b"not an image at all").is_none());
}

#[test]
fn fetch_step_retries_transport_failure() {
    let d = image_fetch_step(&TransportEvent::Failed);
    assert_eq!(d, FetchDirective::Retry { delay_secs: 2 });
}

#[test]
fn fetch_step_reads_success_body() {
    let d = image_fetch_step(&TransportEvent::Responded { status: 200 });
    assert_eq!(d, FetchDirective::ReadBody);
    let d = image_fetch_step(&TransportEvent::Responded { status: 299 });
    assert_eq!(d, FetchDirective::ReadBody);
}

#[test]
fn fetch_step_fails_on_error_status() {
    let d = image_fetch_step(&TransportEvent::Responded { status: 404 });
    assert_eq!(d, FetchDirective::Fail { status: 404 });
    let d = image_fetch_step(&TransportEvent::Responded { status: 301 });
    assert_eq!(d, FetchDirective::Fail { status: 301 });
}

#[test]
fn order_preservation() {
    // The extractor yielded indices [0, 1, 2, 3]; the fetches completed in
    // order [2, 0, 3, 1].
    let outcomes = vec![fetched(2), fetched(0), fetched(3), fetched(1)];
    let chapter = assemble_chapter(1, outcomes);
    assert_eq!(chapter.chapter_number, 1);
    let indices: Vec<usize> = chapter.images.iter().map(|i| i.ordinal_index).collect();
    assert_eq!(indices, vec![0, 1, 2, 3]);
}

#[test]
fn partial_image_failure() {
    // The fetch for index 2 of 4 failed: the chapter holds [0, 1, 3] only.
    let outcomes = vec![
        fetched(0),
        fetched(1),
        ImageFetchOutcome::StatusError(500),
        fetched(3),
    ];
    let chapter = assemble_chapter(9, outcomes);
    let indices: Vec<usize> = chapter.images.iter().map(|i| i.ordinal_index).collect();
    assert_eq!(indices, vec![0, 1, 3]);
}

#[test]
fn status_gate_bounds() {
    assert!(status_is_success(200));
    assert!(status_is_success(299));
    assert!(!status_is_success(199));
    assert!(!status_is_success(300));
    assert!(!status_is_success(404));
}

#[test]
fn transport_failed_body_read_is_dropped() {
    let outcomes = vec![fetched(0), ImageFetchOutcome::TransportError, fetched(2)];
    let chapter = assemble_chapter(4, outcomes);
    let indices: Vec<usize> = chapter.images.iter().map(|i| i.ordinal_index).collect();
    assert_eq!(indices, vec![0, 2]);
}

#[test]
fn undecodable_image_is_dropped() {
    let outcomes = vec![fetched(0), ImageFetchOutcome::DecodeError, fetched(2)];
    let chapter = assemble_chapter(3, outcomes);
    let indices: Vec<usize> = chapter.images.iter().map(|i| i.ordinal_index).collect();
    assert_eq!(indices, vec![0, 2]);
}

#[test]
fn fully_failed_chapter_is_still_a_result() {
    let outcomes = vec![
        ImageFetchOutcome::StatusError(404),
        ImageFetchOutcome::DecodeError,
    ];
    let chapter = assemble_chapter(5, outcomes);
    assert_eq!(chapter.chapter_number, 5);
    assert!(chapter.images.is_empty());
}

#[test]
fn chapter_independence() {
    // Chapter A's page fetch failed; chapter B still appears in the run.
    let chapter_b = assemble_chapter(2, vec![fetched(0)]);
    let run = collect_run(vec![None, Some(chapter_b)]);
    assert_eq!(run.chapters.len(), 1);
    assert_eq!(run.chapters[0].chapter_number, 2);
    assert_eq!(run.chapters[0].images.len(), 1);
}

#[test]
fn output_names() {
    assert_eq!(chapter_dir_name(326), "chapter_326".as_bytes().to_vec());
    assert_eq!(chapter_dir_name(0), "chapter_0".as_bytes().to_vec());
    assert_eq!(image_file_name(0), "img_0.jpg".as_bytes().to_vec());
    assert_eq!(image_file_name(23), "img_23.jpg".as_bytes().to_vec());
}
