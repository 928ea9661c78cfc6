use openlcd::frame::{FrameError, FrameSize, RgbaFrame};
use openlcd::render::{centered_offset, encode_jpeg, rgba_to_rgb, RenderError, Renderer};

#[test]
fn encodes_valid_jpeg() {
    let frame = RgbaFrame::new(
        FrameSize::new(2, 2),
        vec![255, 0, 0, 255, 0, 255, 0, 255, 0, 0, 255, 255, 255, 255, 255, 255],
    )
    .unwrap();

    let jpeg = encode_jpeg(&frame, 85).unwrap();

    assert!(jpeg.starts_with(&[0xff, 0xd8],));

    assert!(jpeg.ends_with(&[0xff, 0xd9],));
}

#[test]
fn empty_frames_cannot_be_encoded() {
    let frame = RgbaFrame::new(FrameSize::new(0, 3), Vec::new()).unwrap();
    assert!(matches!(encode_jpeg(&frame, 85), Err(RenderError::Image(_))));
}

#[test]
fn encoding_depends_on_quality() {
    let pixels: Vec<u8> = (0..16 * 16 * 4).map(|i| (i * 7 % 251) as u8).collect();
    let frame = RgbaFrame::new(FrameSize::new(16, 16), pixels).unwrap();
    let low = encode_jpeg(&frame, 10).unwrap();
    let high = encode_jpeg(&frame, 95).unwrap();
    assert_ne!(low, high);
    assert_eq!(low, encode_jpeg(&frame, 10).unwrap());
}

#[test]
fn drops_alpha_bytes() {
    assert_eq!(rgba_to_rgb(&[1, 2, 3, 4, 5, 6, 7, 8]), vec![1, 2, 3, 5, 6, 7]);
    assert_eq!(rgba_to_rgb(&[1, 2, 3, 4, 9, 9]), vec![1, 2, 3]);
    assert!(rgba_to_rgb(&[]).is_empty());
}

#[test]
fn new_renderer_is_opaque_black() {
    let renderer = Renderer::new(FrameSize::new(2, 1));
    assert_eq!(renderer.canvas().pixels(), &[0, 0, 0, 255, 0, 0, 0, 255]);
    let frame = renderer.finish().unwrap();
    assert_eq!(frame.size(), FrameSize::new(2, 1));
    let kmex = Renderer::kmex();
    assert_eq!(kmex.canvas().size(), FrameSize::new(462, 1920));
}

#[test]
fn clear_paints_every_pixel() {
    let mut renderer = Renderer::new(FrameSize::new(1, 2));
    renderer.clear([9, 8, 7, 6]);
    assert_eq!(renderer.finish().unwrap().into_pixels(), vec![9, 8, 7, 6, 9, 8, 7, 6]);
}

#[test]
fn background_covers_the_canvas() {
    let mut renderer = Renderer::new(FrameSize::new(4, 2));
    let image = RgbaFrame::new(FrameSize::new(2, 2), vec![200; 16]).unwrap();
    renderer.set_background(&image);
    assert_eq!(renderer.canvas().size(), FrameSize::new(4, 2));
    assert_eq!(renderer.canvas().pixels().len(), 4 * 2 * 4);
    let frame = renderer.finish().unwrap();
    assert_eq!(frame.pixels().len(), 4 * 2 * 4);
}

#[test]
fn finish_reports_a_canvas_of_another_size() {
    let mut renderer = Renderer::new(FrameSize::new(0, 0));
    let image = RgbaFrame::new(FrameSize::new(1, 1), vec![1, 2, 3, 4]).unwrap();
    renderer.set_background(&image);
    match renderer.finish() {
        Ok(frame) => assert_eq!(frame.pixels().len(), 0),
        Err(RenderError::Frame(FrameError::InvalidBufferSize { expected, actual })) => {
            assert_eq!(expected, 0);
            assert!(actual > 0);
        }
        Err(_) => panic!("unexpected error"),
    }
}

#[test]
fn centres_smaller_images() {
    assert_eq!(centered_offset(100, 40), 30);
    assert_eq!(centered_offset(101, 40), 30);
    assert_eq!(centered_offset(40, 100), 0);
    assert_eq!(centered_offset(40, 40), 0);
}
