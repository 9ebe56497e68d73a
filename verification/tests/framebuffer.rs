use rendering::cast_rays;
use rendering::Options;
use rendering::RenderError;
use rendering::Rgb;

fn rgb(r: u8, g: u8, b: u8) -> Rgb {
    Rgb { r, g, b }
}

#[test]
fn blit_writes_every_byte_row_major() {
    let mut fb: Vec<u8> = vec![0u8; 12];
    let colours = vec![rgb(1, 2, 3), rgb(4, 5, 6), rgb(7, 8, 9), rgb(10, 11, 12)];
    let res = cast_rays(&mut fb, 2, 2, &colours);
    assert!(res.is_ok());
    assert_eq!(fb, vec![1, 2, 3, 4, 5, 6, 7, 8, 9, 10, 11, 12]);
}

#[test]
fn blit_single_pixel() {
    let mut fb: Vec<u8> = vec![9u8; 3];
    let colours = vec![rgb(200, 100, 50)];
    let res = cast_rays(&mut fb, 1, 1, &colours);
    assert!(res.is_ok());
    assert_eq!(fb, vec![200, 100, 50]);
}

#[test]
fn blit_rejects_wrong_framebuffer_length() {
    let mut fb: Vec<u8> = vec![0u8; 11];
    let before = fb.clone();
    let colours = vec![rgb(1, 2, 3), rgb(4, 5, 6), rgb(7, 8, 9), rgb(10, 11, 12)];
    let res = cast_rays(&mut fb, 2, 2, &colours);
    assert_eq!(res, Err(RenderError::FramebufferLength));
    assert_eq!(fb, before);
}

#[test]
fn blit_rejects_wrong_colour_count() {
    let mut fb: Vec<u8> = vec![0u8; 12];
    let before = fb.clone();
    let colours = vec![rgb(1, 2, 3)];
    let res = cast_rays(&mut fb, 2, 2, &colours);
    assert_eq!(res, Err(RenderError::ColourCount));
    assert_eq!(fb, before);
}

#[test]
fn blit_empty_image_is_ok() {
    let mut fb: Vec<u8> = Vec::new();
    let colours: Vec<Rgb> = Vec::new();
    let res = cast_rays(&mut fb, 0, 5, &colours);
    assert!(res.is_ok());
    assert!(fb.is_empty());
}

#[test]
fn blit_twice_gives_identical_framebuffers() {
    let colours = vec![rgb(3, 1, 4), rgb(1, 5, 9), rgb(2, 6, 5), rgb(3, 5, 8)];
    let mut fb1: Vec<u8> = vec![0u8; 12];
    let mut fb2: Vec<u8> = vec![255u8; 12];
    assert!(cast_rays(&mut fb1, 4, 1, &colours).is_ok());
    assert!(cast_rays(&mut fb2, 4, 1, &colours).is_ok());
    assert_eq!(fb1, fb2);
}

#[test]
fn options_hold_sampling_knobs() {
    let o = Options { pixel_samples: 1, ray_bounces: 1 };
    assert_eq!(o.pixel_samples, 1);
    assert_eq!(o.ray_bounces, 1);
}
