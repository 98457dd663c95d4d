use artxl::payload::{
    encode_png, payload_from_webp, placeholder_rgba, preview_encodable, preview_of_render,
    preview_payload, unsupported_placeholder,
};
use base64::Engine;

fn unbase64(s: &str) -> Vec<u8> {
    base64::engine::general_purpose::STANDARD.decode(s).unwrap()
}

#[test]
fn webp_bytes_become_standard_base64() {
    let p = payload_from_webp(b"Man", 3, 4, 5).unwrap();
    assert_eq!(p.webp_b64, "TWFu");
    assert_eq!((p.width, p.height, p.jxl_size), (3, 4, 5));
    assert_eq!(payload_from_webp(b"M", 1, 1, 0).unwrap().webp_b64, "TQ==");
    assert_eq!(payload_from_webp(b"Ma", 1, 1, 0).unwrap().webp_b64, "TWE=");
    assert_eq!(payload_from_webp(b"", 1, 1, 0).unwrap().webp_b64, "");
    assert_eq!(payload_from_webp(&[0xfb, 0xff], 1, 1, 0).unwrap().webp_b64, "+/8=");
}

#[test]
fn which_images_the_preview_encoder_takes() {
    assert!(preview_encodable(4, 1, 1));
    assert!(!preview_encodable(3, 1, 1));
    assert!(!preview_encodable(0, 0, 0));
    assert!(!preview_encodable(4 * 16385, 16385, 1));
    assert!(preview_encodable(4 * 16384, 16384, 1));
}

#[test]
fn previews_are_lossless_webp() {
    let rgba: Vec<u8> = vec![255, 0, 0, 255, 0, 128, 255, 255];
    let p = preview_payload(&rgba, 2, 1, 42).unwrap();
    assert_eq!((p.width, p.height, p.jxl_size), (2, 1, 42));
    let webp = unbase64(&p.webp_b64);
    assert_eq!(&webp[0..4], b"RIFF");
    assert_eq!(&webp[8..12], b"WEBP");
    let img = image::load_from_memory(&webp).unwrap().to_rgba8();
    assert_eq!(img.dimensions(), (2, 1));
    assert_eq!(img.into_raw(), rgba);
}

#[test]
fn placeholder_is_striped_grey() {
    let px = placeholder_rgba();
    assert_eq!(px.len(), 256 * 256 * 4);
    assert_eq!(&px[0..4], &[40, 40, 40, 255]);
    assert_eq!(&px[4 * 11..4 * 12], &[40, 40, 40, 255]);
    assert_eq!(&px[4 * 12..4 * 13], &[56, 56, 56, 255]);
    let i = 256 + 23;
    assert_eq!(&px[4 * i..4 * i + 4], &[40, 40, 40, 255]);
    let j = 256 * 5 + 10;
    assert_eq!(&px[4 * j..4 * j + 4], &[56, 56, 56, 255]);
}

#[test]
fn placeholder_payload_decodes_to_the_placeholder() {
    let p = unsupported_placeholder().unwrap();
    assert_eq!((p.width, p.height, p.jxl_size), (256, 256, 0));
    let img = image::load_from_memory(&unbase64(&p.webp_b64)).unwrap().to_rgba8();
    assert_eq!(img.into_raw(), placeholder_rgba());
}

#[test]
fn failed_renders_show_the_placeholder() {
    let failed: Result<(Vec<u8>, u32, u32, u64), String> = Err("no encoder".to_string());
    let p = preview_of_render(&failed).unwrap();
    assert_eq!((p.width, p.height, p.jxl_size), (256, 256, 0));
    let ok: Result<(Vec<u8>, u32, u32, u64), String> = Ok((vec![1, 2, 3, 255], 1, 1, 9));
    let q = preview_of_render(&ok).unwrap();
    assert_eq!((q.width, q.height, q.jxl_size), (1, 1, 9));
}

#[test]
fn png_download() {
    let rgba: Vec<u8> = vec![10, 20, 30, 255, 40, 50, 60, 128];
    let png = encode_png(rgba.clone(), 2, 1).unwrap();
    assert_eq!(&png[0..8], &[137, 80, 78, 71, 13, 10, 26, 10]);
    let img = image::load_from_memory(&png).unwrap().to_rgba8();
    assert_eq!(img.into_raw(), rgba);
    assert_eq!(encode_png(vec![0; 7], 2, 1), Err("failed to create image buffer".to_string()));
}
