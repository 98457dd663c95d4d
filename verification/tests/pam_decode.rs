use artxl::codec::{can_fit, parse_pam, scale_to_max_dim};

fn pam(header: &str, data: &[u8]) -> Vec<u8> {
    let mut v = header.as_bytes().to_vec();
    v.extend_from_slice(data);
    v
}

#[test]
fn grey_pixels_become_opaque_rgba() {
    let b = pam("P7\nWIDTH 2\nHEIGHT 1\nDEPTH 1\nMAXVAL 255\nTUPLTYPE GRAYSCALE\nENDHDR\n", &[0, 200]);
    assert_eq!(parse_pam(&b), Ok((vec![0, 0, 0, 255, 200, 200, 200, 255], 2, 1)));
}

#[test]
fn grey_alpha_rgb_and_rgba_layouts() {
    let ga = pam("P7\nWIDTH 1\nHEIGHT 1\nDEPTH 2\nMAXVAL 255\nTUPLTYPE GRAYSCALE_ALPHA\nENDHDR\n", &[7, 9]);
    assert_eq!(parse_pam(&ga), Ok((vec![7, 7, 7, 9], 1, 1)));
    let rgb = pam("P7\nWIDTH 1\nHEIGHT 2\nDEPTH 3\nMAXVAL 255\nTUPLTYPE RGB\nENDHDR\n", &[1, 2, 3, 4, 5, 6]);
    assert_eq!(parse_pam(&rgb), Ok((vec![1, 2, 3, 255, 4, 5, 6, 255], 1, 2)));
    let rgba = pam("P7\nWIDTH 1\nHEIGHT 1\nDEPTH 4\nMAXVAL 255\nTUPLTYPE RGB_ALPHA\nENDHDR\n", &[1, 2, 3, 4]);
    assert_eq!(parse_pam(&rgba), Ok((vec![1, 2, 3, 4], 1, 1)));
}

#[test]
fn hidden_channels_are_skipped_at_full_depth_stride() {
    let b = pam(
        "P7\nWIDTH 2\nHEIGHT 1\nDEPTH 4\nMAXVAL 255\nTUPLTYPE RGB\nTUPLTYPE Optional\nENDHDR\n",
        &[1, 2, 3, 99, 4, 5, 6, 98],
    );
    assert_eq!(parse_pam(&b), Ok((vec![1, 2, 3, 255, 4, 5, 6, 255], 2, 1)));
}

#[test]
fn without_tupltype_the_depth_decides() {
    let b = pam("P7\nWIDTH 1\nHEIGHT 1\nDEPTH 2\nMAXVAL 255\nENDHDR\n", &[30, 40]);
    assert_eq!(parse_pam(&b), Ok((vec![30, 30, 30, 40], 1, 1)));
    let wide = pam("P7\nWIDTH 1\nHEIGHT 1\nDEPTH 6\nMAXVAL 255\nENDHDR\n", &[1, 2, 3, 4, 5, 6]);
    assert_eq!(parse_pam(&wide), Ok((vec![1, 2, 3, 4], 1, 1)));
}

#[test]
fn sixteen_bit_samples_are_scaled() {
    let b = pam(
        "P7\nWIDTH 1\nHEIGHT 1\nDEPTH 3\nMAXVAL 4095\nTUPLTYPE RGB\nENDHDR\n",
        &[0x0F, 0xFF, 0x08, 0x00, 0x00, 0x00],
    );
    assert_eq!(parse_pam(&b), Ok((vec![255, 127, 0, 255], 1, 1)));
}

#[test]
fn a_zero_maxval_counts_as_one() {
    let b = pam("P7\nWIDTH 3\nHEIGHT 1\nDEPTH 1\nTUPLTYPE GRAYSCALE\nENDHDR\n", &[0, 1, 2]);
    assert_eq!(
        parse_pam(&b),
        Ok((vec![0, 0, 0, 255, 255, 255, 255, 255, 254, 254, 254, 255], 3, 1))
    );
}

#[test]
fn extra_pixel_data_is_ignored() {
    let b = pam("P7\nWIDTH 1\nHEIGHT 1\nDEPTH 1\nMAXVAL 255\nENDHDR\n", &[5, 6, 7]);
    assert_eq!(parse_pam(&b), Ok((vec![5, 5, 5, 255], 1, 1)));
}

#[test]
fn header_faults() {
    let e = |s: &str| Err::<(Vec<u8>, u32, u32), String>(s.to_string());
    assert_eq!(parse_pam(b"P7\nWIDTH 1\n"), e("PAM: missing ENDHDR"));
    let mut bad = b"P7\nWIDTH \xff\n".to_vec();
    bad.extend_from_slice(b"ENDHDR\n");
    assert_eq!(parse_pam(&bad), e("PAM: non-utf8 header"));
    assert_eq!(parse_pam(b"P7\nWIDTH x\nENDHDR\n"), e("PAM: WIDTH"));
    assert_eq!(parse_pam(b"P7\nWIDTH 1\nHEIGHT -1\nENDHDR\n"), e("PAM: HEIGHT"));
    assert_eq!(parse_pam(b"P7\nDEPTH\nENDHDR\n"), e("PAM: DEPTH"));
    assert_eq!(parse_pam(b"P7\nMAXVAL 1.5\nENDHDR\n"), e("PAM: MAXVAL"));
    assert_eq!(parse_pam(b"P7\nWIDTH 1\nHEIGHT 1\nENDHDR\n"), e("PAM: incomplete header"));
    assert_eq!(parse_pam(b"P7\nWIDTH 2\nHEIGHT 2\nDEPTH 1\nENDHDR\nabc"), e("PAM: truncated pixel data"));
    assert_eq!(
        parse_pam(b"P7\nWIDTH 1\nHEIGHT 1\nDEPTH 1\nMAXVAL 300\nENDHDR\n\x01"),
        e("PAM: truncated pixel data")
    );
}

#[test]
fn later_keys_override_and_first_tupltype_wins() {
    let b = pam(
        "P7\nWIDTH 5\nWIDTH 1\nHEIGHT 1\nDEPTH 3\nTUPLTYPE GRAYSCALE\nTUPLTYPE RGB\nMAXVAL 255\nENDHDR\n",
        &[9, 8, 7],
    );
    assert_eq!(parse_pam(&b), Ok((vec![9, 9, 9, 255], 1, 1)));
}

#[test]
fn native_size_is_kept() {
    let px = vec![1u8, 2, 3, 4, 5, 6, 7, 8];
    assert_eq!(scale_to_max_dim(px.clone(), 2, 1, 0), Ok((px.clone(), 2, 1)));
    assert_eq!(scale_to_max_dim(px.clone(), 2, 1, 2), Ok((px, 2, 1)));
}

#[test]
fn longest_edge_is_fitted() {
    let px = vec![200u8; 4 * 4 * 2];
    let (out, w, h) = scale_to_max_dim(px, 4, 2, 2).unwrap();
    assert_eq!((w, h), (2, 1));
    assert_eq!(out.len(), 8);
    let up = vec![100u8; 4 * 2];
    let (out, w, h) = scale_to_max_dim(up, 2, 1, 4).unwrap();
    assert_eq!((w, h), (4, 2));
    assert_eq!(out.len(), 32);
    let tall = vec![0u8; 4 * 100];
    let (out, w, h) = scale_to_max_dim(tall, 1, 100, 10).unwrap();
    assert_eq!((w, h), (1, 10));
    assert_eq!(out.len(), 40);
}

#[test]
fn short_buffers_are_refused() {
    assert_eq!(
        scale_to_max_dim(vec![0u8; 7], 2, 1, 4),
        Err("rgba buffer shape mismatch".to_string())
    );
}

#[test]
fn fits_only_addressable_resamples() {
    assert!(can_fit(2, 1, 4));
    assert!(can_fit(5, 5, 0));
    assert!(!can_fit(1 << 31, 1 << 31, u32::MAX));
}
