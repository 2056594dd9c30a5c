use raytrace::colour::{linear_to_gamma, ppm_header, quantize_channel, quantize_colour, rgb_line,
    write_colour};
use raytrace::vec3::Vec3;

#[test]
fn gamma_is_square_root() {
    assert_eq!(linear_to_gamma(0), 0);
    assert_eq!(linear_to_gamma(-5), 0);
    assert_eq!(linear_to_gamma(65536), 65536);
    assert_eq!(linear_to_gamma(16384), 32768);
}

#[test]
fn quantization_hits_exact_bytes() {
    assert_eq!(quantize_channel(0), 0);
    assert_eq!(quantize_channel(-123), 0);
    assert_eq!(quantize_channel(65536), 255);
    assert_eq!(quantize_channel(1000000), 255);
    // 0.25 -> sqrt -> 0.5 -> floor(255.999 * 0.5) == 127.
    assert_eq!(quantize_channel(16384), 127);
}

#[test]
fn quantization_is_monotone() {
    let mut prev = 0u8;
    let mut v: i64 = 0;
    while v <= 65536 {
        let q = quantize_channel(v);
        assert!(q >= prev, "channel went down at {}", v);
        prev = q;
        v += 97;
    }
}

#[test]
fn colours_quantize_per_channel() {
    let c = quantize_colour(&Vec3::new(65536, 0, 16384));
    assert_eq!((c.r, c.g, c.b), (255, 0, 127));
}

#[test]
fn pixel_lines_are_plain_text() {
    let line = write_colour(&Vec3::new(65536, 0, 16384));
    assert_eq!(line, b"255 0 127\n".to_vec());
    let quantized = quantize_colour(&Vec3::new(65536, 0, 16384));
    assert_eq!(rgb_line(&quantized), line);
}

#[test]
fn header_names_format_size_and_depth() {
    let hdr = ppm_header(400, 225);
    assert_eq!(hdr, b"P3\n400 225\n255\n".to_vec());
    let tiny = ppm_header(1, 1);
    assert_eq!(tiny, b"P3\n1 1\n255\n".to_vec());
}
