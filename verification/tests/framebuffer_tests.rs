use chip8::framebuffer::Framebuffer;

#[test]
fn framebuffer_starts_dark() {
    let fb = Framebuffer::new();
    assert!(fb.pixels.iter().all(|&p| p == 0));
}

#[test]
fn xor_lights_then_collides() {
    let mut fb = Framebuffer::new();
    assert!(!fb.xor(3, 2, 1));
    assert_eq!(fb.pixels[2 * 64 + 3], 1);
    assert!(fb.xor(3, 2, 1));
    assert_eq!(fb.pixels[2 * 64 + 3], 0);
}

#[test]
fn xor_with_zero_keeps_pixel() {
    let mut fb = Framebuffer::new();
    fb.xor(63, 31, 1);
    assert!(!fb.xor(63, 31, 0));
    assert_eq!(fb.pixels[2047], 1);
}

#[test]
fn xor_twice_restores() {
    let mut fb = Framebuffer::new();
    fb.xor(10, 10, 1);
    let before = fb.pixels;
    fb.xor(5, 7, 1);
    fb.xor(5, 7, 1);
    assert_eq!(fb.pixels, before);
}

#[test]
fn clear_darkens_everything() {
    let mut fb = Framebuffer::new();
    fb.xor(0, 0, 1);
    fb.xor(40, 20, 1);
    fb.clear();
    assert!(fb.pixels.iter().all(|&p| p == 0));
}
