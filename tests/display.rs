use chip8::framebuffer::{DISPLAY_HEIGHT, DISPLAY_WIDTH};
use chip8::Framebuffer;

fn lit(fb: &Framebuffer) -> Vec<(usize, usize)> {
    let mut r = Vec::new();
    for y in 0..DISPLAY_HEIGHT {
        for x in 0..DISPLAY_WIDTH {
            if fb.pixel(x, y) {
                r.push((x, y));
            }
        }
    }
    r
}

#[test]
fn drawing_twice_collides_and_clears() {
    let mut fb = Framebuffer::new();
    let sprite = [0x3C, 0x42, 0x81];
    assert!(!fb.draw(10, 5, 3, &sprite, false));
    assert_eq!(lit(&fb).len(), 4 + 2 + 2);
    assert!(fb.draw(10, 5, 3, &sprite, false));
    assert!(lit(&fb).is_empty());
}

#[test]
fn drawing_twice_with_wrap_clears() {
    let mut fb = Framebuffer::new();
    let sprite = [0xFF, 0x81];
    assert!(!fb.draw(60, 31, 2, &sprite, true));
    assert!(fb.draw(60, 31, 2, &sprite, true));
    assert!(lit(&fb).is_empty());
}

#[test]
fn clip_at_right_edge() {
    let mut fb = Framebuffer::new();
    assert!(!fb.draw(60, 0, 1, &[0xFF], false));
    assert_eq!(lit(&fb), vec![(60, 0), (61, 0), (62, 0), (63, 0)]);
}

#[test]
fn wrap_at_right_edge() {
    let mut fb = Framebuffer::new();
    assert!(!fb.draw(60, 0, 1, &[0xFF], true));
    assert_eq!(
        lit(&fb),
        vec![(0, 0), (1, 0), (2, 0), (3, 0), (60, 0), (61, 0), (62, 0), (63, 0)]
    );
}

#[test]
fn clip_and_wrap_at_bottom_edge() {
    let mut clip = Framebuffer::new();
    clip.draw(0, 30, 4, &[0x80, 0x80, 0x80, 0x80], false);
    assert_eq!(lit(&clip), vec![(0, 30), (0, 31)]);
    let mut wrap = Framebuffer::new();
    wrap.draw(0, 30, 4, &[0x80, 0x80, 0x80, 0x80], true);
    assert_eq!(lit(&wrap), vec![(0, 0), (0, 1), (0, 30), (0, 31)]);
}

#[test]
fn coordinates_are_taken_modulo_display() {
    let mut fb = Framebuffer::new();
    fb.draw(64 + 3, 32 + 2, 1, &[0x80], false);
    assert_eq!(lit(&fb), vec![(3, 2)]);
    assert!(fb.pixel(3 + 64, 2 + 32));
}

#[test]
fn clear_bits_are_transparent() {
    let mut fb = Framebuffer::new();
    fb.draw(0, 0, 1, &[0xF0], false);
    assert!(!fb.draw(0, 0, 1, &[0x0F], false));
    assert_eq!(lit(&fb).len(), 8);
}

#[test]
fn updated_flag_follows_changes() {
    let mut fb = Framebuffer::new();
    assert!(!fb.updated);
    fb.draw(0, 0, 1, &[0x00], false);
    assert!(!fb.updated);
    fb.draw(0, 0, 1, &[0x01], false);
    assert!(fb.updated);
    fb.updated = false;
    fb.clear();
    assert!(fb.updated);
    assert!(lit(&fb).is_empty());
}

#[test]
fn color_model_substitutes_patterns() {
    let mut fb = Framebuffer::new();
    fb.draw(1, 0, 1, &[0x80], false);
    let out = fb.to_color_model(&[0xFF, 0xEE, 0xDD, 0xCC], &[0, 0, 0, 1]);
    assert_eq!(out.len(), 4 * 2048);
    assert_eq!(&out[0..4], &[0, 0, 0, 1]);
    assert_eq!(&out[4..8], &[0xFF, 0xEE, 0xDD, 0xCC]);
    assert_eq!(&out[8..12], &[0, 0, 0, 1]);
    let mixed = fb.to_color_model(&[7u8, 7], &[1u8]);
    assert_eq!(mixed.len(), 2049);
    assert_eq!(&mixed[0..4], &[1, 7, 7, 1]);
}
