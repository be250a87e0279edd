use aao_os::kernel::graphics::{Color, FramebufferConsole};

fn pack(c: Color) -> u32 {
    ((c.r as u32) << 16) | ((c.g as u32) << 8) | c.b as u32
}

#[test]
fn palette() {
    assert_eq!(pack(Color::black()), 0x0A0212);
    assert_eq!(pack(Color::white()), 0xFFFFFF);
    assert_eq!(pack(Color::purple_aura()), 0x9333EA);
    assert_eq!(pack(Color::dark_purple()), 0x3A0C5C);
    assert_eq!(pack(Color::neon_violet()), 0xD8B4FE);
    assert_eq!(pack(Color::dragon_eye()), 0x00FFDC);
}

#[test]
fn draw_pixel_writes_inside_and_ignores_outside() {
    let mut c = FramebufferConsole::new(vec![0; 4 * 8], 5, 4, 8);
    assert_eq!((c.cursor_x, c.cursor_y), (0, 0));
    c.draw_pixel(2, 3, Color { r: 1, g: 2, b: 3 });
    assert_eq!(c.pixels[3 * 8 + 2], 0x010203);
    c.draw_pixel(5, 0, Color::white());
    c.draw_pixel(0, 4, Color::white());
    assert_eq!(c.pixels.iter().filter(|&&p| p != 0).count(), 1);
}

#[test]
fn draw_pixel_without_framebuffer_does_nothing() {
    let mut c = FramebufferConsole::new(Vec::new(), 5, 4, 8);
    c.draw_pixel(1, 1, Color::white());
    assert!(c.pixels.is_empty());
}

#[test]
fn dragon_on_a_large_screen() {
    let (w, h) = (200usize, 160usize);
    let mut c = FramebufferConsole::new(vec![0; w * h], w, h, w);
    c.render_purple_dragon();
    let (ox, oy) = (80usize, 60usize);
    let at = |x: usize, y: usize| c.pixels[y * w + x];
    // row 0 covers columns 5, 6, 10 and 11
    assert_eq!(at(ox + 5 * 4, oy), 0xD8B4FE);
    assert_eq!(at(ox + 6 * 4 + 3, oy + 3), 0xD8B4FE);
    assert_eq!(at(ox + 4 * 4, oy), 0);
    // the eyes: cell (3, 4) is not part of the sprite, cell (3, 11) is
    assert_eq!(at(ox + 4 * 4 + 1, oy + 3 * 4 + 2), 0);
    assert_eq!(at(ox + 11 * 4, oy + 3 * 4), 0x00FFDC);
    // the body
    assert_eq!(at(ox, oy + 5 * 4), 0x9333EA);
    // row 15 is empty, and nothing is drawn outside the 64x64 square
    assert_eq!(at(ox + 32, oy + 15 * 4), 0);
    let lit = c.pixels.iter().filter(|&&p| p != 0).count();
    let cells: u32 = [
        0b0000011000110000u16, 0b0000111101111000, 0b0001111111111100, 0b0011011111110110,
        0b0111111111111110, 0b1111111111111111, 0b1111110000111111, 0b1111000000001111,
        0b0111000000001110, 0b0011100000011100, 0b0001110000111000, 0b0000111001110000,
        0b0000011111100000, 0b0000001111000000, 0b0000000110000000, 0,
    ]
    .iter()
    .map(|r| r.count_ones())
    .sum();
    assert_eq!(lit, cells as usize * 16);
}

#[test]
fn dragon_on_a_small_screen_is_clipped() {
    let (w, h) = (40usize, 30usize);
    let mut c = FramebufferConsole::new(vec![0; w * h], w, h, w);
    c.render_purple_dragon();
    // drawn from (10, 10); row 2 starts at column 3
    assert_eq!(c.pixels[(10 + 8) * w + 10 + 12], 0xD8B4FE);
    assert_eq!(c.pixels[10 * w + 10], 0);
    assert!(c.pixels.iter().any(|&p| p == 0x9333EA));
}
