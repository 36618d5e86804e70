use chip8::display::{Display, HEIGHT, WIDTH};
use chip8::keyboard::Keyboard;
use std::cell::Cell;

#[test]
fn xor_reports_collision_only_when_lit_pixel_goes_off() {
    let mut d = Display::new();
    assert!(!d.xor(5, 7, true));
    assert!(d.get(5, 7));
    assert!(!d.xor(5, 7, false));
    assert!(d.get(5, 7));
    assert!(d.xor(5, 7, true));
    assert!(!d.get(5, 7));
}

#[test]
fn set_and_clear_screen() {
    let mut d = Display::new();
    d.set(63, 31, true);
    d.set(0, 0, true);
    assert!(d.get(63, 31) && d.get(0, 0));
    assert!(!d.get(31, 63 % 32));
    d.clear_screen();
    assert!(!d.get(63, 31) && !d.get(0, 0));
}

#[test]
fn iterate_visits_every_pixel_once() {
    let mut d = Display::new();
    d.set(10, 20, true);
    let visited = Cell::new(0usize);
    let lit = Cell::new(None);
    d.iterate(|x, y, v| {
        visited.set(visited.get() + 1);
        if v {
            lit.set(Some((x, y)));
        }
    });
    assert_eq!(visited.get(), WIDTH * HEIGHT);
    assert_eq!(lit.get(), Some((10, 20)));
}

#[test]
fn keyboard_down_and_up() {
    let mut k = Keyboard::new();
    assert!(!k.is_pressed(0xf));
    k.down(0xf);
    assert!(k.is_pressed(0xf));
    assert!(!k.is_pressed(0xe));
    k.up(0xf);
    assert!(!k.is_pressed(0xf));
}

#[test]
fn text_has_one_line_per_row() {
    let mut d = Display::new();
    d.set(0, 0, true);
    d.set(63, 31, true);
    let text = String::from_utf8(d.to_text()).unwrap();
    let lines: Vec<&str> = text.lines().collect();
    assert_eq!(lines.len(), HEIGHT);
    assert!(lines.iter().all(|l| l.len() == WIDTH));
    assert_eq!(&lines[0][..3], "X__");
    assert!(lines[31].ends_with("__X"));
    assert!(text.ends_with('\n'));
}
