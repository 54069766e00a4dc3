use chip8::keypad::Keypad;

#[test]
fn keypad_starts_up() {
    let kp = Keypad::new();
    for k in 0..16 {
        assert!(!kp.is_key_down(k));
    }
    assert_eq!(kp.just_released(), None);
}

#[test]
fn press_and_release() {
    let mut kp = Keypad::new();
    kp.press_key(5);
    assert!(kp.is_key_down(5));
    assert!(!kp.is_key_down(4));
    kp.press_key(15);
    kp.release_key(5);
    assert!(!kp.is_key_down(5));
    assert!(kp.is_key_down(15));
}

#[test]
fn release_seen_until_next_tick() {
    let mut kp = Keypad::new();
    kp.press_key(0);
    kp.tick();
    kp.release_key(0);
    assert_eq!(kp.just_released(), Some(0));
    kp.tick();
    assert_eq!(kp.just_released(), None);
}

#[test]
fn released_gives_lowest_key() {
    let mut kp = Keypad::new();
    kp.press_key(2);
    kp.tick();
    kp.release_key(2);
    assert_eq!(kp.just_released(), Some(2));

    let mut kp = Keypad::new();
    kp.press_key(3);
    kp.press_key(9);
    kp.press_key(12);
    kp.tick();
    kp.release_key(9);
    kp.release_key(3);
    assert_eq!(kp.just_released(), Some(3));

    let mut kp = Keypad::new();
    kp.press_key(15);
    kp.tick();
    kp.release_key(15);
    assert_eq!(kp.just_released(), Some(15));
}

#[test]
fn all_keys_released() {
    let mut kp = Keypad::new();
    for k in 0..16 {
        kp.press_key(k);
    }
    kp.tick();
    for k in 0..16 {
        kp.release_key(k);
    }
    assert_eq!(kp.just_released(), Some(0));
}

#[test]
fn key_down_iff_pressed_last() {
    let mut kp = Keypad::new();
    kp.press_key(4);
    kp.release_key(4);
    kp.tick();
    kp.press_key(4);
    kp.press_key(6);
    kp.release_key(6);
    assert!(kp.is_key_down(4));
    assert!(!kp.is_key_down(6));
}

#[test]
fn key_still_down_is_not_released() {
    let mut kp = Keypad::new();
    kp.press_key(7);
    kp.tick();
    assert_eq!(kp.just_released(), None);
}
