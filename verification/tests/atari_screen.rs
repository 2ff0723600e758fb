use gyms::atari::{expand_rgb24_to_rgb32, Screen};

#[test]
fn rgb24_size_of_an_atari_screen() {
    let screen = Screen { width: 160, height: 210 };
    assert_eq!(screen.rgb24_size(), 160 * 210 * 3);
    assert_eq!(screen.rgb24_size(), 100800);
}

#[test]
fn rgb32_size_of_an_atari_screen() {
    let screen = Screen { width: 160, height: 210 };
    assert_eq!(screen.rgb32_size(), 134400);
}

#[test]
fn sizes_of_an_empty_screen() {
    let screen = Screen { width: 0, height: 7 };
    assert_eq!(screen.rgb24_size(), 0);
    assert_eq!(screen.rgb32_size(), 0);
}

#[test]
fn rgb32_buffer_leaves_room_for_rgb24_behind_its_first_quarter() {
    let screen = Screen { width: 3, height: 2 };
    let len = screen.rgb32_size();
    assert_eq!(len - len / 4, screen.rgb24_size());
}

#[test]
fn expand_two_pixels() {
    // n = 2: the 24-bit pixels sit at bytes 2..8
    let mut buf = vec![99u8, 98, 10, 11, 12, 20, 21, 22];
    expand_rgb24_to_rgb32(&mut buf);
    assert_eq!(buf, vec![10, 11, 12, 0, 20, 21, 22, 0]);
}

#[test]
fn expand_keeps_bytes_past_the_whole_pixels() {
    // len 10: n = 2, pixels read from bytes 2..8, bytes 8 and 9 untouched
    let mut buf = vec![0u8, 0, 1, 2, 3, 4, 5, 6, 77, 88];
    expand_rgb24_to_rgb32(&mut buf);
    assert_eq!(buf, vec![1, 2, 3, 0, 4, 5, 6, 0, 77, 88]);
}

#[test]
fn expand_a_screen_sized_buffer() {
    let screen = Screen { width: 4, height: 3 };
    let n = (screen.width * screen.height) as usize;
    let mut buf = vec![0u8; screen.rgb32_size()];
    for i in 0..n {
        buf[n + 3 * i] = i as u8;
        buf[n + 3 * i + 1] = 100 + i as u8;
        buf[n + 3 * i + 2] = 200 + i as u8;
    }
    expand_rgb24_to_rgb32(&mut buf);
    for i in 0..n {
        assert_eq!(buf[4 * i], i as u8);
        assert_eq!(buf[4 * i + 1], 100 + i as u8);
        assert_eq!(buf[4 * i + 2], 200 + i as u8);
        assert_eq!(buf[4 * i + 3], 0);
    }
}

#[test]
fn expand_leaves_short_buffers_alone() {
    let mut empty: Vec<u8> = vec![];
    expand_rgb24_to_rgb32(&mut empty);
    assert!(empty.is_empty());
    let mut three = vec![5u8, 6, 7];
    expand_rgb24_to_rgb32(&mut three);
    assert_eq!(three, vec![5, 6, 7]);
}
