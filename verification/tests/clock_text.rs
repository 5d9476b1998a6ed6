use statusbar::modules::clock::format_hms;

#[test]
fn hms_pads_to_two_digits() {
    assert_eq!(format_hms(9, 5, 3), "09:05:03");
    assert_eq!(format_hms(0, 0, 0), "00:00:00");
    assert_eq!(format_hms(23, 59, 59), "23:59:59");
}

#[test]
fn hms_is_eight_chars_for_times_of_day() {
    for h in 0..24 {
        for m in [0, 1, 9, 10, 59] {
            let t = format_hms(h, m, 60);
            assert_eq!(t.len(), 8);
            assert_eq!(&t[2..3], ":");
            assert_eq!(&t[5..6], ":");
        }
    }
}

#[test]
fn hms_matches_format() {
    let vals = [i32::MIN, -1000, -10, -9, -1, 0, 1, 9, 10, 11, 99, 100, 12345, i32::MAX];
    for &h in &vals {
        for &m in &vals {
            for &s in &[0, 7, -3, 60] {
                assert_eq!(format_hms(h, m, s), format!("{:02}:{:02}:{:02}", h, m, s));
            }
        }
    }
}

#[test]
fn hms_out_of_range_values() {
    assert_eq!(format_hms(123, 7, -5), "123:07:-5");
}
