use minecraft_timer::convert_seconds_to_hh_mm_ss;

#[test]
fn seconds_to_time_format() {
    let x = convert_seconds_to_hh_mm_ss(127);
    let y = convert_seconds_to_hh_mm_ss(6666);

    assert_eq!(String::from("00:02:07"), x);
    assert_eq!(String::from("01:51:06"), y)
}

#[test]
fn zero_seconds_is_all_zeros() {
    assert_eq!(convert_seconds_to_hh_mm_ss(0), "00:00:00");
}

#[test]
fn fields_roll_over_at_sixty() {
    assert_eq!(convert_seconds_to_hh_mm_ss(59), "00:00:59");
    assert_eq!(convert_seconds_to_hh_mm_ss(60), "00:01:00");
    assert_eq!(convert_seconds_to_hh_mm_ss(3599), "00:59:59");
    assert_eq!(convert_seconds_to_hh_mm_ss(3600), "01:00:00");
    assert_eq!(convert_seconds_to_hh_mm_ss(36000), "10:00:00");
}

#[test]
fn hours_are_not_wrapped_at_a_day() {
    assert_eq!(convert_seconds_to_hh_mm_ss(86400), "24:00:00");
    assert_eq!(convert_seconds_to_hh_mm_ss(90061), "25:01:01");
}

#[test]
fn hours_grow_past_two_digits() {
    assert_eq!(convert_seconds_to_hh_mm_ss(359999), "99:59:59");
    assert_eq!(convert_seconds_to_hh_mm_ss(360000), "100:00:00");
    assert_eq!(convert_seconds_to_hh_mm_ss(u64::MAX), "5124095576030431:00:15");
}

fn read_back(text: &str) -> u64 {
    let parts: Vec<&str> = text.split(':').collect();
    assert_eq!(parts.len(), 3);
    assert_eq!(parts[1].len(), 2);
    assert_eq!(parts[2].len(), 2);
    let h: u64 = parts[0].parse().unwrap();
    let m: u64 = parts[1].parse().unwrap();
    let s: u64 = parts[2].parse().unwrap();
    assert!(m < 60 && s < 60);
    h * 3600 + m * 60 + s
}

#[test]
fn rendered_time_reads_back() {
    let mut t: u64 = 0;
    while t <= 359999 {
        let text = convert_seconds_to_hh_mm_ss(t);
        assert_eq!(text.len(), 8);
        assert_eq!(read_back(&text), t);
        t += 7;
    }
    assert_eq!(read_back(&convert_seconds_to_hh_mm_ss(359999)), 359999);
    assert_eq!(read_back(&convert_seconds_to_hh_mm_ss(123456789)), 123456789);
}

#[test]
fn rendered_time_agrees_with_std_formatting() {
    for t in [0u64, 1, 9, 10, 61, 3661, 35999, 36000, 359999, 360000, 4000000, u64::MAX] {
        let expected = format!("{:02}:{:02}:{:02}", t / 3600, (t % 3600) / 60, t % 60);
        assert_eq!(convert_seconds_to_hh_mm_ss(t), expected);
    }
}
