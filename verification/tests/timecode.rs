use audio_stream::timecode::format_duration;

#[test]
fn zero_duration() {
    assert_eq!(format_duration(0), "00:00:00");
}

#[test]
fn single_digits_are_padded() {
    assert_eq!(format_duration(5), "00:00:05");
    assert_eq!(format_duration(65), "00:01:05");
    assert_eq!(format_duration(3661), "01:01:01");
}

#[test]
fn two_digits_are_kept() {
    assert_eq!(format_duration(59), "00:00:59");
    assert_eq!(format_duration(3599), "00:59:59");
    assert_eq!(format_duration(86399), "23:59:59");
    assert_eq!(format_duration(36000), "10:00:00");
}

#[test]
fn hours_grow_beyond_two_digits() {
    assert_eq!(format_duration(360_000), "100:00:00");
    assert_eq!(format_duration(i32::MAX), "596523:14:07");
}

#[test]
fn negative_durations_keep_their_sign_in_each_field() {
    assert_eq!(format_duration(-5), "00:00:-5");
    assert_eq!(format_duration(-65), "00:-1:-5");
    assert_eq!(format_duration(-3661), "-1:-1:-1");
    assert_eq!(format_duration(-45296), "-12:-34:-56");
    assert_eq!(format_duration(i32::MIN), "-596523:-14:-8");
}

#[test]
fn agrees_with_zero_padded_formatting() {
    let mut d: i32 = -200_000;
    while d < 200_000 {
        let seconds = d % 60;
        let minutes = (d / 60) % 60;
        let hours = d / 3600;
        assert_eq!(
            format_duration(d),
            format!("{hours:02}:{minutes:02}:{seconds:02}")
        );
        d += 977;
    }
}
