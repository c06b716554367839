use vidya::layout::{pad_metric, METRIC_BPS_CHARS, METRIC_RATE_CHARS};

#[test]
fn pad_metric_is_identity_when_already_wide() {
    let long = "123456789012345"; // 15 > 14
    assert_eq!(pad_metric(long, METRIC_BPS_CHARS), long);
}

#[test]
fn pad_metric_left_pads_to_the_width() {
    assert_eq!(pad_metric("12/s", METRIC_RATE_CHARS), "      12/s");
    assert_eq!(pad_metric("1.5 KiB/s", METRIC_BPS_CHARS).chars().count(), METRIC_BPS_CHARS);
    assert_eq!(pad_metric("é", 3), "  é");
    assert_eq!(pad_metric("", 2), "  ");
}
