use bagua_os::machine::console::{report_due, slot_name, top_quota_slots, REPORT_INTERVAL};

#[test]
fn test_top_quotas_largest_first() {
    let q = [120, 300, 95, 300, 0, 410, 7, 300];
    assert_eq!(top_quota_slots(&q), [(5, 410), (1, 300), (3, 300)]);
}

#[test]
fn test_top_quotas_ties_keep_slot_order() {
    let q = [5; 8];
    assert_eq!(top_quota_slots(&q), [(0, 5), (1, 5), (2, 5)]);
}

#[test]
fn test_top_quotas_padding() {
    assert_eq!(top_quota_slots(&[0; 8]), [(0, 0), (0, 0), (0, 0)]);
    assert_eq!(top_quota_slots(&[0, 0, 0, 0, 0, 0, 9, 0]), [(6, 9), (0, 0), (0, 0)]);
}

#[test]
fn test_slot_names() {
    let names: Vec<&str> = (0..8).map(slot_name).collect();
    assert_eq!(names, ["CPU", "CBN", "NPU", "QPU", "STO", "NET", "GPU", "SIO"]);
}

#[test]
fn test_report_due() {
    assert!(!report_due(499, 0));
    assert!(report_due(500, 0));
    assert!(report_due(1200, 600));
    assert!(!report_due(1099, 600));
    assert_eq!(REPORT_INTERVAL, 500);
}
