use displays::astal::{
    Backend, DisplayIdentifierData, DisplayUpdateData, FakeBackend, PhysicalDisplayUpdateContentData,
};

#[test]
fn fake_update_result_contains_applied_matches() {
    let update = DisplayUpdateData {
        id: DisplayIdentifierData {
            name: Some("Dell U2720Q".to_string()),
            serial_number: Some("DELLA1".to_string()),
        },
        logical: None,
        physical: Some(PhysicalDisplayUpdateContentData { brightness: Some(50) }),
    };

    let results = FakeBackend
        .apply(vec![update], false)
        .expect("update fake displays");

    assert_eq!(results.len(), 1);
    assert_eq!(results[0].applied.len(), 1);
    assert_eq!(results[0].failed.len(), 0);
}
