use hindsight::clock::{epoch_ms_to_hm, epoch_ms_to_rfc3339};

#[test]
fn epoch_ms_to_hm_returns_hhmm() {
    // 2024-01-01T09:00:00Z = 1704099600000
    let hm = epoch_ms_to_hm(1_704_099_600_000);
    assert_eq!(hm, "09:00");
}

#[test]
fn epoch_ms_to_rfc3339_roundtrips() {
    let ms = 1_726_544_400_000i64;
    let rfc = epoch_ms_to_rfc3339(ms);
    assert!(rfc.contains("2024"));
    assert!(rfc.contains("T"));
}

#[test]
fn rfc3339_text_of_milliseconds_keeps_the_fraction() {
    assert_eq!(epoch_ms_to_rfc3339(1_726_544_400_250), "2024-09-17T03:40:00.250+00:00");
    assert_eq!(epoch_ms_to_rfc3339(0), "1970-01-01T00:00:00+00:00");
    assert_eq!(epoch_ms_to_hm(-60_000), "23:59");
}
