use rbn_core::models::RawSpot;
use rbn_core::spot_store::{SpotStore, RETENTION_MS};

const MIN: u64 = 60 * 1000;
const NOW: u64 = 100 * 60 * 1000;

fn raw(target: &str, frequency_mkhz: u64, snr: i32) -> RawSpot {
    RawSpot::new(
        String::from("W1AW"),
        String::from(target),
        frequency_mkhz,
        snr,
        25,
        String::from("CW"),
    )
}

#[test]
fn merge_keeps_highest_snr_in_either_order() {
    let mut store = SpotStore::new();
    store.add_spot(raw("K1ABC", 14025000, 10), NOW);
    store.add_spot(raw("K1ABC", 14025000, 5), NOW + 1);
    let spots = store.get_spots_by_frequency();
    assert_eq!(spots.len(), 1);
    assert_eq!(spots[0].highest_snr, 10);

    let mut store = SpotStore::new();
    store.add_spot(raw("K1ABC", 14025000, 5), NOW);
    store.add_spot(raw("K1ABC", 14025000, 10), NOW + 1);
    let spots = store.get_spots_by_frequency();
    assert_eq!(spots.len(), 1);
    assert_eq!(spots[0].highest_snr, 10);
}

#[test]
fn nearby_frequencies_share_a_record_and_distant_ones_do_not() {
    let mut store = SpotStore::new();
    store.add_spot(raw("K1ABC", 14025200, 10), NOW);
    store.add_spot(raw("K1ABC", 14025400, 12), NOW + 1);
    assert_eq!(store.count(), 1);
    store.add_spot(raw("K1ABC", 14026000, 9), NOW + 2);
    assert_eq!(store.count(), 2);
}

#[test]
fn merge_refreshes_descriptive_fields_but_not_displayed_frequency() {
    let mut store = SpotStore::new();
    store.add_spot(raw("K1ABC", 14025200, 10), NOW);
    let newer = RawSpot::new(
        String::from("OH6BG"),
        String::from("K1ABC"),
        14025400,
        7,
        31,
        String::from("RTTY"),
    );
    store.add_spot(newer, NOW + 5);
    let spots = store.get_spots_by_frequency();
    assert_eq!(spots.len(), 1);
    assert_eq!(spots[0].frequency_mkhz, 14025200);
    assert_eq!(spots[0].highest_snr, 10);
    assert_eq!(spots[0].last_spotted_ms, NOW + 5);
    assert_eq!(spots[0].mode, "RTTY");
    assert_eq!(spots[0].wpm, 31);
}

#[test]
fn purge_drops_only_records_past_the_ceiling() {
    assert_eq!(RETENTION_MS, 30 * MIN);
    let mut store = SpotStore::new();
    store.add_spot(raw("OLD1AA", 7010000, 10), NOW - 31 * MIN);
    store.add_spot(raw("NEW1AA", 14025000, 10), NOW - 29 * MIN);
    store.purge_old_spots(NOW);
    assert_eq!(store.count(), 1);
    let spots = store.get_spots_by_frequency();
    assert_eq!(spots[0].spotted_callsign, "NEW1AA");
}

#[test]
fn filtered_query_applies_snr_and_age_bounds() {
    let mut store = SpotStore::new();
    store.add_spot(raw("WEAK1A", 7005000, 15), NOW - 1 * MIN);
    store.add_spot(raw("STALE1", 7010000, 25), NOW - 11 * MIN);
    store.add_spot(raw("GOOD1A", 7020000, 25), NOW - 5 * MIN);
    let spots = store.get_filtered_spots(20, 10 * MIN, NOW);
    assert_eq!(spots.len(), 1);
    assert_eq!(spots[0].spotted_callsign, "GOOD1A");
    assert_eq!(spots[0].highest_snr, 25);
}

#[test]
fn queries_come_back_ordered_for_any_insertion_order() {
    let mut store = SpotStore::new();
    store.add_spot(raw("C1CC", 21030000, 3), NOW - 3 * MIN);
    store.add_spot(raw("A1AA", 7010000, 5), NOW - 1 * MIN);
    store.add_spot(raw("D1DD", 3550000, 9), NOW - 4 * MIN);
    store.add_spot(raw("B1BB", 14025000, 7), NOW - 2 * MIN);

    let by_freq = store.get_spots_by_frequency();
    assert_eq!(by_freq.len(), 4);
    for w in by_freq.windows(2) {
        assert!(w[0].frequency_mkhz <= w[1].frequency_mkhz);
    }
    assert_eq!(by_freq[0].spotted_callsign, "D1DD");
    assert_eq!(by_freq[3].spotted_callsign, "C1CC");

    let by_recency = store.get_spots_by_recency();
    assert_eq!(by_recency.len(), 4);
    for w in by_recency.windows(2) {
        assert!(w[0].last_spotted_ms >= w[1].last_spotted_ms);
    }
    assert_eq!(by_recency[0].spotted_callsign, "A1AA");
    assert_eq!(by_recency[3].spotted_callsign, "D1DD");
}

#[test]
fn count_and_clear() {
    let mut store = SpotStore::new();
    assert_eq!(store.count(), 0);
    store.add_spot(raw("K1ABC", 14025000, 10), NOW);
    store.add_spot(raw("K2DEF", 7010000, 11), NOW);
    assert_eq!(store.count(), 2);
    store.clear();
    assert_eq!(store.count(), 0);
    assert!(store.get_spots_by_frequency().is_empty());
}
