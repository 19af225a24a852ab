use kline_ingest::destination::DestinationMap;

fn listing(entries: &[(u32, &str)]) -> Vec<(u32, String)> {
    entries.iter().map(|(id, name)| (*id, name.to_string())).collect()
}

#[test]
fn internal_destinations_are_left_out() {
    let map = DestinationMap::from_listing(&listing(&[
        (3, "klines_btc_usdt"),
        (4, "_vspace"),
        (5, "klines_eth_usdt"),
    ]));
    assert_eq!(map.len(), 2);
    assert_eq!(map.get(&"klines_btc_usdt".to_string()), Some(3));
    assert_eq!(map.get(&"klines_eth_usdt".to_string()), Some(5));
    assert_eq!(map.get(&"_vspace".to_string()), None);
}

#[test]
fn a_name_listed_twice_keeps_its_later_id() {
    let map = DestinationMap::from_listing(&listing(&[(1, "a"), (2, "b"), (7, "a")]));
    assert_eq!(map.len(), 2);
    assert_eq!(map.get(&"a".to_string()), Some(7));
    assert_eq!(map.get(&"b".to_string()), Some(2));
}

#[test]
fn names_are_matched_exactly() {
    let map = DestinationMap::from_listing(&listing(&[(1, "klines_btc_usdt"), (2, "")]));
    assert_eq!(map.get(&"klines_btc_usd".to_string()), None);
    assert_eq!(map.get(&"KLINES_BTC_USDT".to_string()), None);
    assert_eq!(map.get(&"klines_btc_usdt ".to_string()), None);
    assert_eq!(map.get(&"".to_string()), Some(2));
}

#[test]
fn an_empty_listing_resolves_to_nothing() {
    let map = DestinationMap::from_listing(&Vec::new());
    assert_eq!(map.len(), 0);
    assert_eq!(map.get(&"klines_btc_usdt".to_string()), None);
    assert_eq!(DestinationMap::new().len(), 0);
}

#[test]
fn a_marker_inside_a_name_does_not_hide_it() {
    let map = DestinationMap::from_listing(&listing(&[(1, "a_b"), (2, "_"), (3, "__x")]));
    assert_eq!(map.len(), 1);
    assert_eq!(map.get(&"a_b".to_string()), Some(1));
}
