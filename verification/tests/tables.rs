use lumen::cache::{ByteLru, RegexpProgramCache};
use lumen::cldr_collation::{check_data, primary_rank, HanOrder};
use lumen::cldr_locale_info::{calendar_preferences, hour_cycles, week_info};
use lumen::places::Places;
use std::rc::Rc;

#[test]
fn evicts_by_bytes_then_recency_and_skips_oversized_entries() {
    let mut cache = ByteLru::new(10, 3);
    cache.insert("a", 1, 4);
    cache.insert("b", 2, 4);
    assert_eq!(cache.get_cloned(&"a"), Some(1));
    cache.insert("c", 3, 4);
    assert_eq!(cache.get_cloned(&"b"), None, "least-recent byte victim");
    assert_eq!(cache.get_cloned(&"a"), Some(1));
    assert_eq!(cache.get_cloned(&"c"), Some(3));
    assert_eq!(cache.stats(), (2, 8));

    cache.insert("huge", 4, 11);
    assert_eq!(cache.get_cloned(&"huge"), None);
    assert_eq!(cache.stats(), (2, 8));
}

#[test]
fn replacement_updates_accounting_without_stale_queue_eviction() {
    let mut cache = ByteLru::new(8, 2);
    cache.insert(1, "old", 7);
    cache.insert(1, "new", 2);
    cache.insert(2, "other", 6);
    assert_eq!(cache.stats(), (2, 8));
    assert_eq!(cache.get_cloned(&1), Some("new"));
    assert_eq!(cache.get_cloned(&2), Some("other"));
}

/// A compiled program, as far as the cache is concerned.
struct Regex {
    source: &'static str,
    flags: &'static str,
}

#[test]
fn regexp_cache_accounts_all_flag_variants_and_evicts_globally() {
    let mut cache = RegexpProgramCache::new(10, 3);
    let a = Rc::new(Regex { source: "a", flags: "" });
    let ai = Rc::new(Regex { source: "a", flags: "i" });
    let b = Rc::new(Regex { source: "b", flags: "" });
    cache.insert("a", "", a.clone(), 4);
    cache.insert("a", "i", ai, 4);
    assert!(Rc::ptr_eq(&cache.get("a", "").unwrap(), &a));
    cache.insert("b", "", b, 4);
    assert!(cache.get("a", "i").is_none());
    assert!(cache.get("a", "").is_some());
    assert!(cache.get("b", "").is_some());
    assert_eq!(cache.stats(), (2, 8));
    let kept = cache.get("b", "").unwrap();
    assert_eq!((kept.source, kept.flags), ("b", ""));
}

#[test]
fn an_oversized_replacement_drops_the_old_entry() {
    let mut cache = ByteLru::new(10, 3);
    cache.insert("a", 1, 4);
    cache.insert("a", 2, 11);
    assert_eq!(cache.get_cloned(&"a"), None);
    assert_eq!(cache.stats(), (0, 0));
}

#[test]
fn entries_are_bounded_by_count() {
    let mut cache = ByteLru::new(1000, 2);
    cache.insert(1, "one", 1);
    cache.insert(2, "two", 1);
    cache.insert(3, "three", 1);
    assert_eq!(cache.get_cloned(&1), None);
    assert_eq!(cache.get_cloned(&2), Some("two"));
    assert_eq!(cache.get_cloned(&3), Some("three"));
    let mut none: ByteLru<i32, i32> = ByteLru::new(1000, 0);
    none.insert(1, 1, 1);
    assert_eq!(none.get_cloned(&1), None);
    assert_eq!(none.stats(), (0, 0));
}

#[test]
fn recency_survives_many_hits() {
    let mut cache = ByteLru::new(1000, 3);
    cache.insert(1, 10, 1);
    cache.insert(2, 20, 1);
    cache.insert(3, 30, 1);
    for _ in 0..500 {
        assert_eq!(cache.get_cloned(&1), Some(10));
        assert_eq!(cache.get_cloned(&3), Some(30));
    }
    cache.insert(4, 40, 1);
    assert_eq!(cache.get_cloned(&2), None);
    assert_eq!(cache.stats(), (3, 3));
}

/// A table of ranks with the given rows for each of the four orders.
fn blob(orders: [&[(u32, u32)]; 4]) -> Vec<u8> {
    let mut out: Vec<u8> = b"LCLD48\0\x01".to_vec();
    for rows in orders {
        out.extend_from_slice(&(rows.len() as u32).to_le_bytes());
    }
    for rows in orders {
        for (code_point, rank) in rows {
            out.extend_from_slice(&code_point.to_le_bytes());
            out.extend_from_slice(&rank.to_le_bytes());
        }
    }
    out
}

fn han() -> Vec<u8> {
    // U+4EAC and U+6771, in ascending order of code point.
    blob([
        &[(0x4eac, 10), (0x6771, 11)],
        &[(0x4eac, 20), (0x6771, 21)],
        &[(0x4eac, 30), (0x6771, 31)],
        &[(0x4eac, 40), (0x6771, 41)],
    ])
}

#[test]
fn generated_han_orders_are_distinct_and_searchable() {
    let data = han();
    assert!(check_data(&data));
    let east = '東' as u32;
    let capital = '京' as u32;
    assert!(primary_rank(&data, HanOrder::Japanese, east).is_some());
    assert_ne!(
        primary_rank(&data, HanOrder::Pinyin, east),
        primary_rank(&data, HanOrder::Stroke, east)
    );
    assert_ne!(
        primary_rank(&data, HanOrder::Pinyin, capital),
        primary_rank(&data, HanOrder::Zhuyin, capital)
    );
}

#[test]
fn ranks_are_read_from_the_right_order() {
    let data = han();
    assert_eq!(primary_rank(&data, HanOrder::Japanese, 0x4eac), Some(10));
    assert_eq!(primary_rank(&data, HanOrder::Stroke, 0x6771), Some(31));
    assert_eq!(primary_rank(&data, HanOrder::Zhuyin, 0x6771), Some(41));
    assert_eq!(primary_rank(&data, HanOrder::Zhuyin, 0x41), None);
}

#[test]
fn damaged_rank_tables_are_refused() {
    let good = han();
    assert!(!check_data(&good[..good.len() - 1]));
    assert!(!check_data(&good[..10]));
    let mut wrong_mark = good.clone();
    wrong_mark[0] = b'X';
    assert!(!check_data(&wrong_mark));
    let unsorted = blob([&[(2, 1), (1, 2)], &[], &[], &[]]);
    assert!(!check_data(&unsorted));
}

#[test]
fn supplemental_data_keeps_locale_and_region_distinctions() {
    assert_eq!(calendar_preferences("TH").unwrap(), ["buddhist", "gregory"]);
    assert_eq!(hour_cycles("fr_CA").unwrap(), ["h23", "h12"]);
    assert_eq!(hour_cycles("CA").unwrap(), ["h12", "h23"]);
    assert_eq!(week_info("AF"), (6, vec![4, 5]));
    assert_eq!(week_info("IN"), (7, vec![7]));
    assert_eq!(week_info("001"), (1, vec![6, 7]));
}

#[test]
fn unknown_regions_have_no_preferences() {
    assert_eq!(calendar_preferences("nowhere"), None);
    assert_eq!(hour_cycles("nowhere"), None);
    assert_eq!(week_info("nowhere"), week_info("001"));
}

#[test]
fn a_cache_lists_what_it_keeps_alive() {
    let mut cache = ByteLru::new(10, 3);
    cache.insert(1u64, "one", 4);
    cache.insert(2u64, "two", 4);
    cache.insert(3u64, "three", 4);
    let (live, bytes, exact) = cache.scan_retained_memory();
    let mut seen: Vec<(u64, &str)> = live.iter().map(|e| (*e.0, *e.1)).collect();
    seen.sort();
    assert_eq!(seen, [(2, "two"), (3, "three")]);
    assert!(bytes >= 2 * std::mem::size_of::<(u64, &str)>() + 2 * std::mem::size_of::<u64>());
    assert!(!exact);
    let mut programs = RegexpProgramCache::new(10, 3);
    programs.insert("a", "i", 7, 4);
    let (live, _, _) = programs.scan_retained_memory();
    assert_eq!(live.len(), 1);
    assert_eq!((live[0].0.source.as_str(), live[0].0.flags.as_str(), *live[0].1), ("a", "i", 7));
}

#[test]
fn generations_only_grow() {
    let mut cache = ByteLru::new(10, 3);
    cache.insert(1u64, "one", 4);
    let first = cache.next_generation();
    let second = cache.next_generation();
    assert!(first < second);
    assert_eq!(cache.get_cloned(&1u64), Some("one"));
    assert_eq!(cache.stats(), (1, 4));
    let wide: ByteLru<u64, u8> = ByteLru::new(10, usize::MAX);
    assert_eq!(wide.stats(), (0, 0));
}

#[test]
fn unlisted_regions_are_answered_as_the_world_is() {
    assert_eq!(week_info("ZZ"), week_info("001"));
    assert_eq!(week_info(""), (1, vec![6, 7]));
}

#[test]
fn texts_with_one_hash_stay_apart() {
    let mut cache = ByteLru::new(100, 3);
    cache.insert("Aa", 1, 1);
    cache.insert("BB", 2, 1);
    assert_eq!(cache.get_cloned(&"Aa"), Some(1));
    assert_eq!(cache.get_cloned(&"BB"), Some(2));
    assert_eq!(cache.get_cloned(&"C#"), None);
    cache.insert("Aa", 3, 101);
    assert_eq!(cache.get_cloned(&"Aa"), None);
    assert_eq!(cache.get_cloned(&"BB"), Some(2));
    cache.insert("x", 4, 1);
    cache.insert("y", 5, 1);
    cache.insert("z", 6, 1);
    assert_eq!(cache.get_cloned(&"BB"), None);
    assert_eq!(cache.get_cloned(&"x"), Some(4));
    assert_eq!(cache.stats(), (3, 3));
}

#[test]
fn positions_share_a_number() {
    let mut places = Places::new();
    places.enlist(7, 0);
    places.enlist(7, 3);
    places.enlist(9, 1);
    assert_eq!(places.under(7), Some(&vec![0, 3]));
    places.delist(7, 0);
    places.delist(9, 1);
    assert_eq!(places.under(7), Some(&vec![3]));
    assert_eq!(places.under(9), None);
}
