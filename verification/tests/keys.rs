use rpcrouter::keys::{endpoint_key, key_chain, key_prefix, short_hash};
use rpcrouter::order::{sorted_numbers, stable_order, text_before};
use rpcrouter::sorted::SortedMap;
use rpcrouter::table::{IdTable, KeyTable};
use rpcrouter::text::{ascii_lower, contains, decimal, parse_u32, parse_u64, parse_usize, trim};
use rpcrouter::url::{
    UrlFault, is_absolute, is_private_host, may_show_link, normalize_public_https_url,
    valid_endpoint_url,
};

#[test]
fn keys_hold_the_front_of_a_digest() {
    // The digest of the empty text begins with af1349b9f5f9a1a6.
    assert_eq!(short_hash(""), "af1349b9f5f9a1a6");
    assert_eq!(endpoint_key(7, ""), "7:af1349b9f5f9a1a6");
    assert_eq!(short_hash("https://rpc.example").len(), 16);
    assert_ne!(endpoint_key(1, "https://a"), endpoint_key(1, "https://b"));
}

#[test]
fn keys_name_their_chain() {
    for id in [0, 1, 56, u64::MAX] {
        assert_eq!(key_chain(&endpoint_key(id, "https://rpc.example")), id);
        assert_eq!(key_prefix(id), format!("{id}:"));
    }
    assert_eq!(key_chain("nonsense"), 0);
    assert!(!endpoint_key(12, "x").starts_with(&key_prefix(1)));
}

#[test]
fn tables_keep_their_entries_apart() {
    let mut table: IdTable<&str> = IdTable::new();
    for (id, value) in [(3, "three"), (1, "one"), (2, "two")] {
        table.insert(id, value);
    }
    table.insert(1, "uno");
    assert_eq!((table.len(), table.get(1).copied()), (3, Some("uno")));
    assert_eq!(table.remove(3), Some("three"));
    assert_eq!(table.remove(3), None);
    assert!(!table.contains(3));
    assert_eq!(table.get(2).copied(), Some("two"));
    *table.get_mut(2) = "dos";
    assert_eq!(table.get(2).copied(), Some("dos"));

    let mut names: KeyTable<u64> = KeyTable::new();
    names.insert("a".to_owned(), 1);
    names.insert("b".to_owned(), 2);
    assert_eq!(names.remove("a"), Some(1));
    assert_eq!((names.get("a"), names.get("b")), (None, Some(&2)));
    assert_eq!((names.key_at(0).as_str(), *names.value_at(0)), ("b", 2));
}

#[test]
fn sorted_maps_stay_sorted() {
    let mut map: SortedMap<u64, u64> = SortedMap::new();
    for key in [5, 1, 3, 1] {
        map.insert(key, key * 10);
    }
    let keys: Vec<u64> = (0..map.len()).map(|i| *map.key_at(i)).collect();
    assert_eq!(keys, [1, 3, 5]);
    map.remove(&3);
    assert_eq!((map.len(), map.get(&3), map.get(&5)), (2, None, Some(&50)));
}

#[test]
fn orders_are_stable() {
    assert_eq!(stable_order(&vec![5u64, 1, 5, 0]), [3, 1, 0, 2]);
    assert_eq!(sorted_numbers(&[3, 1, 2]), [1, 2, 3]);
    assert!(text_before("abc", "abd"));
    assert!(text_before("ab", "abc"));
    assert!(!text_before("abc", "abc"));
}

#[test]
fn texts_are_read_as_numbers() {
    assert_eq!(parse_u64("18446744073709551615"), Some(u64::MAX));
    assert_eq!(parse_u64("18446744073709551616"), None);
    assert_eq!(parse_u64("+7"), Some(7));
    assert_eq!(parse_u64("-7"), None);
    assert_eq!(parse_u64(""), None);
    assert_eq!(parse_u32("4294967296"), None);
    assert_eq!(parse_usize("12"), Some(12));
    assert_eq!(decimal(0), "0");
    assert_eq!(decimal(u64::MAX), u64::MAX.to_string());
}

#[test]
fn texts_are_trimmed_and_searched() {
    assert_eq!(trim(" \t a b \n"), "a b");
    assert_eq!(ascii_lower("ABC-Ä"), "abc-Ä");
    assert!(contains("template ${KEY}", "${"));
    assert!(!contains("template $ {KEY}", "${"));
}

#[test]
fn public_urls_are_brought_into_normal_form() {
    let normal = |raw: &str| normalize_public_https_url(raw);
    assert_eq!(normal("https://RPC.Example").as_deref(), Some("https://rpc.example/"));
    assert_eq!(normal("https://a/#x").as_deref(), Some("https://a/"));
    assert_eq!(normal("https://a:443/b").as_deref(), Some("https://a/b"));
    for refused in ["http://a/", "wss://a/", "https://u@a/", "https://u:p@a/", "https://a/${K}", "x"] {
        assert_eq!(normal(refused), None, "{refused}");
    }
    for raw in ["https://B\u{fc}cher.example/a b?q=x y#z", "https://0x7f.1:8443/./a/../b\\c", "https://a?"] {
        let once = normal(raw).unwrap();
        assert_eq!(normal(&once), Some(once.clone()), "{raw}");
    }
    let parted = normal("https://a/?k=$\t{K}").unwrap();
    assert_eq!(parted, "https://a/?k=${K}");
    assert_eq!(normal(&parted), None);
    assert!(is_absolute("http://a"));
    assert!(!is_absolute("/a"));
}

#[test]
fn offered_urls_are_judged() {
    assert_eq!(valid_endpoint_url("https://a/${K}", false), Err(UrlFault::Template));
    assert_eq!(valid_endpoint_url("nonsense", false), Err(UrlFault::Invalid));
    assert_eq!(valid_endpoint_url("http://a/", false), Err(UrlFault::NotPublicHttps));
    assert_eq!(valid_endpoint_url("https://localhost/", false), Err(UrlFault::Private));
    assert_eq!(valid_endpoint_url("https://[::1]/", false), Err(UrlFault::Private));
    assert_eq!(valid_endpoint_url("https://[fd00::1]/", false), Err(UrlFault::Private));
    assert_eq!(
        valid_endpoint_url("https://localhost/", true).as_deref(),
        Ok("https://localhost/")
    );
    assert_eq!(valid_endpoint_url("https://a", false).as_deref(), Ok("https://a/"));
}

#[test]
fn private_hosts_are_known() {
    for host in [
        "localhost", "LOCALHOST", "127.0.0.1", "10.1.2.3", "172.16.0.1", "172.31.255.255",
        "192.168.0.1", "169.254.1.1", "[::1]", "[fc00::1]", "[fe80::1]",
    ] {
        assert!(is_private_host(host), "{host}");
    }
    for host in ["172.32.0.1", "8.8.8.8", "rpc.example", "[2001:db8::1]", ""] {
        assert!(!is_private_host(host), "{host}");
    }
}

#[test]
fn only_web_links_are_shown() {
    assert!(may_show_link("https://explorer.example"));
    assert!(may_show_link("http://explorer.example"));
    assert!(!may_show_link("javascript:alert(1)"));
    assert!(!may_show_link("explorer"));
}
