use crooked_earth::proxy_manager::{
    begin_proxy_turn, check_response_accepted, clean_check_response, finish_proxy_turn,
    get_all_broken_proxies, get_all_working_proxies, get_random_proxies, pick_proxies, proxy_stat_increment, proxy_weight, race_delay,
    setup_proxy_and_temp, should_refresh, truncate, NoProxyFound, ProxyCatalog, ProxyStatError,
    ScrapeCounts, Socks5ProxyEntry,
};
use crooked_earth::proxy_scrape::{
    collapse_spaces, match_proxy_at, normalize_bytes, parse_socks5_proxy_list,
};
use crooked_earth::stat_counter::{stat_counter_get_all, StatCounterStore};

fn parse(page: &str) -> Vec<String> {
    parse_socks5_proxy_list(&page.as_bytes().to_vec())
}

fn accepted(addr: &str, success: u64, err: u64) -> Socks5ProxyEntry {
    let mut e = Socks5ProxyEntry::scraped(addr, "scraper", 0);
    e.checked = true;
    e.accepted = true;
    e.last_success_count = success;
    e.last_err_count = err;
    e
}

#[test]
fn page_is_reduced_to_digits_dots_and_spaces() {
    assert_eq!(normalize_bytes(&b"a1.2:x\n9".to_vec()), b" 1.2   9".to_vec());
    assert_eq!(collapse_spaces(&b"  1   2 3    ".to_vec()), b" 1 2 3 ".to_vec());
    assert_eq!(collapse_spaces(&Vec::new()), Vec::<u8>::new());
}

#[test]
fn addresses_are_found_in_any_markup() {
    assert_eq!(parse("1.2.3.4:8080"), vec!["1.2.3.4:8080"]);
    assert_eq!(
        parse("<tr><td>10.20.30.40</td><td>1080</td></tr>\n<tr><td>5.6.7.8</td>\t<td>80</td></tr>"),
        vec!["10.20.30.40:1080", "5.6.7.8:80"]
    );
    assert_eq!(parse("socks5://192.168.1.1   3128 and 8.8.8.8:99"), vec![
        "192.168.1.1:3128",
        "8.8.8.8:99"
    ]);
    assert_eq!(parse(""), Vec::<String>::new());
    assert_eq!(parse("no proxies here"), Vec::<String>::new());
}

#[test]
fn octets_and_port_must_be_in_range() {
    assert_eq!(parse("0.2.3.4 8080"), Vec::<String>::new());
    assert_eq!(parse("1.2.3.256 8080"), Vec::<String>::new());
    assert_eq!(parse("255.255.255.255 80"), vec!["255.255.255.255:80"]);
    assert_eq!(parse("1.2.3.4 79"), Vec::<String>::new());
    assert_eq!(parse("1.2.3.4 65536"), vec!["1.2.3.4:65536"]);
    assert_eq!(parse("1.2.3.4 65537"), Vec::<String>::new());
    assert_eq!(parse("1.2.3.4 8"), Vec::<String>::new());
}

#[test]
fn digits_are_handed_on_as_found() {
    assert_eq!(parse("01.002.3.4 0080"), vec!["01.002.3.4:0080"]);
}

#[test]
fn long_runs_of_digits_are_read_from_where_an_address_fits() {
    assert_eq!(parse("1234.5.6.7 8080"), vec!["234.5.6.7:8080"]);
    assert_eq!(parse("1.2.3.4 123456"), vec!["1.2.3.4:12345"]);
    assert_eq!(parse("1.2.3.4567 80"), Vec::<String>::new());
    assert_eq!(parse("1.2.3.4.5.6.7.8 80"), vec!["5.6.7.8:80"]);
}

#[test]
fn dots_are_dots() {
    assert_eq!(parse("1 2 3 4 8080"), Vec::<String>::new());
    assert_eq!(parse("1.2.3 4 8080"), Vec::<String>::new());
    assert_eq!(parse("1.2.3.4.8080"), Vec::<String>::new());
}

#[test]
fn matching_continues_behind_a_match() {
    assert_eq!(parse("1.2.3.4 80.5.6.7 8080"), vec!["1.2.3.4:80"]);
    assert_eq!(parse("1.2.3.4 80 5.6.7.8 8080"), vec!["1.2.3.4:80", "5.6.7.8:8080"]);
}

#[test]
fn match_reports_where_the_parts_stand() {
    let text = b"x 10.2.3.44 1080".to_vec();
    assert_eq!(match_proxy_at(&text, 0), None);
    let m = match_proxy_at(&text, 2).unwrap();
    assert_eq!((m.a, m.a_len, m.b, m.b_len), (2, 2, 5, 1));
    assert_eq!((m.c, m.c_len, m.d, m.d_len), (7, 1, 9, 2));
    assert_eq!((m.port, m.port_len), (12, 4));
}

#[test]
fn recheck_is_due_by_the_stretched_refresh_time() {
    let mut e = Socks5ProxyEntry::scraped("1.2.3.4:80", "s", 0);
    assert!(e.needs_recheck(0));
    e.checked = true;
    e.last_check = Some(1_000);
    assert!(!e.needs_recheck(1_201_000));
    assert!(e.needs_recheck(1_201_001));
    e.failed_checks = 2;
    assert!(!e.needs_recheck(1_000 + 1_920_000));
    assert!(e.needs_recheck(1_000 + 1_920_001));
    e.last_check = None;
    e.failed_checks = 0;
    assert!(!e.needs_recheck(1_200_000));
    assert!(e.needs_recheck(1_200_001));
    e.last_check = Some(u64::MAX);
    assert!(!e.needs_recheck(u64::MAX));
}

#[test]
fn delete_is_due_for_checked_failures_that_were_not_scraped_lately() {
    let mut e = Socks5ProxyEntry::scraped("1.2.3.4:80", "s", 1_000);
    assert!(!e.needs_delete(u64::MAX));
    e.checked = true;
    assert!(!e.needs_delete(1_000 + 7_200_000));
    assert!(e.needs_delete(1_000 + 7_200_001));
    assert!(!e.needs_delete(0));
    e.accepted = true;
    assert!(!e.needs_delete(u64::MAX));
}

#[test]
fn scraper_is_refreshed_when_its_time_is_over() {
    assert!(should_refresh(None, 0));
    assert!(!should_refresh(Some(5), 1_200_005));
    assert!(should_refresh(Some(5), 1_200_006));
    assert!(!should_refresh(Some(u64::MAX), u64::MAX));
}

#[test]
fn check_outcome_is_recorded() {
    let mut e = Socks5ProxyEntry::scraped("1.2.3.4:80", "s", 0);
    e.record_check(false, "timeout", "".to_string(), 100, 350);
    assert!(e.checked && !e.accepted);
    assert_eq!(e.failed_checks, 1);
    assert_eq!(e.last_check, Some(350));
    assert_eq!(e.last_lag, Some(250));
    assert_eq!(e.last_check_error, "check err: timeout");
    e.failed_checks = 255;
    e.record_check(false, "timeout", "".to_string(), 400, 300);
    assert_eq!(e.failed_checks, 255);
    assert_eq!(e.last_lag, Some(0));
    e.record_check(true, "ignored", "9.9.9.9".to_string(), 500, 600);
    assert!(e.checked && e.accepted);
    assert_eq!(e.failed_checks, 0);
    assert_eq!(e.last_check_error, "");
    assert_eq!(e.last_remote_ip, "9.9.9.9");
}

#[test]
fn attempts_count_and_too_many_errors_break_a_proxy() {
    let mut e = accepted("1.2.3.4:80", 0, 49);
    e.record_attempt(false, 10);
    assert_eq!(e.last_err_count, 50);
    assert!(e.accepted);
    e.record_attempt(false, 11);
    assert_eq!(e.last_err_count, 51);
    assert!(!e.accepted);
    assert_eq!(e.last_check, None);
    e.record_attempt(true, 12);
    assert!(e.accepted);
    assert_eq!(e.last_success_count, 1);
    assert_eq!(e.last_check, Some(12));
    e.record_attempt(false, 13);
    assert!(e.accepted);
    let mut full = accepted("1.2.3.4:80", u64::MAX, u64::MAX);
    full.record_attempt(true, 1);
    full.record_attempt(false, 2);
    assert_eq!((full.last_success_count, full.last_err_count), (u64::MAX, u64::MAX));
}

#[test]
fn turn_takes_counts_and_asks_for_a_check() {
    let mut e = accepted("1.2.3.4:80", 0, 0);
    e.last_check = Some(0);
    let turn = begin_proxy_turn(&mut e, Some((3, 4)), 100);
    assert!(turn.save && !turn.check);
    assert_eq!((e.last_success_count, e.last_err_count), (3, 4));
    let turn = begin_proxy_turn(&mut e, Some((0, 0)), 100);
    assert!(!turn.save);
    assert_eq!((e.last_success_count, e.last_err_count), (0, 0));
    let turn = begin_proxy_turn(&mut e, None, 1_200_001);
    assert!(!turn.save && turn.check);
    assert!(!finish_proxy_turn(&mut e, false, "down", "".to_string(), 1_200_001, 1_200_500));
    assert!(finish_proxy_turn(&mut e, false, "down", "".to_string(), 8_000_000, 8_000_001));
    assert!(!finish_proxy_turn(&mut e, true, "", "1.1.1.1".to_string(), 8_000_000, 8_000_001));
}

#[test]
fn weight_is_the_ratio_in_fixed_point() {
    assert_eq!(proxy_weight(0, 0), 1 << 30);
    assert_eq!(proxy_weight(1, 0), 1_610_612_736);
    assert_eq!(proxy_weight(0, 1), 1 << 29);
    assert_eq!(proxy_weight(0, 2), 357_913_941);
    assert_eq!(proxy_weight(u64::MAX, 0), 2_147_483_647);
    assert_eq!(proxy_weight(0, u64::MAX), 0);
    assert_eq!(accepted("a", 3, 1).weight(), proxy_weight(3, 1));
}

#[test]
fn catalog_upserts_by_address() {
    let mut cat = ProxyCatalog::new();
    assert!(cat.upsert_scraped("1.1.1.1:80", "a", 10));
    assert!(cat.upsert_scraped("2.2.2.2:80", "a", 10));
    assert!(!cat.upsert_scraped("1.1.1.1:80", "b", 20));
    assert_eq!(cat.len(), 2);
    assert_eq!(cat.find("1.1.1.1:80"), Some(0));
    assert_eq!(cat.find("3.3.3.3:80"), None);
    let e = cat.entry(0);
    assert_eq!(e.category, "b");
    assert_eq!(e.last_scraped, 20);
    assert_eq!(e.created_at, 10);
    assert!(!e.checked && !e.accepted);
    assert!(cat.remove("1.1.1.1:80"));
    assert!(!cat.remove("1.1.1.1:80"));
    assert_eq!(cat.len(), 1);
    assert_eq!(cat.entry(0).addr, "2.2.2.2:80");
}

#[test]
fn scrape_counts_new_and_known_addresses() {
    let mut cat = ProxyCatalog::new();
    cat.upsert_scraped("1.1.1.1:80", "old", 1);
    let found = vec!["1.1.1.1:80".to_string(), "2.2.2.2:80".to_string(), "2.2.2.2:80".to_string()];
    assert_eq!(
        cat.refresh_single_socks5_proxy_list("new", &found, 50),
        Ok(ScrapeCounts { new_addr_count: 1, existing_addr_count: 2 })
    );
    assert_eq!(cat.len(), 2);
    assert_eq!(cat.entry(0).category, "new");
    assert_eq!(cat.refresh_single_socks5_proxy_list("new", &Vec::new(), 60), Err(NoProxyFound));
    assert_eq!(cat.len(), 2);
}

#[test]
fn working_and_broken_proxies_split_the_catalog() {
    let mut cat = ProxyCatalog::new();
    cat.insert(accepted("1.1.1.1:80", 0, 0));
    cat.insert(Socks5ProxyEntry::scraped("2.2.2.2:80", "s", 0));
    cat.insert(accepted("3.3.3.3:80", 0, 0));
    let working: Vec<String> = get_all_working_proxies(&cat).iter().map(|e| e.addr.clone()).collect();
    let broken: Vec<String> = get_all_broken_proxies(&cat).iter().map(|e| e.addr.clone()).collect();
    assert_eq!(working, vec!["1.1.1.1:80", "3.3.3.3:80"]);
    assert_eq!(broken, vec!["2.2.2.2:80"]);
}

#[test]
fn random_proxies_are_accepted_and_distinct() {
    let mut cat = ProxyCatalog::new();
    for i in 0..20u64 {
        let mut e = accepted(&format!("10.0.0.{}:1080", i + 1), i, 20 - i);
        e.accepted = i % 2 == 0;
        cat.insert(e);
    }
    assert!(get_random_proxies(&cat, "http://x.example/", 0).is_empty());
    for _ in 0..50 {
        let chosen = get_random_proxies(&cat, "http://x.example/", 4);
        assert_eq!(chosen.len(), 4);
        let mut addrs: Vec<String> = chosen.iter().map(|e| e.addr.clone()).collect();
        assert!(chosen.iter().all(|e| e.accepted));
        addrs.sort();
        addrs.dedup();
        assert_eq!(addrs.len(), 4);
    }
    assert_eq!(get_random_proxies(&cat, "http://x.example/", 200).len(), 10);
}

#[test]
fn heavier_proxies_are_drawn_more_often() {
    let mut cat = ProxyCatalog::new();
    cat.insert(accepted("1.1.1.1:80", 1_000, 0));
    cat.insert(accepted("2.2.2.2:80", 0, 1_000));
    let mut good = 0;
    for _ in 0..400 {
        let chosen = get_random_proxies(&cat, "http://x.example/", 1);
        assert_eq!(chosen.len(), 1);
        if chosen[0].addr == "1.1.1.1:80" {
            good += 1;
        }
    }
    assert!(good > 380);
}

#[test]
fn picks_are_taken_in_order() {
    let working = vec![accepted("a", 0, 0), accepted("b", 0, 0), accepted("c", 0, 0)];
    let chosen = pick_proxies(&working, &vec![2, 0]);
    let addrs: Vec<&str> = chosen.iter().map(|e| e.addr.as_str()).collect();
    assert_eq!(addrs, vec!["c", "a"]);
}

#[test]
fn race_starts_staggered_and_ends_with_tor() {
    assert_eq!(race_delay(0), 50);
    assert_eq!(race_delay(1), 5_600);
    assert_eq!(race_delay(3), 16_700);
    let mut cat = ProxyCatalog::new();
    cat.insert(accepted("1.1.1.1:80", 5, 0));
    cat.insert(accepted("2.2.2.2:80", 5, 0));
    cat.insert(accepted("3.3.3.3:80", 5, 0));
    let tor = vec!["127.0.0.1:9050".to_string()];
    let attempts = setup_proxy_and_temp(&cat, &tor, 2, "http://x.example/").unwrap();
    assert_eq!(attempts.len(), 3);
    for (i, a) in attempts.iter().enumerate() {
        assert_eq!(a.index, i);
        assert_eq!(a.initial_delay_ms, 50 + 5_550 * i as u64);
    }
    assert_eq!(attempts[2].socks_addr, "127.0.0.1:9050");
    assert_eq!(attempts[2].socks_cat, "tor");
    assert_ne!(attempts[0].socks_addr, attempts[1].socks_addr);
    assert!(attempts[..2].iter().all(|a| a.socks_cat == "scraper"));
    assert!(setup_proxy_and_temp(&cat, &Vec::new(), 2, "http://x.example/").is_none());
    let alone = setup_proxy_and_temp(&ProxyCatalog::new(), &tor, 2, "http://x.example/").unwrap();
    assert_eq!(alone.len(), 1);
    assert_eq!(alone[0].socks_cat, "tor");
}

#[test]
fn check_response_is_cut_and_trimmed() {
    assert_eq!(truncate("hello", 3), "hel");
    assert_eq!(truncate("hello", 9), "hello");
    assert_eq!(truncate("héllo", 2), "hé");
    assert_eq!(clean_check_response("  93.184.216.34\n"), "93.184.216.34");
    let long = format!("{}{}", " ".repeat(40), "1.2.3.4");
    assert_eq!(clean_check_response(&long), "1");
    assert!(check_response_accepted("93.184.216.34", true, false));
    assert!(check_response_accepted("::1", false, true));
    assert!(check_response_accepted("阻断未备案", false, false));
    assert!(!check_response_accepted("<html>", false, false));
}

#[test]
fn attempt_is_counted_by_address_and_by_category_at_the_domain() {
    let mut store = StatCounterStore::new();
    let mut cat = ProxyCatalog::new();
    cat.insert(accepted("1.1.1.1:80", 0, 0));
    let url = "https://tile.example.com/5/3/7.png";
    assert_eq!(
        proxy_stat_increment(&mut store, &mut cat, "download", url, "1.1.1.1:80", "scraper", true, 99),
        Ok(())
    );
    assert_eq!(
        proxy_stat_increment(&mut store, &mut cat, "parse", url, "1.1.1.1:80", "scraper", false, 100),
        Ok(())
    );
    let rows: Vec<(String, String, String, String, u64)> = stat_counter_get_all(&store, 100)
        .into_iter()
        .map(|(k, e, c)| (k.stat_type, k.item_a, k.item_b, e, c))
        .collect();
    let row = |t: &str, a: &str, e: &str| {
        (t.to_string(), a.to_string(), "tile.example.com".to_string(), e.to_string(), 1u64)
    };
    assert_eq!(rows, vec![
        row("proxy_download_socksaddr_targetdomain", "1.1.1.1:80", "success"),
        row("proxy_download_sockscateg_targetdomain", "scraper", "success"),
        row("proxy_parse_socksaddr_targetdomain", "1.1.1.1:80", "fail"),
        row("proxy_parse_sockscateg_targetdomain", "scraper", "fail"),
    ]);
    let e = cat.entry(0);
    assert_eq!((e.last_success_count, e.last_err_count), (1, 1));
    assert_eq!(e.last_check, Some(99));
}

#[test]
fn attempt_without_a_domain_is_not_counted() {
    let mut store = StatCounterStore::new();
    let mut cat = ProxyCatalog::new();
    assert_eq!(
        proxy_stat_increment(&mut store, &mut cat, "download", "not a url", "a", "b", true, 1),
        Err(ProxyStatError::BadUrl)
    );
    assert_eq!(
        proxy_stat_increment(&mut store, &mut cat, "download", "http://127.0.0.1/x", "a", "b", true, 1),
        Err(ProxyStatError::NoDomain)
    );
    assert_eq!(store.len(), 0);
    assert_eq!(
        proxy_stat_increment(&mut store, &mut cat, "download", "http://a.example/x", "a", "b", true, 1),
        Ok(())
    );
    assert_eq!(store.len(), 2);
    assert_eq!(cat.len(), 0);
}
