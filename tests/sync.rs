use std::collections::HashMap;

use eciq_ap_to_redis::credential::{must_login, needs_login, token_exists};
use eciq_ap_to_redis::decimal::{decimal, parse_u64};
use eciq_ap_to_redis::inventory::{access_points, is_access_point, Device, PageRequest, Pager};
use eciq_ap_to_redis::policy::SyncPolicy;
use eciq_ap_to_redis::radio::{
    chunk_ids, contains_ssid, dedup_wlans, device_ids_param, Radio, RadioDeviceInfo,
    SsidCollector, Wlan,
};
use eciq_ap_to_redis::retry::{retry_after_secs, ApiError, RetryState, RetryStep};
use eciq_ap_to_redis::store::{
    device_commands, names_of, record_key, ssid_key, store_plan, StoreCommand,
};

fn device(id: u64, function: &str) -> Device {
    Device {
        id,
        hostname: Some(format!("host-{id}")),
        device_function: function.to_string(),
        serial_number: None,
        product_type: Some("AP410C".to_string()),
        connected: true,
        location_id: Some(7),
    }
}

fn wlan(ssid: &str, security: &str) -> Wlan {
    Wlan {
        ssid: ssid.to_string(),
        ssid_status: Some("ENABLED".to_string()),
        ssid_security_type: Some(security.to_string()),
        bssid: None,
        network_policy_name: None,
    }
}

fn page_of(start: u64, n: u64) -> Vec<Device> {
    (start..start + n)
        .map(|i| device(i, if i % 3 == 0 { "SWITCH" } else { "AP" }))
        .collect()
}

#[derive(Debug, Clone, PartialEq)]
enum Value {
    Text(String),
    List(Vec<String>),
}

/// A small in-memory key-value store that follows the commands' meaning.
#[derive(Debug, Clone, PartialEq, Default)]
struct MemStore {
    entries: HashMap<String, (Value, Option<u64>)>,
}

impl MemStore {
    fn run(&mut self, cmds: &[StoreCommand]) {
        for c in cmds {
            match c {
                StoreCommand::Put { key, value } => {
                    self.entries.insert(key.clone(), (Value::Text(value.clone()), None));
                }
                StoreCommand::Delete { key } => {
                    self.entries.remove(key);
                }
                StoreCommand::PushAll { key, values } => match self.entries.get_mut(key) {
                    Some((Value::List(l), _)) => l.extend(values.iter().cloned()),
                    Some(_) => {}
                    None => {
                        self.entries.insert(key.clone(), (Value::List(values.clone()), None));
                    }
                },
                StoreCommand::Expire { key, secs } => {
                    if let Some(e) = self.entries.get_mut(key) {
                        e.1 = Some(*secs);
                    }
                }
            }
        }
    }
}

#[test]
fn pagination_stops_after_short_page() {
    let sizes = [100u64, 100, 37];
    let mut pager = Pager::new(100);
    let mut requests = Vec::new();
    let mut raw = 0u64;
    let mut start = 1u64;
    let mut expected_aps = Vec::new();
    while let Some(req) = pager.next_request() {
        requests.push(req);
        let n = sizes[requests.len() - 1];
        let page = page_of(start, n);
        raw += page.len() as u64;
        expected_aps.extend(page.iter().filter(|d| d.device_function == "AP").map(|d| d.id));
        start += n;
        pager.accept_page(page);
    }
    assert_eq!(requests.len(), 3);
    assert_eq!(raw, 237);
    assert_eq!(requests[0], PageRequest { page: 1, limit: 100 });
    assert_eq!(requests[2], PageRequest { page: 3, limit: 100 });
    assert!(pager.is_done());
    let ids: Vec<u64> = pager.into_access_points().iter().map(|d| d.id).collect();
    assert_eq!(ids, expected_aps);
}

#[test]
fn pagination_uses_raw_size_not_filtered_size() {
    let mut pager = Pager::new(3);
    pager.accept_page(vec![device(1, "SWITCH"), device(2, "SWITCH"), device(3, "AP")]);
    assert!(!pager.is_done());
    assert_eq!(pager.next_request(), Some(PageRequest { page: 2, limit: 3 }));
    pager.accept_page(vec![]);
    assert!(pager.is_done());
    assert_eq!(pager.next_request(), None);
    assert_eq!(pager.access_points_found().len(), 1);
}

#[test]
fn ap_filter_keeps_order() {
    let page = vec![
        device(5, "AP"),
        device(6, "SWITCH"),
        device(7, "AP"),
        device(8, "ap"),
        device(9, "CONTROLLER"),
        device(10, "AP"),
    ];
    assert!(is_access_point(&page[0]));
    assert!(!is_access_point(&page[3]));
    let ids: Vec<u64> = access_points(page).iter().map(|d| d.id).collect();
    assert_eq!(ids, vec![5, 7, 10]);
}

#[test]
fn ssid_dedup_first_wins() {
    let radios = vec![Radio { wlans: vec![wlan("Guest", "WPA2"), wlan("Guest", "Open")] }];
    let out = dedup_wlans(radios);
    assert_eq!(out.len(), 1);
    assert_eq!(out[0].ssid, "Guest");
    assert_eq!(out[0].ssid_security_type.as_deref(), Some("WPA2"));
}

#[test]
fn ssid_dedup_across_radios_keeps_first_seen_order() {
    let radios = vec![
        Radio { wlans: vec![wlan("Corp", "WPA3"), wlan("Guest", "WPA2")] },
        Radio { wlans: vec![] },
        Radio { wlans: vec![wlan("Guest", "Open"), wlan("IoT", "WPA2"), wlan("Corp", "Open")] },
    ];
    let out = dedup_wlans(radios);
    let names: Vec<&str> = out.iter().map(|w| w.ssid.as_str()).collect();
    assert_eq!(names, vec!["Corp", "Guest", "IoT"]);
    assert_eq!(out[0].ssid_security_type.as_deref(), Some("WPA3"));
    assert!(contains_ssid(&out, &"IoT".to_string()));
    assert!(!contains_ssid(&out, &"Lab".to_string()));
}

#[test]
fn chunking_twenty_three_ids() {
    let ids: Vec<u64> = (1..=23).collect();
    let chunks = chunk_ids(&ids, 10);
    let sizes: Vec<usize> = chunks.iter().map(|c| c.len()).collect();
    assert_eq!(sizes, vec![10, 10, 3]);
    assert_eq!(chunks[2], vec![21, 22, 23]);
    let flat: Vec<u64> = chunks.concat();
    assert_eq!(flat, ids);
}

#[test]
fn chunking_edges() {
    assert!(chunk_ids(&vec![], 10).is_empty());
    let ten: Vec<u64> = (0..10).collect();
    assert_eq!(chunk_ids(&ten, 10).len(), 1);
    assert_eq!(chunk_ids(&vec![4, 5, 6], 1), vec![vec![4], vec![5], vec![6]]);
}

#[test]
fn device_ids_joined_with_commas() {
    assert_eq!(device_ids_param(&vec![]), "");
    assert_eq!(device_ids_param(&vec![7]), "7");
    assert_eq!(device_ids_param(&vec![101, 0, 18446744073709551615]), "101,0,18446744073709551615");
}

#[test]
fn throttled_request_waits_then_retries() {
    let policy = SyncPolicy::standard();
    let mut st = RetryState::new();
    assert_eq!(st.on_response(&policy, 429, Some("5")), RetryStep::RetryAfter(5));
    assert_eq!(st.retries, 1);
    assert_eq!(st.on_response(&policy, 200, None), RetryStep::Deliver);
}

#[test]
fn throttled_request_fails_after_retry_bound() {
    let policy = SyncPolicy::standard();
    let mut st = RetryState::new();
    let mut sent = 1;
    loop {
        match st.on_response(&policy, 429, Some("5")) {
            RetryStep::RetryAfter(secs) => {
                assert_eq!(secs, 5);
                sent += 1;
            }
            RetryStep::Fail(e) => {
                assert_eq!(e, ApiError::RateLimited);
                break;
            }
            RetryStep::Deliver => panic!("a throttled response is not delivered"),
        }
    }
    assert_eq!(st.retries, 5);
    assert_eq!(sent, 6);
}

#[test]
fn retry_after_defaults_and_other_statuses() {
    let policy = SyncPolicy::standard();
    assert_eq!(retry_after_secs(None, 60), 60);
    assert_eq!(retry_after_secs(Some("soon"), 60), 60);
    assert_eq!(retry_after_secs(Some("12"), 60), 12);
    let mut st = RetryState::new();
    assert_eq!(st.on_response(&policy, 429, None), RetryStep::RetryAfter(60));
    assert_eq!(st.on_response(&policy, 500, None), RetryStep::Fail(ApiError::Status(500)));
    assert_eq!(st.on_response(&policy, 302, None), RetryStep::Fail(ApiError::Status(302)));
    assert_eq!(st.on_response(&policy, 204, None), RetryStep::Deliver);
}

#[test]
fn decimal_text() {
    assert_eq!(decimal(0), "0");
    assert_eq!(decimal(12345), "12345");
    assert_eq!(decimal(u64::MAX), "18446744073709551615");
    assert_eq!(parse_u64("42"), Some(42));
    assert_eq!(parse_u64("+7"), Some(7));
    assert_eq!(parse_u64("007"), Some(7));
    assert_eq!(parse_u64(""), None);
    assert_eq!(parse_u64("+"), None);
    assert_eq!(parse_u64("-1"), None);
    assert_eq!(parse_u64("4 2"), None);
    assert_eq!(parse_u64("18446744073709551615"), Some(u64::MAX));
    assert_eq!(parse_u64("18446744073709551616"), None);
}

#[test]
fn store_keys() {
    assert_eq!(record_key(42), "ap:42");
    assert_eq!(ssid_key(42), "ap:42:ssids");
}

#[test]
fn device_commands_in_order() {
    let ws = vec![wlan("Corp", "WPA3"), wlan("Guest", "WPA2")];
    let cmds = device_commands(9, "{\"id\":9}".to_string(), Some(&ws), 7200);
    assert_eq!(cmds.len(), 4);
    assert!(matches!(&cmds[0], StoreCommand::Put { key, value } if key == "ap:9" && value == "{\"id\":9}"));
    assert!(matches!(&cmds[1], StoreCommand::Delete { key } if key == "ap:9:ssids"));
    assert!(matches!(&cmds[2], StoreCommand::PushAll { key, values }
        if key == "ap:9:ssids" && values == &vec!["Corp".to_string(), "Guest".to_string()]));
    assert!(matches!(&cmds[3], StoreCommand::Expire { key, secs } if key == "ap:9" && *secs == 7200));
    assert_eq!(names_of(&ws), vec!["Corp".to_string(), "Guest".to_string()]);
}

#[test]
fn absent_ssids_delete_and_do_not_recreate() {
    let mut store = MemStore::default();
    store.entries.insert(
        "ap:3:ssids".to_string(),
        (Value::List(vec!["Old".to_string()]), None),
    );
    let cmds = device_commands(3, "{}".to_string(), None, 7200);
    assert_eq!(cmds.len(), 3);
    assert!(!cmds.iter().any(|c| matches!(c, StoreCommand::PushAll { .. })));
    store.run(&cmds);
    assert!(!store.entries.contains_key("ap:3:ssids"));
    let empty: Vec<Wlan> = vec![];
    let cmds = device_commands(3, "{}".to_string(), Some(&empty), 7200);
    store.run(&cmds);
    assert!(!store.entries.contains_key("ap:3:ssids"));
    assert_eq!(store.entries["ap:3"], (Value::Text("{}".to_string()), Some(7200)));
}

#[test]
fn store_write_is_idempotent() {
    let policy = SyncPolicy::standard();
    let aps = vec![device(1, "AP"), device(2, "AP")];
    let records = vec!["{\"id\":1}".to_string(), "{\"id\":2}".to_string()];
    let mut ssids = SsidCollector::new();
    ssids.accept(&vec![1, 2], vec![RadioDeviceInfo {
        device_id: 1,
        radios: vec![Radio { wlans: vec![wlan("Corp", "WPA3"), wlan("Corp", "Open")] }],
    }]);
    let plan = store_plan(&aps, records, &ssids, &policy);
    let mut once = MemStore::default();
    once.entries.insert("ap:1".to_string(), (Value::Text("stale".to_string()), Some(5)));
    once.run(&plan);
    let mut twice = once.clone();
    twice.run(&plan);
    assert_eq!(once, twice);
    assert_eq!(once.entries["ap:1"], (Value::Text("{\"id\":1}".to_string()), Some(7200)));
    assert_eq!(once.entries["ap:1:ssids"], (Value::List(vec!["Corp".to_string()]), None));
    assert!(!once.entries.contains_key("ap:2:ssids"));
}

#[test]
fn collector_replaces_a_device_reported_again() {
    let mut c = SsidCollector::new();
    assert_eq!(c.len(), 0);
    c.accept(&vec![4, 5], vec![
        RadioDeviceInfo { device_id: 4, radios: vec![Radio { wlans: vec![wlan("A", "Open")] }] },
        RadioDeviceInfo { device_id: 5, radios: vec![] },
    ]);
    c.accept(&vec![4], vec![RadioDeviceInfo {
        device_id: 4,
        radios: vec![Radio { wlans: vec![wlan("B", "Open")] }],
    }]);
    assert_eq!(c.len(), 2);
    assert_eq!(c.get(4).unwrap()[0].ssid, "B");
    assert!(c.get(5).unwrap().is_empty());
    assert!(c.get(6).is_none());
}

#[test]
fn standard_policy_values() {
    let p = SyncPolicy::standard();
    assert_eq!(p.page_delay_ms, 800);
    assert_eq!(p.chunk_delay_ms, 500);
    assert_eq!(p.chunk_size, 10);
    assert_eq!(p.max_retries, 5);
    assert_eq!(p.default_retry_after_secs, 60);
    assert_eq!(p.record_ttl_secs, 7200);
    assert_eq!(p.radio_limit, 100);
}

#[test]
fn login_decision() {
    assert!(needs_login(true, true));
    assert!(needs_login(false, false));
    assert!(!needs_login(false, true));
    assert!(!token_exists("/nonexistent/dir/token.txt"));
    assert!(must_login(false, "/nonexistent/dir/token.txt"));
    assert!(must_login(true, "/nonexistent/dir/token.txt"));
}

#[test]
fn collector_ignores_devices_not_queried() {
    let mut c = SsidCollector::new();
    c.accept(&vec![1], vec![
        RadioDeviceInfo { device_id: 99, radios: vec![Radio { wlans: vec![wlan("X", "Open")] }] },
        RadioDeviceInfo { device_id: 1, radios: vec![Radio { wlans: vec![wlan("Y", "Open")] }] },
    ]);
    assert_eq!(c.len(), 1);
    assert!(c.get(99).is_none());
    assert_eq!(c.get(1).unwrap()[0].ssid, "Y");
}

#[test]
fn plan_removes_stale_lists_of_devices_without_ssids() {
    let policy = SyncPolicy::standard();
    let aps = vec![device(1, "AP"), device(2, "AP"), device(3, "AP")];
    let records = vec!["{}".to_string(), "{}".to_string(), "{}".to_string()];
    let mut ssids = SsidCollector::new();
    ssids.accept(&vec![1, 2, 3], vec![
        RadioDeviceInfo { device_id: 1, radios: vec![Radio { wlans: vec![wlan("Corp", "WPA3")] }] },
        RadioDeviceInfo { device_id: 2, radios: vec![] },
    ]);
    let mut store = MemStore::default();
    for key in ["ap:2:ssids", "ap:3:ssids"] {
        store.entries.insert(key.to_string(), (Value::List(vec!["Old".to_string()]), None));
    }
    store.run(&store_plan(&aps, records, &ssids, &policy));
    assert!(store.entries.contains_key("ap:1:ssids"));
    assert!(!store.entries.contains_key("ap:2:ssids"));
    assert!(!store.entries.contains_key("ap:3:ssids"));
}
