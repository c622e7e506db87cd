use std::collections::HashMap;

use scheduling_events::{
    bracket_list, compose_confirmation, confirmation, listing_text, parse_port, port_from,
    record_fields, slot_key, AppendProbe, AppendStep, Event, ListScan, ListStep, DEFAULT_PORT,
    ID_LEN,
};

/// A stand-in for the hash store: key to field/value pairs in insertion order.
#[derive(Default)]
struct MemoryStore {
    hashes: HashMap<String, Vec<(String, String)>>,
}

impl MemoryStore {
    fn hexists(&self, key: &str, field: &str) -> bool {
        self.hashes
            .get(key)
            .map_or(false, |h| h.iter().any(|(f, _)| f == field))
    }

    fn hset_multiple(&mut self, key: &str, pairs: &[(String, String)]) {
        let h = self.hashes.entry(key.to_string()).or_default();
        for (f, v) in pairs {
            match h.iter_mut().find(|(g, _)| g == f) {
                Some(slot) => slot.1 = v.clone(),
                None => h.push((f.clone(), v.clone())),
            }
        }
    }

    fn hgetall(&self, key: &str) -> Vec<String> {
        let mut out = Vec::new();
        if let Some(h) = self.hashes.get(key) {
            for (f, v) in h {
                out.push(f.clone());
                out.push(v.clone());
            }
        }
        out
    }

    fn append(&mut self, event: &Event) -> u64 {
        let mut probe = AppendProbe::start(event);
        loop {
            let taken = self.hexists(&probe.key(), "organizer");
            match probe.on_exists(taken) {
                AppendStep::Probe(next) => probe = next,
                AppendStep::Write { slot, record } => {
                    self.hset_multiple(&slot_key(slot), &record);
                    return slot;
                }
            }
        }
    }

    fn list_all(&self) -> Vec<Vec<String>> {
        let mut scan = ListScan::new();
        loop {
            let key = scan.key();
            match scan.on_exists(self.hexists(&key, "organizer")) {
                ListStep::Read => {
                    let reply = self.hgetall(&key);
                    scan.on_read(reply);
                }
                ListStep::Done => return scan.finish(),
            }
        }
    }

    fn occupied_slots(&self) -> Vec<u64> {
        let mut slots: Vec<u64> = Vec::new();
        for (k, h) in &self.hashes {
            if h.iter().any(|(f, _)| f == "organizer") {
                slots.push(k["event:".len()..].parse().unwrap());
            }
        }
        slots.sort();
        slots
    }
}

fn event(o: &str, n: &str, d: &str) -> Event {
    Event::new(o.to_string(), n.to_string(), d.to_string())
}

fn field<'a>(reply: &'a [String], name: &str) -> Option<&'a str> {
    reply.chunks(2).find(|p| p[0] == name).map(|p| p[1].as_str())
}

#[test]
fn slot_keys_are_decimal() {
    assert_eq!(slot_key(1), "event:1");
    assert_eq!(slot_key(0), "event:0");
    assert_eq!(slot_key(10), "event:10");
    assert_eq!(slot_key(1234567890), "event:1234567890");
    assert_eq!(slot_key(u64::MAX), "event:18446744073709551615");
}

#[test]
fn record_fields_in_write_order() {
    let e = event("Alice", "Standup", "2024-01-01");
    let r = record_fields(&e, "abc".to_string());
    let expected: Vec<(String, String)> = vec![
        ("organizer".to_string(), "Alice".to_string()),
        ("event".to_string(), "Standup".to_string()),
        ("date".to_string(), "2024-01-01".to_string()),
        ("id".to_string(), "abc".to_string()),
    ];
    assert_eq!(r, expected);
}

#[test]
fn fresh_ids_are_url_safe_and_distinct() {
    let e = event("Alice", "Standup", "2024-01-01");
    let a = AppendProbe::start(&e);
    let b = AppendProbe::start(&e);
    assert_eq!(a.slot, 1);
    assert_eq!(a.record.len(), 4);
    assert_eq!(a.record[3].0, "id");
    let id = &a.record[3].1;
    assert_eq!(id.chars().count(), ID_LEN);
    assert!(id
        .chars()
        .all(|c| c == '_' || c == '-' || c.is_ascii_alphanumeric()));
    assert_ne!(a.record[3].1, b.record[3].1);
}

#[test]
fn probe_moves_on_when_taken_and_writes_when_free() {
    let e = event("Bob", "Retro", "2024-01-02");
    let p = AppendProbe::with_id(&e, "x".to_string());
    assert_eq!(p.key(), "event:1");
    let p = match p.on_exists(true) {
        AppendStep::Probe(next) => next,
        AppendStep::Write { .. } => panic!("a taken slot is not written"),
    };
    assert_eq!(p.slot, 2);
    assert_eq!(p.key(), "event:2");
    match p.on_exists(false) {
        AppendStep::Write { slot, record } => {
            assert_eq!(slot, 2);
            assert_eq!(record[0], ("organizer".to_string(), "Bob".to_string()));
            assert_eq!(record[3], ("id".to_string(), "x".to_string()));
        }
        AppendStep::Probe(_) => panic!("a free slot is written"),
    }
}

#[test]
fn list_scan_steps() {
    let mut scan = ListScan::new();
    assert_eq!(scan.key(), "event:1");
    assert!(matches!(scan.on_exists(true), ListStep::Read));
    scan.on_read(vec!["organizer".to_string(), "A".to_string()]);
    assert_eq!(scan.slot, 2);
    assert_eq!(scan.key(), "event:2");
    assert!(matches!(scan.on_exists(false), ListStep::Done));
    assert_eq!(scan.finish(), vec![vec!["organizer".to_string(), "A".to_string()]]);
}

#[test]
fn two_appends_then_list() {
    let mut store = MemoryStore::default();
    store.append(&event("Alice", "Standup", "2024-01-01"));
    store.append(&event("Bob", "Retro", "2024-01-02"));
    let all = store.list_all();
    assert_eq!(all.len(), 2);
    assert_eq!(field(&all[0], "organizer"), Some("Alice"));
    assert_eq!(field(&all[0], "event"), Some("Standup"));
    assert_eq!(field(&all[0], "date"), Some("2024-01-01"));
    assert_eq!(field(&all[1], "organizer"), Some("Bob"));
    assert_eq!(field(&all[1], "event"), Some("Retro"));
    assert_eq!(field(&all[1], "date"), Some("2024-01-02"));
    let id0 = field(&all[0], "id").unwrap();
    let id1 = field(&all[1], "id").unwrap();
    assert!(!id0.is_empty());
    assert!(!id1.is_empty());
    assert_ne!(id0, id1);
}

#[test]
fn empty_store_lists_nothing() {
    let store = MemoryStore::default();
    assert!(store.list_all().is_empty());
    assert_eq!(listing_text(&store.list_all()), "[]");
}

#[test]
fn appends_fill_slots_densely() {
    let mut store = MemoryStore::default();
    for k in 1..=12u64 {
        let slot = store.append(&event("O", &format!("E{}", k), "D"));
        assert_eq!(slot, k);
        assert_eq!(store.occupied_slots(), (1..=k).collect::<Vec<u64>>());
    }
}

#[test]
fn listing_twice_gives_the_same() {
    let mut store = MemoryStore::default();
    store.append(&event("A", "1", "d1"));
    store.append(&event("B", "2", "d2"));
    let first = store.list_all();
    let second = store.list_all();
    assert_eq!(first, second);
}

#[test]
fn appended_event_comes_back() {
    let mut store = MemoryStore::default();
    store.append(&event("x", "y", "z"));
    store.append(&event("Carol", "Planning \"Q3\"", "next tuesday"));
    let all = store.list_all();
    assert!(all.iter().any(|r| field(r, "organizer") == Some("Carol")
        && field(r, "event") == Some("Planning \"Q3\"")
        && field(r, "date") == Some("next tuesday")));
}

#[test]
fn listing_keeps_append_order() {
    let mut store = MemoryStore::default();
    let names = ["first", "second", "third", "fourth"];
    for (i, n) in names.iter().enumerate() {
        store.append(&event("O", n, "D"));
        let all = store.list_all();
        for (j, r) in all.iter().enumerate().take(i + 1) {
            assert_eq!(field(r, "event"), Some(names[j]));
        }
    }
}

#[test]
fn confirmation_quotes_each_field() {
    let e = event("Alice", "Standup", "2024-01-01");
    assert_eq!(
        confirmation(&e),
        "Organizer: \"Alice\" Event: \"Standup\" Date \"2024-01-01\""
    );
    let q = event("a\"b", "", "x\ny");
    assert_eq!(confirmation(&q), "Organizer: \"a\\\"b\" Event: \"\" Date \"x\\ny\"");
}

#[test]
fn compose_confirmation_joins_pieces() {
    assert_eq!(compose_confirmation("o", "n", "d"), "Organizer: o Event: n Date d");
}

#[test]
fn bracket_list_separates_with_commas() {
    assert_eq!(bracket_list(&vec![]), "[]");
    assert_eq!(bracket_list(&vec!["a".to_string()]), "[a]");
    assert_eq!(
        bracket_list(&vec!["a".to_string(), "b".to_string(), "c".to_string()]),
        "[a, b, c]"
    );
}

#[test]
fn listing_text_matches_debug_rendering() {
    let records = vec![
        vec!["organizer".to_string(), "Alice".to_string()],
        vec![],
        vec!["event".to_string(), "say \"hi\"".to_string()],
    ];
    assert_eq!(listing_text(&records), format!("{:?}", records));
    assert_eq!(
        listing_text(&records),
        "[[\"organizer\", \"Alice\"], [], [\"event\", \"say \\\"hi\\\"\"]]"
    );
}

#[test]
fn port_setting_parses() {
    assert_eq!(parse_port("8080"), Some(8080));
    assert_eq!(parse_port("+80"), Some(80));
    assert_eq!(parse_port("0065535"), Some(65535));
    assert_eq!(parse_port("0"), Some(0));
    assert_eq!(parse_port("65536"), None);
    assert_eq!(parse_port("99999999999"), None);
    assert_eq!(parse_port("-1"), None);
    assert_eq!(parse_port(""), None);
    assert_eq!(parse_port("+"), None);
    assert_eq!(parse_port("80a"), None);
    assert_eq!(parse_port(" 80"), None);
    for s in ["8080", "+80", "65536", "-1", "", "+", "x", "00", "++1"] {
        assert_eq!(parse_port(s), s.parse::<u16>().ok());
    }
}

#[test]
fn port_defaults() {
    assert_eq!(DEFAULT_PORT, 8080);
    assert_eq!(port_from(None), 8080);
    assert_eq!(port_from(Some("3000".to_string())), 3000);
    assert_eq!(port_from(Some("nope".to_string())), 8080);
    assert_eq!(port_from(Some("70000".to_string())), 8080);
}
