use libwing::discovery::{choose_host, probe, SCAN_ATTEMPTS, SCAN_TIMEOUT_MS};
use libwing::{DiscoveryInfo, Error, Scan};

const REPLY: &[u8] = b"WING,192.168.1.62,Main Desk,ngc-full,S1234567,1.07.2";

#[test]
fn probe_is_wing_question_mark() {
    assert_eq!(probe(), b"WING?".to_vec());
    assert_eq!(SCAN_TIMEOUT_MS, 500);
    assert_eq!(SCAN_ATTEMPTS, 10);
}

#[test]
fn reply_is_read_field_by_field() {
    let d = DiscoveryInfo::parse(REPLY).unwrap();
    assert_eq!(d.ip, "192.168.1.62");
    assert_eq!(d.name, "Main Desk");
    assert_eq!(d.model, "ngc-full");
    assert_eq!(d.serial, "S1234567");
    assert_eq!(d.firmware, "1.07.2");
}

#[test]
fn fields_after_the_sixth_are_not_looked_at() {
    let d = DiscoveryInfo::parse(b"WING,a,b,c,d,e,f,g,,").unwrap();
    assert_eq!(
        (d.ip, d.name, d.model, d.serial, d.firmware),
        ("a".into(), "b".into(), "c".into(), "d".into(), "e".into())
    );
}

#[test]
fn fields_may_be_empty() {
    let d = DiscoveryInfo::parse(b"WING,,,,,").unwrap();
    assert_eq!(d.ip, "");
    assert_eq!(d.firmware, "");
    let d = DiscoveryInfo::parse(b"WING,,n\xC3\xA4me,,,fw").unwrap();
    assert_eq!(d.name, "näme");
    assert_eq!(d.firmware, "fw");
}

#[test]
fn too_few_fields_is_no_reply() {
    assert!(DiscoveryInfo::parse(b"").is_none());
    assert!(DiscoveryInfo::parse(b"WING").is_none());
    assert!(DiscoveryInfo::parse(b"WING,a,b,c,d").is_none());
    assert!(DiscoveryInfo::parse(b"WING,,,,").is_none());
}

#[test]
fn wrong_tag_is_no_reply() {
    assert!(DiscoveryInfo::parse(b"WONG,a,b,c,d,e").is_none());
    assert!(DiscoveryInfo::parse(b"wing,a,b,c,d,e").is_none());
    assert!(DiscoveryInfo::parse(b"WING?,a,b,c,d,e").is_none());
    assert!(DiscoveryInfo::parse(b" WING,a,b,c,d,e").is_none());
    assert!(DiscoveryInfo::parse(b",WING,a,b,c,d,e").is_none());
}

#[test]
fn bad_utf8_is_no_reply() {
    assert!(DiscoveryInfo::parse(b"WING,a,b\xFF,c,d,e").is_none());
    assert!(DiscoveryInfo::parse(b"WING,a,b,c,d,e,\xC3").is_none());
    assert!(DiscoveryInfo::parse(b"WING,a,\xC3,\xA4,d,e").is_none());
}

#[test]
fn scan_collects_replies_until_ten_timeouts() {
    let mut s = Scan::new(false);
    assert!(s.on_reply(REPLY));
    assert!(s.on_reply(b"garbage"));
    assert!(s.on_reply(b"WING,10.0.0.2,Two,m,s,f"));
    for _ in 0..9 {
        assert!(s.on_timeout());
    }
    assert!(s.on_reply(b"WING,10.0.0.3,Three,m,s,f"));
    assert!(!s.on_timeout());
    assert!(!s.on_timeout());
    let found = s.results();
    let ips: Vec<&str> = found.iter().map(|d| d.ip.as_str()).collect();
    assert_eq!(ips, vec!["192.168.1.62", "10.0.0.2", "10.0.0.3"]);
}

#[test]
fn scan_stops_on_first_when_asked() {
    let mut s = Scan::new(true);
    assert!(s.on_timeout());
    assert!(s.on_reply(b"not a device"));
    assert!(!s.on_reply(REPLY));
    let found = s.results();
    assert_eq!(found.len(), 1);
    assert_eq!(found[0].name, "Main Desk");
}

#[test]
fn scan_without_replies_finds_nothing() {
    let mut s = Scan::new(true);
    let mut waits = 0;
    while s.on_timeout() {
        waits += 1;
    }
    assert_eq!(waits, 9);
    assert!(s.results().is_empty());
}

#[test]
fn host_that_was_asked_for_wins() {
    let devices = vec![DiscoveryInfo::parse(REPLY).unwrap()];
    assert_eq!(choose_host(Some("10.1.1.1"), &devices).unwrap(), "10.1.1.1");
    assert_eq!(choose_host(Some("desk.local"), &Vec::new()).unwrap(), "desk.local");
}

#[test]
fn first_device_is_chosen_when_no_host_is_given() {
    let devices = vec![
        DiscoveryInfo::parse(REPLY).unwrap(),
        DiscoveryInfo::parse(b"WING,10.0.0.2,Two,m,s,f").unwrap(),
    ];
    assert_eq!(choose_host(None, &devices).unwrap(), "192.168.1.62");
}

#[test]
fn no_host_and_no_device_is_a_discovery_error() {
    assert!(matches!(choose_host(None, &Vec::new()), Err(Error::DiscoveryError)));
}

#[test]
fn handle_gives_devices_by_number() {
    let h = libwing::WingDiscoveryInfoHandle::new(vec![
        DiscoveryInfo::parse(REPLY).unwrap(),
        DiscoveryInfo::parse(b"WING,10.0.0.2,Two,m,s,f").unwrap(),
    ]);
    assert_eq!(h.count(), 2);
    assert_eq!(h.get(0).unwrap().ip, "192.168.1.62");
    assert_eq!(h.get(1).unwrap().name, "Two");
    assert!(h.get(2).is_none());
    assert_eq!(libwing::WingDiscoveryInfoHandle::new(Vec::new()).count(), 0);
}
