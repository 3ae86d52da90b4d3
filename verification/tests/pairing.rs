use sidewire::device_id::DeviceId;
use sidewire::frame::VERSION;
use sidewire::pairing::{
    check_pair_banner, check_pair_commit, check_pair_complete, check_pair_start, pair_choice,
    pair_endpoint, pair_finish, pair_reply, pair_start, paired_file_name, paired_host_file,
    paired_host_secret, pairing_pin, read_pin, PairChoice, PairError, PairingGuard, PeerAddr,
    MAX_PAIRING_ATTEMPTS_PER_IP,
};
use sidewire::pairing_desk::{Arrival, PairEnd, PairingDesk};
use sidewire::trust::{host_name, TrustError, TrustStore};

const SECOND: u64 = 1_000_000_000;

#[test]
fn pairing_guard_rate_limits_an_ip() {
    let mut guard = PairingGuard::new();
    let ip = PeerAddr::V4(u32::from_be_bytes([192, 0, 2, 10]));
    for _ in 0..MAX_PAIRING_ATTEMPTS_PER_IP {
        assert!(guard.allow_ip(ip, 0));
    }
    assert!(!guard.allow_ip(ip, 0));
    assert!(guard.allow_ip(PeerAddr::V4(u32::from_be_bytes([192, 0, 2, 11])), 0));
}

#[test]
fn rate_limit_ends_with_its_window() {
    let mut guard = PairingGuard::new();
    let ip = PeerAddr::V6(1);
    for i in 0..5u64 {
        assert!(guard.allow_ip(ip, i * SECOND));
    }
    assert!(!guard.allow_ip(ip, 60 * SECOND));
    assert!(guard.allow_ip(ip, 60 * SECOND + 1));
    assert!(!guard.allow_ip(ip, 60 * SECOND + 2));
}

#[test]
fn active_pairing_file_is_available() {
    let until = 1000 + 60;
    assert_eq!(
        pairing_pin(Some(&format!("pin=123456\nuntil={until}\n")), 1000).as_deref(),
        Some("123456")
    );
    assert_eq!(
        pairing_pin(Some("until=1000\npin=000001\n"), 1000).as_deref(),
        Some("000001")
    );
}

#[test]
fn expired_or_missing_pairing_file_is_inactive() {
    assert!(pairing_pin(None, 0).is_none());
    assert!(pairing_pin(Some("pin=123456\nuntil=10\n"), 11).is_none());
    assert!(pairing_pin(Some("pin=12345\nuntil=10\n"), 1).is_none());
    assert!(pairing_pin(Some("pin=12345x\nuntil=10\n"), 1).is_none());
    assert!(pairing_pin(Some("pin=123456\n"), 1).is_none());
    assert!(pairing_pin(Some("until=10\n"), 1).is_none());
}

#[test]
fn pins_are_six_digits() {
    assert_eq!(read_pin(" 123456\r\n").unwrap(), "123456");
    assert_eq!(read_pin("12345").unwrap_err(), PairError::PinFormat);
    assert_eq!(read_pin("12345a").unwrap_err(), PairError::PinFormat);
    assert_eq!(PairError::PinFormat.message(), "pairing PIN must be exactly 6 digits");
}

#[test]
fn both_sides_of_a_pairing_agree() {
    let host = DeviceId([1; 16]);
    let device = DeviceId([2; 16]);
    let (a, first) = pair_start("123456", host, device);
    let (b, second) = pair_reply("123456", host, device);
    assert_eq!(first.len(), 33);
    assert_eq!(second.len(), 33);
    let left = pair_finish(a, &second, VERSION, host, device).unwrap();
    let right = pair_finish(b, &first, VERSION, host, device).unwrap();
    assert_eq!(left, right);

    let (a, first) = pair_start("123456", host, device);
    let (b, second) = pair_reply("654321", host, device);
    let left = pair_finish(a, &second, VERSION, host, device).unwrap();
    let right = pair_finish(b, &first, VERSION, host, device).unwrap();
    assert_ne!(left.0, right.0);

    let (a, _) = pair_start("123456", host, device);
    let error = match pair_finish(a, &[], VERSION, host, device) {
        Ok(_) => panic!("an empty message was taken"),
        Err(error) => error,
    };
    assert_eq!(error, PairError::KeyExchange);
    assert_eq!(error.message(), "pairing key exchange failed");
}

#[test]
fn a_pairing_is_checked_on_both_sides() {
    let pin = Some("123456".to_string());
    assert_eq!(check_pair_start(&pin, 0x0105), Ok(VERSION));
    assert_eq!(check_pair_start(&None, VERSION), Err(PairError::NotEnabled));
    assert_eq!(check_pair_start(&pin, 0x0200), Err(PairError::MajorMismatch));
    let host = DeviceId([1; 16]);
    assert!(check_pair_commit(host, host, "123456", &pin).is_ok());
    assert_eq!(
        check_pair_commit(host, host, "123456", &None),
        Err(PairError::PinUsed)
    );
    assert_eq!(
        check_pair_commit(host, host, "123456", &Some("222222".to_string())),
        Err(PairError::PinUsed)
    );
    assert_eq!(
        check_pair_commit(host, DeviceId([3; 16]), "123456", &pin),
        Err(PairError::HostChanged)
    );
    assert_eq!(check_pair_banner(VERSION, true, "A32").unwrap(), VERSION);
    assert_eq!(
        check_pair_banner(0x0300, true, "A32").unwrap_err(),
        "pairing protocol mismatch: device 3.0, host 1.1"
    );
    assert_eq!(
        check_pair_banner(VERSION, false, "A32").unwrap_err(),
        "pairing is not enabled on A32; generate a new PIN in the SideWire WebUI and retry within 60 seconds"
    );
    assert!(check_pair_complete(host, host).is_ok());
    assert_eq!(
        check_pair_complete(host, DeviceId([9; 16])),
        Err(PairError::DeviceChanged)
    );
}

#[test]
fn paired_hosts_are_stored() {
    let file = paired_host_file("My\r\nPC", &[0x0f; 32]);
    assert_eq!(file, format!("name=MyPC\nsecret={}\n", "0f".repeat(32)));
    assert_eq!(paired_host_secret(Some(&file)).unwrap(), Some([0x0f; 32]));
    assert_eq!(paired_host_secret(None).unwrap(), None);
    assert_eq!(paired_host_secret(Some("name=x\n")).unwrap(), None);
    assert!(paired_host_secret(Some("secret=zz\n")).is_err());
    assert_eq!(paired_file_name(DeviceId([0xa0; 16])), format!("{}.pair", "a0".repeat(16)));
}

#[test]
fn pairing_targets() {
    assert_eq!(pair_endpoint("10.0.0.1"), "10.0.0.1:58323");
    assert_eq!(pair_endpoint("10.0.0.1:77"), "10.0.0.1:77");
    assert_eq!(pair_endpoint("10.0.0.1:99999"), "10.0.0.1:99999:58323");
    assert_eq!(pair_choice(true, true, &[]).err(), Some(PairError::TargetAndDiscover));
    assert_eq!(pair_choice(false, false, &[]).err(), Some(PairError::NoTarget));
    assert_eq!(pair_choice(false, true, &[]).err(), Some(PairError::NothingDiscovered));
    assert_eq!(
        pair_choice(false, true, &[VERSION, VERSION]).err(),
        Some(PairError::ManyDiscovered)
    );
    assert!(matches!(pair_choice(true, false, &[]), Ok(PairChoice::Target)));
    assert!(matches!(
        pair_choice(false, true, &[0x0200, VERSION]),
        Ok(PairChoice::Discovered(1))
    ));
}

#[test]
fn a_pin_is_withdrawn_after_five_failures() {
    let mut desk = PairingDesk::new();
    let pin = || Some("123456".to_string());
    for _ in 0..4 {
        let after = desk.ended(PairEnd::Failed, pin());
        assert!(!after.withdraw_pin);
        assert!(after.pause);
        assert!(!after.reconnect);
    }
    assert!(!desk.ended(PairEnd::TimedOut, None).withdraw_pin);
    assert!(desk.ended(PairEnd::TimedOut, pin()).withdraw_pin);
    assert!(!desk.ended(PairEnd::Failed, pin()).withdraw_pin);
    let after = desk.ended(PairEnd::Paired, None);
    assert!(after.reconnect);
    assert!(!after.withdraw_pin);
    assert_eq!(desk.guard.failures, 0);
}

#[test]
fn at_most_four_pair_at_a_time() {
    let mut desk = PairingDesk::new();
    for i in 0..4 {
        assert_eq!(desk.arrives(PeerAddr::V4(i), 0), Arrival::Accepted);
    }
    assert_eq!(desk.arrives(PeerAddr::V4(9), 0), Arrival::Busy);
    desk.leaves();
    assert_eq!(desk.arrives(PeerAddr::V4(9), 0), Arrival::Accepted);
    for _ in 0..3 {
        assert_eq!(desk.arrives(PeerAddr::V4(9), 0), Arrival::Busy);
    }
    assert_eq!(desk.arrives(PeerAddr::V4(9), 0), Arrival::RateLimited);
}

#[test]
fn trusted_devices() {
    let mut store = TrustStore::new();
    let (host, created) = store.ensure_host_id([7; 16]);
    assert!(created);
    assert!(host == DeviceId([7; 16]));
    let (again, created) = store.ensure_host_id([8; 16]);
    assert!(!created);
    assert!(again == host);
    let one = DeviceId([0x11; 16]);
    let two = DeviceId([0x12; 16]);
    store.save_device(two, "twin".to_string(), &[2; 32]);
    store.save_device(one, "twin".to_string(), &[1; 32]);
    assert_eq!(store.device_secret(one).unwrap(), Some([1; 32]));
    assert_eq!(store.device_secret(DeviceId([9; 16])).unwrap(), None);
    let order = store.list_devices();
    let names: Vec<String> = order.iter().map(|i| store.devices.entries[*i].1.id.short()).collect();
    assert_eq!(names, vec!["11111111", "12121212"]);
    assert_eq!(store.remove_device("TWIN").unwrap_err(), TrustError::Ambiguous);
    assert_eq!(store.remove_device("none").unwrap_err(), TrustError::NotFound);
    assert!(TrustError::NotFound.message("none").contains("none"));
    assert_eq!(store.remove_device("1111").unwrap().name, "twin");
    assert_eq!(store.device_secret(one).unwrap(), None);
    assert_eq!(store.device_secret(two).unwrap(), Some([2; 32]));
}

#[test]
fn host_names() {
    assert_eq!(host_name(Some("PC".to_string()), Some("h".to_string())), "PC");
    assert_eq!(host_name(None, Some("h".to_string())), "h");
    assert!(!host_name(None, None).is_empty());
}
