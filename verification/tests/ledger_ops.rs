use network_manager::addr::{Addr, Identity, RoleTag};
use network_manager::error::Error;
use network_manager::ledger::Ledger;
use network_manager::model::UpdatePolicy;
use network_manager::records::ServiceData;

fn ident(n: u64) -> Identity {
    Identity { hi: 0, lo: n as u128 }
}

fn data(url: &[u8], desc: &[u8], face: &[u8], fee: u64, share: u8) -> ServiceData {
    ServiceData {
        service_url: url.to_vec(),
        service_description: desc.to_vec(),
        service_face_url: face.to_vec(),
        service_fee: fee,
        relayer_share: share,
    }
}

const FEE: u64 = 2_000_000_000;

#[test]
fn register_locks_fee_and_zeroes_counter() {
    let mut l = Ledger::new();
    let r = ident(1);
    assert!(l.fund_wallet(r, 5_000_000_000));
    assert_eq!(l.create_relayer(r, b"https://relayer.example".to_vec()), Ok(()));
    assert_eq!(l.balance_of(r), 3_000_000_000);
    let base = l.get_relayer(r).expect("registered");
    assert_eq!(base.locked_fee, FEE);
    assert_eq!(base.relayer, r);
    assert_eq!(base.connection_url, b"https://relayer.example".to_vec());
    assert_eq!(l.get_service_counter(r), Some(0));
}

#[test]
fn register_without_funds_fails() {
    let mut l = Ledger::new();
    let r = ident(2);
    assert!(l.fund_wallet(r, 1_999_999_999));
    assert_eq!(l.create_relayer(r, b"https://a".to_vec()), Err(Error::InsufficientFunds));
    assert!(l.get_relayer(r).is_none());
    assert!(l.get_service_counter(r).is_none());
    assert_eq!(l.balance_of(r), 1_999_999_999);
}

#[test]
fn register_twice_fails_already_initialized() {
    let mut l = Ledger::new();
    let r = ident(3);
    assert!(l.fund_wallet(r, 10_000_000_000));
    assert_eq!(l.create_relayer(r, b"https://first".to_vec()), Ok(()));
    assert_eq!(l.create_relayer(r, b"https://second".to_vec()), Err(Error::AlreadyInitialized));
    assert_eq!(l.balance_of(r), 8_000_000_000);
    assert_eq!(l.get_relayer(r).expect("registered").connection_url, b"https://first".to_vec());
    assert_eq!(l.get_service_counter(r), Some(0));
}

#[test]
fn url_of_200_bytes_passes_201_fails() {
    let mut l = Ledger::new();
    let r = ident(4);
    assert!(l.fund_wallet(r, 10_000_000_000));
    assert_eq!(l.create_relayer(r, vec![b'a'; 201]), Err(Error::FieldTooLong));
    assert!(l.get_relayer(r).is_none());
    assert_eq!(l.balance_of(r), 10_000_000_000);
    assert_eq!(l.create_relayer(r, vec![b'a'; 200]), Ok(()));
    assert_eq!(l.update_relayer(r, r, vec![b'b'; 201]), Err(Error::FieldTooLong));
    assert_eq!(l.get_relayer(r).expect("registered").connection_url, vec![b'a'; 200]);
    assert_eq!(l.update_relayer(r, r, vec![b'b'; 200]), Ok(()));
    assert_eq!(l.get_relayer(r).expect("registered").connection_url, vec![b'b'; 200]);
}

#[test]
fn update_relayer_rewrites_url_only() {
    let mut l = Ledger::new();
    let r = ident(5);
    assert!(l.fund_wallet(r, 3_000_000_000));
    assert_eq!(l.create_relayer(r, b"https://old".to_vec()), Ok(()));
    assert_eq!(l.update_relayer(r, r, b"https://new".to_vec()), Ok(()));
    let base = l.get_relayer(r).expect("registered");
    assert_eq!(base.connection_url, b"https://new".to_vec());
    assert_eq!(base.locked_fee, FEE);
    assert_eq!(base.relayer, r);
    assert_eq!(l.get_service_counter(r), Some(0));
    assert_eq!(l.balance_of(r), 1_000_000_000);
}

#[test]
fn non_owner_cannot_update_or_close() {
    let mut l = Ledger::new();
    let r = ident(6);
    let intruder = ident(7);
    assert!(l.fund_wallet(r, 2_000_000_000));
    assert_eq!(l.create_relayer(r, b"https://mine".to_vec()), Ok(()));
    assert_eq!(l.update_relayer(r, intruder, b"https://theirs".to_vec()), Err(Error::Unauthorized));
    assert_eq!(l.close_relayer(r, intruder), Err(Error::Unauthorized));
    let base = l.get_relayer(r).expect("still registered");
    assert_eq!(base.connection_url, b"https://mine".to_vec());
    assert_eq!(base.locked_fee, FEE);
    assert_eq!(l.balance_of(intruder), 0);
}

#[test]
fn update_or_close_of_unregistered_not_found() {
    let mut l = Ledger::new();
    let r = ident(8);
    assert_eq!(l.update_relayer(r, r, b"https://a".to_vec()), Err(Error::NotFound));
    assert_eq!(l.close_relayer(r, r), Err(Error::NotFound));
}

#[test]
fn create_services_counts_up_from_zero() {
    let mut l = Ledger::new();
    let r = ident(9);
    assert!(l.fund_wallet(r, 2_000_000_000));
    assert_eq!(l.create_relayer(r, b"https://r".to_vec()), Ok(()));
    assert_eq!(l.create_service(r, data(b"https://s0", b"d0", b"f0", 10, 1)), Ok(0));
    assert_eq!(l.create_service(r, data(b"https://s1", b"d1", b"f1", 11, 2)), Ok(1));
    assert_eq!(l.create_service(r, data(b"https://s2", b"d2", b"f2", 12, 3)), Ok(2));
    assert_eq!(l.get_service_counter(r), Some(3));
    for i in 0..3u64 {
        let s = l.get_service(r, i).expect("created");
        assert_eq!(s.service_url, format!("https://s{}", i).into_bytes());
        assert_eq!(s.service_fee, 10 + i);
        assert_eq!(s.relayer_share, 1 + i as u8);
    }
    assert!(l.get_service(r, 3).is_none());
}

#[test]
fn create_service_without_registration_not_found() {
    let mut l = Ledger::new();
    let r = ident(10);
    assert_eq!(l.create_service(r, data(b"https://s", b"d", b"f", 1, 1)), Err(Error::NotFound));
}

#[test]
fn create_then_update_round_trip() {
    let mut l = Ledger::new();
    let r = ident(11);
    assert!(l.fund_wallet(r, 2_000_000_000));
    assert_eq!(l.create_relayer(r, b"https://r".to_vec()), Ok(()));
    let ix = l.create_service(r, data(b"https://a", b"d", b"f", 100, 10)).expect("created");
    assert_eq!(
        l.update_service(r, ix, r, data(b"https://b", b"d2", b"f2", 200, 20),
            UpdatePolicy::StrictOwner),
        Ok(()),
    );
    let s = l.get_service(r, ix).expect("still there");
    assert_eq!(s.service_url, b"https://b".to_vec());
    assert_eq!(s.service_description, b"d2".to_vec());
    assert_eq!(s.service_face_url, b"f2".to_vec());
    assert_eq!(s.service_fee, 200);
    assert_eq!(s.relayer_share, 20);
}

#[test]
fn update_service_policy_decides_who_may_write() {
    let mut l = Ledger::new();
    let r = ident(12);
    let other = ident(13);
    assert!(l.fund_wallet(r, 2_000_000_000));
    assert_eq!(l.create_relayer(r, b"https://r".to_vec()), Ok(()));
    assert_eq!(l.create_service(r, data(b"https://a", b"d", b"f", 1, 1)), Ok(0));
    assert_eq!(
        l.update_service(r, 0, other, data(b"https://x", b"xd", b"xf", 2, 2),
            UpdatePolicy::StrictOwner),
        Err(Error::Unauthorized),
    );
    assert_eq!(l.get_service(r, 0).expect("kept").service_url, b"https://a".to_vec());
    assert_eq!(
        l.update_service(r, 0, other, data(b"https://x", b"xd", b"xf", 2, 2),
            UpdatePolicy::Permissive),
        Ok(()),
    );
    assert_eq!(l.get_service(r, 0).expect("rewritten").service_url, b"https://x".to_vec());
    assert_eq!(
        l.update_service(r, 5, r, data(b"https://y", b"yd", b"yf", 3, 3),
            UpdatePolicy::StrictOwner),
        Err(Error::NotFound),
    );
}

#[test]
fn service_fields_bounded_at_200_bytes() {
    let mut l = Ledger::new();
    let r = ident(14);
    assert!(l.fund_wallet(r, 2_000_000_000));
    assert_eq!(l.create_relayer(r, b"https://r".to_vec()), Ok(()));
    let long = vec![b'x'; 201];
    assert_eq!(
        l.create_service(r, data(&long, b"d", b"f", 1, 1)),
        Err(Error::FieldTooLong),
    );
    assert_eq!(
        l.create_service(r, data(b"https://s", &long, b"f", 1, 1)),
        Err(Error::FieldTooLong),
    );
    assert_eq!(
        l.create_service(r, data(b"https://s", b"d", &long, 1, 1)),
        Err(Error::FieldTooLong),
    );
    assert_eq!(l.get_service_counter(r), Some(0));
    assert_eq!(
        l.create_service(r, data(&vec![b'x'; 200], &vec![b'y'; 200], &vec![b'z'; 200], 1, 1)),
        Ok(0),
    );
    assert_eq!(
        l.update_service(r, 0, r, data(b"https://s", &long, b"f", 1, 1),
            UpdatePolicy::StrictOwner),
        Err(Error::FieldTooLong),
    );
}

#[test]
fn close_refunds_and_reregister_starts_fresh() {
    let mut l = Ledger::new();
    let r = ident(15);
    assert!(l.fund_wallet(r, 2_000_000_000));
    assert_eq!(l.create_relayer(r, b"https://r".to_vec()), Ok(()));
    assert_eq!(l.balance_of(r), 0);
    assert_eq!(l.create_service(r, data(b"https://s0", b"d", b"f", 1, 1)), Ok(0));
    assert_eq!(l.close_relayer(r, r), Ok(()));
    assert_eq!(l.balance_of(r), 2_000_000_000);
    assert!(l.get_relayer(r).is_none());
    assert!(l.get_service_counter(r).is_none());
    assert_eq!(l.create_relayer(r, b"https://again".to_vec()), Ok(()));
    assert_eq!(l.get_service_counter(r), Some(0));
    assert_eq!(l.get_service(r, 0).expect("orphan kept").service_url, b"https://s0".to_vec());
}

#[test]
fn full_lifecycle_keeps_orphaned_services_readable() {
    let mut l = Ledger::new();
    let r = ident(16);
    assert!(l.fund_wallet(r, 2_000_000_000));
    assert_eq!(l.create_relayer(r, b"https://r".to_vec()), Ok(()));
    assert_eq!(l.create_service(r, data(b"https://s0", b"d0", b"f0", 10, 1)), Ok(0));
    assert_eq!(l.create_service(r, data(b"https://s1", b"d1", b"f1", 11, 2)), Ok(1));
    assert_eq!(l.create_service(r, data(b"https://s2", b"d2", b"f2", 12, 3)), Ok(2));
    assert_eq!(l.get_service_counter(r), Some(3));
    assert_eq!(l.close_relayer(r, r), Ok(()));
    assert_eq!(l.balance_of(r), 2_000_000_000);
    assert!(l.get_relayer(r).is_none());
    assert!(l.get_service_counter(r).is_none());
    for i in 0..3u64 {
        let s = l.get_service(r, i).expect("orphan readable");
        assert_eq!(s.service_url, format!("https://s{}", i).into_bytes());
        assert_eq!(s.service_description, format!("d{}", i).into_bytes());
        assert_eq!(s.service_face_url, format!("f{}", i).into_bytes());
    }
}

#[test]
fn orphaned_record_blocks_recreation_at_its_address() {
    let mut l = Ledger::new();
    let r = ident(17);
    assert!(l.fund_wallet(r, 2_000_000_000));
    assert_eq!(l.create_relayer(r, b"https://r".to_vec()), Ok(()));
    assert_eq!(l.create_service(r, data(b"https://s0", b"d", b"f", 1, 1)), Ok(0));
    assert_eq!(l.close_relayer(r, r), Ok(()));
    assert_eq!(l.create_relayer(r, b"https://r".to_vec()), Ok(()));
    assert_eq!(
        l.create_service(r, data(b"https://s0b", b"d", b"f", 1, 1)),
        Err(Error::AlreadyInitialized),
    );
    assert_eq!(l.get_service_counter(r), Some(0));
    assert_eq!(l.get_service(r, 0).expect("orphan kept").service_url, b"https://s0".to_vec());
}

#[test]
fn permissive_update_reaches_an_orphan_after_reregistration() {
    let mut l = Ledger::new();
    let r = ident(18);
    assert!(l.fund_wallet(r, 2_000_000_000));
    assert_eq!(l.create_relayer(r, b"https://r".to_vec()), Ok(()));
    assert_eq!(l.create_service(r, data(b"https://s0", b"d", b"f", 1, 1)), Ok(0));
    assert_eq!(l.close_relayer(r, r), Ok(()));
    // While the relayer is away, even its own orphan cannot be addressed:
    // the counter record the operation resolves is gone.
    assert_eq!(
        l.update_service(r, 0, r, data(b"https://s0b", b"d", b"f", 1, 1),
            UpdatePolicy::Permissive),
        Err(Error::NotFound),
    );
    assert_eq!(l.create_relayer(r, b"https://r".to_vec()), Ok(()));
    // Re-registered: the caller-supplied counter value is taken as given, so
    // the orphan created under the earlier registration is reachable again.
    assert_eq!(
        l.update_service(r, 0, r, data(b"https://s0b", b"d", b"f", 1, 1),
            UpdatePolicy::Permissive),
        Ok(()),
    );
    assert_eq!(l.get_service(r, 0).expect("rewritten").service_url, b"https://s0b".to_vec());
}

#[test]
fn fund_wallet_keeps_refund_headroom() {
    let mut l = Ledger::new();
    let free = ident(19);
    assert!(l.fund_wallet(free, u64::MAX));
    assert!(!l.fund_wallet(free, 1));
    assert_eq!(l.balance_of(free), u64::MAX);
    let r = ident(20);
    assert!(l.fund_wallet(r, 2_000_000_000));
    assert_eq!(l.create_relayer(r, b"https://r".to_vec()), Ok(()));
    assert_eq!(l.balance_of(r), 0);
    assert!(!l.fund_wallet(r, u64::MAX));
    assert!(l.fund_wallet(r, u64::MAX - 2_000_000_000));
    assert_eq!(l.balance_of(r), u64::MAX - 2_000_000_000);
}

#[test]
fn balance_of_absent_wallet_is_zero() {
    let l = Ledger::new();
    assert_eq!(l.balance_of(ident(21)), 0);
}

#[test]
fn derive_is_deterministic_and_collision_free() {
    let dv = network_manager::addr::derive;
    let a = ident(22);
    let b = ident(23);
    assert_eq!(
        dv(a, RoleTag::RelayerBase, None),
        Some(Addr::RelayerBase { owner: a }),
    );
    assert_eq!(dv(a, RoleTag::RelayerBase, None), dv(a, RoleTag::RelayerBase, None));
    assert_ne!(dv(a, RoleTag::RelayerBase, None), dv(b, RoleTag::RelayerBase, None));
    assert_ne!(dv(a, RoleTag::RelayerBase, None), dv(a, RoleTag::ServiceBase, None));
    assert_ne!(
        dv(a, RoleTag::Service, Some(0)),
        dv(a, RoleTag::Service, Some(1)),
    );
    assert_eq!(dv(a, RoleTag::Service, None), None);
    assert_eq!(dv(a, RoleTag::RelayerBase, Some(0)), None);
    assert_eq!(dv(a, RoleTag::ServiceBase, Some(7)), None);
}

#[test]
fn error_names_are_stable() {
    assert_eq!(Error::AlreadyInitialized.name(), "already initialized");
    assert_eq!(Error::NotFound.name(), "not found");
    assert_eq!(Error::Unauthorized.name(), "unauthorized");
    assert_eq!(Error::InsufficientFunds.name(), "insufficient funds");
    assert_eq!(Error::FieldTooLong.name(), "field too long");
    assert_eq!(Error::CounterOverflow.name(), "counter overflow");
}
