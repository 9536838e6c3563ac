use perf_kernel::server::{
    admn_bytes, crypt, dhcp_timed_out, handle_packet, poll_timeout, reply, FlagStore,
    RemoteFunction, ServerAction, DHCP_TIMEOUT_MS, FLAG_LEN, MASK,
};

const PASSWORD: &[u8] = b"::svm_kernel::repr_as_byte";

/// An echo request with identifier 0x1234 and sequence number 7 whose data is
/// `plain` masked.
fn request(plain: &[u8]) -> Vec<u8> {
    let mut p = vec![8u8, 0, 0, 0, 0x12, 0x34, 0, 7];
    p.extend(plain.iter().map(|b| b ^ MASK));
    p
}

fn unmask(b: &[u8]) -> Vec<u8> {
    b.iter().map(|x| x ^ MASK).collect()
}

#[test]
fn password_bytes() {
    assert_eq!(admn_bytes(), PASSWORD.to_vec());
}

#[test]
fn masking_twice_gives_data_back() {
    let data = b"hello, kernel";
    let once = crypt(data);
    assert_eq!(once[0], b'h' ^ 0xba);
    assert_ne!(once, data.to_vec());
    assert_eq!(crypt(&once), data.to_vec());
}

#[test]
fn function_numbers() {
    assert_eq!(RemoteFunction::from(1), RemoteFunction::AdmnCtrl);
    assert_eq!(RemoteFunction::from(2), RemoteFunction::GetPassword);
    assert_eq!(RemoteFunction::from(3), RemoteFunction::SetFlag);
    assert_eq!(RemoteFunction::from(4), RemoteFunction::GetFlag);
    assert_eq!(RemoteFunction::from(9), RemoteFunction::Uknown(9));
}

#[test]
fn stored_flag_is_answered_to_admin() {
    let mut store = FlagStore::new();
    let flag = b"FLAG{abcde}";
    assert_eq!(flag.len(), FLAG_LEN);
    let mut set = vec![3u8];
    set.extend_from_slice(flag);
    assert_eq!(store.handle(&set), ServerAction::Reply(flag.to_vec()));
    assert_eq!(store.len(), 1);
    let mut ctrl = vec![1u8];
    ctrl.extend_from_slice(PASSWORD);
    assert_eq!(store.handle(&ctrl), ServerAction::Reply(flag.to_vec()));
    assert_eq!(store.last_flag(), flag.to_vec());
}

#[test]
fn requests_without_answer() {
    let mut store = FlagStore::new();
    assert_eq!(store.handle(&[]), ServerAction::NoPayload);
    assert_eq!(store.handle(&[7, 1]), ServerAction::UnknownFunction(7));
    assert_eq!(store.handle(&[3, 1, 2]), ServerAction::BadFlagLength(2));
    assert_eq!(store.handle(&[4]), ServerAction::NoReply);
    assert_eq!(store.handle(&[1, b'x']), ServerAction::NoReply);
    assert_eq!(store.handle(&[2]), ServerAction::Reply(PASSWORD.to_vec()));
    assert_eq!(store.len(), 0);
    assert_eq!(store.add_flag(b"short"), Err(5));
    assert_eq!(store.add_flag(b"FLAG{12345}"), Ok(b"FLAG{12345}".to_vec()));
    assert_eq!(store.len(), 1);
}

#[test]
fn echo_reply_carries_masked_answer() {
    let req = request(&[2]);
    let r = reply(&req, b"abc");
    assert_eq!(r.len(), 11);
    assert_eq!(r[0], 0);
    assert_eq!(r[1], 0);
    assert_eq!(&r[4..8], &[0x12, 0x34, 0, 7]);
    assert_eq!(unmask(&r[8..]), b"abc".to_vec());
}

#[test]
fn echo_reply_checksum_covers_plain_data() {
    let req = request(&[2]);
    let r = reply(&req, b"abcd");
    let mut plain = r.clone();
    for b in plain[8..].iter_mut() {
        *b ^= MASK;
    }
    let mut sum: u32 = 0;
    for w in plain.chunks(2) {
        sum += (w[0] as u32) << 8 | w[1] as u32;
    }
    while sum > 0xffff {
        sum = (sum & 0xffff) + (sum >> 16);
    }
    assert_eq!(sum, 0xffff);
}

#[test]
fn packets_through_the_server() {
    let mut store = FlagStore::new();
    assert_eq!(handle_packet(&mut store, &request(&[])), ServerAction::NoPayload);
    assert_eq!(handle_packet(&mut store, &request(&[9])), ServerAction::UnknownFunction(9));
    match handle_packet(&mut store, &request(&[2])) {
        ServerAction::Reply(v) => {
            assert_eq!(&v[4..8], &[0x12, 0x34, 0, 7]);
            assert_eq!(unmask(&v[8..]), PASSWORD.to_vec());
        }
        other => panic!("unexpected {:?}", other),
    }
    let mut set = vec![3u8];
    set.extend_from_slice(b"FLAG{zyxwv}");
    assert!(matches!(handle_packet(&mut store, &request(&set)), ServerAction::Reply(_)));
    let mut ctrl = vec![1u8];
    ctrl.extend_from_slice(PASSWORD);
    match handle_packet(&mut store, &request(&ctrl)) {
        ServerAction::Reply(v) => assert_eq!(unmask(&v[8..]), b"FLAG{zyxwv}".to_vec()),
        other => panic!("unexpected {:?}", other),
    }
    assert_eq!(handle_packet(&mut store, &request(&[3, 0])), ServerAction::BadFlagLength(1));
}

#[test]
fn poll_and_dhcp_timing() {
    assert_eq!(poll_timeout(None), 1);
    assert_eq!(poll_timeout(Some(0)), 1);
    assert_eq!(poll_timeout(Some(250)), 250);
    assert!(!dhcp_timed_out(DHCP_TIMEOUT_MS));
    assert!(dhcp_timed_out(DHCP_TIMEOUT_MS + 1));
}

#[test]
fn echo_reply_keeps_the_request_code() {
    let mut req = request(&[2]);
    req[1] = 5;
    let r = reply(&req, b"abcd");
    assert_eq!(r[0], 0);
    assert_eq!(r[1], 5);
    let mut plain = r.clone();
    for b in plain[8..].iter_mut() {
        *b ^= MASK;
    }
    let mut sum: u32 = 0;
    for w in plain.chunks(2) {
        sum += (w[0] as u32) << 8 | w[1] as u32;
    }
    while sum > 0xffff {
        sum = (sum & 0xffff) + (sum >> 16);
    }
    assert_eq!(sum, 0xffff);
}
