use mmdf_client::socks::{granted_reply, unreachable_reply, SocksAction, SocksAddr, SocksState};

fn cont(a: &SocksAction) -> (Vec<u8>, usize) {
    match a {
        SocksAction::Continue { reply, read } => (reply.clone(), *read),
        other => panic!("unexpected {:?}", other),
    }
}

#[test]
fn socks_domain_connect() {
    let (s, n) = SocksState::start();
    assert_eq!(n, 2);
    let (s, a) = s.step(&[5, 2]);
    assert_eq!(cont(&a), (vec![], 2));
    let (s, a) = s.step(&[2, 0]);
    assert_eq!(cont(&a), (vec![5, 0], 4));
    let (s, a) = s.step(&[5, 1, 0, 3]);
    assert_eq!(cont(&a), (vec![], 1));
    let (s, a) = s.step(&[11]);
    assert_eq!(cont(&a), (vec![], 11));
    let (s, a) = s.step(b"example.com");
    assert_eq!(cont(&a), (vec![], 2));
    let (_, a) = s.step(&[1, 187]);
    match a {
        SocksAction::Connect(SocksAddr::Domain(d), p) => {
            assert_eq!(d, b"example.com".to_vec());
            assert_eq!(p, 443);
        }
        other => panic!("unexpected {:?}", other),
    }
}

#[test]
fn socks_ipv4_and_ipv6_targets() {
    let (s, _) = SocksState::start();
    let (s, _) = s.step(&[5, 1]);
    let (s, _) = s.step(&[0]);
    let (s, a) = s.step(&[5, 1, 0, 1]);
    assert_eq!(cont(&a), (vec![], 4));
    let (s, _) = s.step(&[10, 0, 0, 7]);
    let (_, a) = s.step(&[0, 80]);
    assert!(matches!(a, SocksAction::Connect(SocksAddr::V4([10, 0, 0, 7]), 80)));

    let (s, _) = SocksState::start();
    let (s, _) = s.step(&[5, 1]);
    let (s, _) = s.step(&[0]);
    let (s, a) = s.step(&[5, 1, 0, 4]);
    assert_eq!(cont(&a), (vec![], 16));
    let (s, _) = s.step(&[0; 16]);
    let (_, a) = s.step(&[0, 22]);
    assert!(matches!(a, SocksAction::Connect(SocksAddr::V6(_), 22)));
}

#[test]
fn socks_refusals() {
    let (s, _) = SocksState::start();
    let (_, a) = s.step(&[4, 1]);
    assert!(matches!(a, SocksAction::Close));

    let (s, _) = SocksState::start();
    let (s, _) = s.step(&[5, 1]);
    let (_, a) = s.step(&[2]);
    match a {
        SocksAction::ReplyAndClose(r) => assert_eq!(r, vec![5, 0xFF]),
        other => panic!("unexpected {:?}", other),
    }

    let (s, _) = SocksState::start();
    let (s, _) = s.step(&[5, 0]);
    let (_, a) = s.step(&[]);
    assert!(matches!(a, SocksAction::ReplyAndClose(ref r) if r == &vec![5, 0xFF]));

    let (s, _) = SocksState::start();
    let (s, _) = s.step(&[5, 1]);
    let (s, _) = s.step(&[0]);
    let (_, a) = s.step(&[5, 2, 0, 1]);
    match a {
        SocksAction::ReplyAndClose(r) => assert_eq!(r, vec![5, 7, 0, 1, 0, 0, 0, 0, 0, 0]),
        other => panic!("unexpected {:?}", other),
    }

    let (s, _) = SocksState::start();
    let (s, _) = s.step(&[5, 1]);
    let (s, _) = s.step(&[0]);
    let (_, a) = s.step(&[5, 1, 0, 9]);
    assert!(matches!(a, SocksAction::Close));
}

#[test]
fn socks_replies() {
    assert_eq!(granted_reply(), vec![5, 0, 0, 1, 0, 0, 0, 0, 0, 0]);
    assert_eq!(unreachable_reply(), vec![5, 4, 0, 1, 0, 0, 0, 0, 0, 0]);
}
