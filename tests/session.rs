use net_monkey::{address_to_string, ipv4, probe_outcome, ScanMessage, ScanSession, ScannedIp};

/// Launches every probe the session allows, then hands back outcomes in
/// the order `pick` chooses among those in flight, collecting the events.
fn drive(
    session: &mut ScanSession,
    reply: &dyn Fn(u32) -> Option<u128>,
    pick: &mut dyn FnMut(usize) -> usize,
) -> Vec<ScanMessage> {
    let mut events = Vec::new();
    let mut in_flight: Vec<(usize, u32)> = Vec::new();
    loop {
        while let Some(p) = session.next_probe() {
            in_flight.push((p.index, p.address));
        }
        if in_flight.is_empty() {
            break;
        }
        let k = pick(in_flight.len());
        let (index, address) = in_flight.remove(k);
        events.extend(session.record(index, reply(address), &Vec::new()));
    }
    events
}

fn result(e: &ScanMessage) -> &ScannedIp {
    match e {
        ScanMessage::Result(r) => r,
        ScanMessage::Complete => panic!("expected a result"),
    }
}

#[test]
fn slash_30_all_probes_fail() {
    let mut s = ScanSession::new(ipv4(192, 168, 1, 0), 30, vec![80], 0);
    let events = drive(&mut s, &|_| None, &mut |_| 0);
    assert_eq!(events.len(), 5);
    let mut seen: Vec<u32> = Vec::new();
    for e in &events[..4] {
        let r = result(e);
        assert!(!r.alive);
        assert!(r.ports.is_empty());
        seen.push(r.ip);
    }
    seen.sort();
    assert_eq!(
        seen,
        vec![ipv4(192, 168, 1, 0), ipv4(192, 168, 1, 1), ipv4(192, 168, 1, 2), ipv4(192, 168, 1, 3)]
    );
    assert!(matches!(events[4], ScanMessage::Complete));
    assert!(s.is_complete());
    assert!(s.is_closed());
}

#[test]
fn single_address_scan() {
    let mut s = ScanSession::new(ipv4(10, 0, 0, 1), 32, Vec::new(), 0);
    assert_eq!(s.target_count(), 1);
    let events = drive(&mut s, &|_| Some(3), &mut |_| 0);
    assert_eq!(events.len(), 2);
    let r = result(&events[0]);
    assert_eq!(address_to_string(r.ip), "10.0.0.1");
    assert!(r.alive);
    assert_eq!(r.ping, 3);
    assert!(matches!(events[1], ScanMessage::Complete));
}

#[test]
fn results_in_completion_order_then_one_complete() {
    // A small linear congruential generator stands in for network latency.
    let mut state: u64 = 0x2545_F491_4F6C_DD1D;
    for round in 0..20u64 {
        state ^= round;
        let mut s = ScanSession::new(ipv4(10, 20, 30, 0), 26, Vec::new(), (round % 5) as usize);
        let mut pick = |n: usize| {
            state = state.wrapping_mul(6364136223846793005).wrapping_add(1442695040888963407);
            ((state >> 33) as usize) % n
        };
        let reply = |a: u32| if a % 3 == 0 { None } else { Some((a % 7) as u128) };
        let events = drive(&mut s, &reply, &mut pick);
        assert_eq!(events.len(), 65);
        let mut seen: Vec<u32> = Vec::new();
        for e in &events[..64] {
            let r = result(e);
            assert_eq!(r.alive, r.ip % 3 != 0);
            seen.push(r.ip);
        }
        assert!(matches!(events[64], ScanMessage::Complete));
        seen.sort();
        let expected: Vec<u32> = (0..64).map(|i| ipv4(10, 20, 30, 0) + i).collect();
        assert_eq!(seen, expected);
    }
}

#[test]
fn arrival_order_is_kept() {
    let mut s = ScanSession::new(ipv4(192, 168, 0, 0), 30, Vec::new(), 0);
    let mut launched = Vec::new();
    while let Some(p) = s.next_probe() {
        launched.push(p);
    }
    assert_eq!(launched.len(), 4);
    let mut order = Vec::new();
    for k in [2usize, 0, 3, 1] {
        let p = launched[k];
        for e in s.record(p.index, Some(1), &Vec::new()) {
            if let ScanMessage::Result(r) = e {
                order.push(r.ip);
            }
        }
    }
    assert_eq!(
        order,
        vec![ipv4(192, 168, 0, 2), ipv4(192, 168, 0, 0), ipv4(192, 168, 0, 3), ipv4(192, 168, 0, 1)]
    );
}

#[test]
fn nothing_after_complete() {
    let mut s = ScanSession::new(ipv4(192, 168, 1, 8), 31, Vec::new(), 0);
    let a = s.next_probe().unwrap();
    let b = s.next_probe().unwrap();
    assert!(s.next_probe().is_none());
    assert_eq!(s.record(b.index, None, &Vec::new()).len(), 1);
    let last = s.record(a.index, Some(9), &Vec::new());
    assert_eq!(last.len(), 2);
    assert!(matches!(last[1], ScanMessage::Complete));
    assert!(s.record(a.index, Some(9), &Vec::new()).is_empty());
    assert!(s.record(b.index, None, &Vec::new()).is_empty());
    assert!(s.record(5, None, &Vec::new()).is_empty());
    assert!(s.next_probe().is_none());
    s.cancel();
    assert!(s.is_complete());
    assert!(!s.is_cancelled());
}

#[test]
fn silent_probe_does_not_hold_back_others() {
    let mut s = ScanSession::new(ipv4(192, 168, 5, 0), 30, Vec::new(), 0);
    let mut launched = Vec::new();
    while let Some(p) = s.next_probe() {
        launched.push(p);
    }
    let mut events = Vec::new();
    for p in &launched[1..] {
        events.extend(s.record(p.index, Some(2), &Vec::new()));
    }
    assert_eq!(events.len(), 3);
    assert!(events.iter().all(|e| matches!(e, ScanMessage::Result(r) if r.alive)));
    // The first probe times out last.
    let tail = s.record(launched[0].index, None, &Vec::new());
    assert_eq!(tail.len(), 2);
    let r = result(&tail[0]);
    assert!(!r.alive);
    assert_eq!(r.ip, ipv4(192, 168, 5, 0));
    assert!(matches!(tail[1], ScanMessage::Complete));
}

#[test]
fn cancel_mid_scan() {
    let mut s = ScanSession::new(ipv4(10, 9, 8, 0), 29, Vec::new(), 0);
    let mut launched = Vec::new();
    while let Some(p) = s.next_probe() {
        launched.push(p);
    }
    assert_eq!(launched.len(), 8);
    assert_eq!(s.record(launched[0].index, Some(1), &Vec::new()).len(), 1);
    s.cancel();
    assert!(s.is_cancelled());
    assert!(!s.is_closed());
    assert_eq!(s.in_flight(), 7);
    for p in &launched[1..] {
        assert!(s.record(p.index, Some(1), &Vec::new()).is_empty());
    }
    assert_eq!(s.in_flight(), 0);
    assert!(s.is_closed());
    assert!(!s.is_complete());
    assert!(s.next_probe().is_none());
}

#[test]
fn cancel_before_all_dispatched() {
    let mut s = ScanSession::new(ipv4(10, 9, 8, 0), 28, Vec::new(), 4);
    let mut launched = Vec::new();
    while let Some(p) = s.next_probe() {
        launched.push(p);
    }
    assert_eq!(launched.len(), 4);
    s.cancel();
    assert!(s.next_probe().is_none());
    for p in &launched {
        assert!(s.record(p.index, None, &Vec::new()).is_empty());
    }
    assert!(s.is_closed());
    assert_eq!(s.resolved_count(), 4);
}

#[test]
fn bounded_fan_out() {
    let mut s = ScanSession::new(ipv4(192, 168, 1, 0), 29, Vec::new(), 3);
    let first = s.next_probe().unwrap();
    let second = s.next_probe().unwrap();
    let third = s.next_probe().unwrap();
    assert!(s.next_probe().is_none());
    assert_eq!(s.in_flight(), 3);
    assert_eq!((first.index, second.index, third.index), (0, 1, 2));
    assert_eq!(third.address, ipv4(192, 168, 1, 2));
    assert_eq!(third.sequence, 2);
    s.record(second.index, None, &Vec::new());
    let fourth = s.next_probe().unwrap();
    assert_eq!(fourth.index, 3);
    assert!(s.next_probe().is_none());
}

#[test]
fn unbounded_fan_out_launches_everything() {
    let mut s = ScanSession::new(ipv4(192, 168, 1, 0), 24, Vec::new(), 0);
    let mut n = 0;
    while let Some(p) = s.next_probe() {
        assert_eq!(p.index, n);
        assert_eq!(p.sequence as usize, n);
        n += 1;
    }
    assert_eq!(n, 256);
    assert_eq!(s.in_flight(), 256);
}

#[test]
fn unknown_index_changes_nothing() {
    let mut s = ScanSession::new(ipv4(192, 168, 1, 0), 30, Vec::new(), 0);
    assert!(s.record(0, Some(1), &Vec::new()).is_empty());
    let p = s.next_probe().unwrap();
    assert!(s.record(p.index + 1, Some(1), &Vec::new()).is_empty());
    assert_eq!(s.resolved_count(), 0);
    assert_eq!(s.record(p.index, Some(1), &Vec::new()).len(), 1);
    assert_eq!(s.resolved_count(), 1);
}

#[test]
fn open_ports_merged_into_outcome() {
    let mut s = ScanSession::new(ipv4(192, 168, 1, 0), 32, vec![22, 80, 443], 0);
    let p = s.next_probe().unwrap();
    let events = s.record(p.index, Some(12), &vec![false, true, true]);
    let r = result(&events[0]);
    assert_eq!(r.ports, vec![80, 443]);
    assert_eq!(r.ports_to_string(), "80, 443");
}

#[test]
fn outcome_of_silent_host() {
    let r = probe_outcome(ipv4(1, 2, 3, 4), None, &vec![22, 80], &vec![true, true]);
    assert!(!r.alive);
    assert_eq!(r.ping, 0);
    assert!(r.ports.is_empty());
    assert_eq!(r.ports_to_string(), "<none>");
    assert_eq!(r.ip, ipv4(1, 2, 3, 4));
}

#[test]
fn outcome_of_live_host() {
    let r = probe_outcome(ipv4(1, 2, 3, 4), Some(40), &vec![22, 80, 8080], &vec![true, false]);
    assert!(r.alive);
    assert_eq!(r.ping, 40);
    assert_eq!(r.ports, vec![22]);
}

#[test]
fn scanned_ip_ports_text() {
    let r = ScannedIp::new(ipv4(8, 8, 8, 8), true, 17, vec![53, 443]);
    assert_eq!(r.ports_to_string(), "53, 443");
    let none = ScannedIp::new(ipv4(8, 8, 4, 4), false, 0, Vec::new());
    assert_eq!(none.ports_to_string(), "<none>");
}
