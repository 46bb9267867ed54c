use yinetd::addr::{IpAddress, SockAddr};
use yinetd::num::clamp;
use yinetd::parse::parse_config_str;
use yinetd::serve::{
    accept_step, event_service_index, listen_plan, retained_indices, should_retain, AcceptOutcome,
    AcceptStep, WaitOutcome, EVENTS_CAPACITY, MAX_WAIT_MS,
};

#[test]
fn clamp_behaviour() {
    assert_eq!(clamp(3, 0, 5), 3);
    assert_eq!(clamp(-2, 0, 5), 0);
    assert_eq!(clamp(9, 0, 5), 5);
    assert_eq!(clamp(0, 0, 0), 0);
}

#[test]
fn accept_policy() {
    assert_eq!(accept_step(&AcceptOutcome::Accepted), AcceptStep::Spawn);
    assert_eq!(accept_step(&AcceptOutcome::WouldBlock), AcceptStep::StopDraining);
    assert_eq!(accept_step(&AcceptOutcome::Failed), AcceptStep::Fail);
}

#[test]
fn reap_policy() {
    assert!(should_retain(&WaitOutcome::StillRunning));
    assert!(!should_retain(&WaitOutcome::Exited));
    assert!(!should_retain(&WaitOutcome::WaitFailed));

    let outcomes = vec![
        WaitOutcome::Exited,
        WaitOutcome::StillRunning,
        WaitOutcome::WaitFailed,
        WaitOutcome::StillRunning,
    ];
    assert_eq!(retained_indices(&outcomes), vec![1, 3]);
    assert_eq!(retained_indices(&vec![]), Vec::<usize>::new());
}

#[test]
fn event_dispatch() {
    assert_eq!(event_service_index(0, true, 2), Some(0));
    assert_eq!(event_service_index(1, true, 2), Some(1));
    assert_eq!(event_service_index(2, true, 2), None);
    assert_eq!(event_service_index(0, false, 2), None);
}

#[test]
fn poll_budget() {
    assert_eq!(MAX_WAIT_MS, 100);
    assert!(EVENTS_CAPACITY >= 1);
}

#[test]
fn listen_plan_of_config() {
    let text = "service a { server = /bin/cat\n port = 7001\n}\nservice b { server = /bin/cat\n port = 7002\n inet_type = ipv6\n}\n";
    let config = parse_config_str(text).unwrap();
    let plan = listen_plan(&config).unwrap();
    assert_eq!(
        plan,
        vec![
            SockAddr { ip: IpAddress::V4(0, 0, 0, 0), port: 7001 },
            SockAddr { ip: IpAddress::V6(0, 0, 0, 0, 0, 0, 0, 0), port: 7002 },
        ]
    );
}

#[test]
fn listen_plan_rejects_mismatch() {
    let text = "service a { server = /bin/cat\n port = 7001\n listen_address = fe80::1\n}\n";
    let config = parse_config_str(text).unwrap();
    let err = listen_plan(&config).unwrap_err();
    match err {
        yinetd::Error::InetVersionAddressMismatch { service_name, .. } => {
            assert_eq!(service_name, "a");
        }
        _ => panic!("wrong error: {:?}", err),
    }
}
