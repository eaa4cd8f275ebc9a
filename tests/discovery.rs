use consensus_k8s::discovery::{
    is_pod_running, next_poll_action, seed_addresses, seed_pods_ready, PodObservation,
    PodStatus, PollAction, PollEvent, MAX_ATTEMPTS, RETRY_INTERVAL_MS,
};
use consensus_k8s::error::{BootstrapError, MissingField};
use consensus_k8s::seed_map::SeedAddressMap;

fn pod(id: &str, phase: &str, ip: &str) -> PodObservation {
    PodObservation {
        id_label: Some(id.to_string()),
        status: Some(PodStatus {
            phase: Some(phase.to_string()),
            pod_ip: Some(ip.to_string()),
        }),
    }
}

fn running(n: usize) -> Vec<PodObservation> {
    (0..n)
        .map(|i| pod(&format!("consensus-node-0{i}"), "Running", &format!("10.0.0.{i}")))
        .collect()
}

/// Drives discovery against a scripted platform: the listing for attempt
/// `k` (from 1) is `script(k)`. Returns the result, the attempts made and
/// the delays waited.
fn run(
    expected: usize,
    script: impl Fn(usize) -> PollEvent,
) -> (Result<SeedAddressMap, BootstrapError>, usize, Vec<u64>) {
    let mut delays = vec![];
    let mut attempt = 1;
    loop {
        match next_poll_action(expected, attempt, script(attempt)) {
            PollAction::Retry { delay_ms } => {
                delays.push(delay_ms);
                attempt += 1;
            }
            PollAction::Finish(r) => return (r, attempt, delays),
        }
    }
}

#[test]
fn succeeds_once_the_seed_pods_run() {
    let (r, attempts, delays) = run(3, |k| {
        if k <= 4 {
            PollEvent::Listed(running(2))
        } else {
            PollEvent::Listed(running(3))
        }
    });
    let m = r.unwrap();
    assert_eq!(attempts, 5);
    assert_eq!(delays, vec![RETRY_INTERVAL_MS; 4]);
    assert_eq!(m.len(), 3);
    for i in 0..3 {
        assert_eq!(
            m.get(&format!("consensus-node-0{i}")),
            Some(format!("10.0.0.{i}"))
        );
    }
}

#[test]
fn pending_pods_and_failures_are_retried() {
    let (r, attempts, _) = run(2, |k| match k {
        1 => PollEvent::ListFailed("connection refused".to_string()),
        2 => PollEvent::Listed(vec![pod("a", "Pending", ""), pod("b", "Running", "10.1.0.2")]),
        _ => PollEvent::Listed(vec![pod("a", "Running", "10.1.0.1"), pod("b", "Running", "10.1.0.2")]),
    });
    assert_eq!(attempts, 3);
    assert_eq!(r.unwrap().get(&"a".to_string()), Some("10.1.0.1".to_string()));
}

#[test]
fn gives_up_after_the_attempt_budget() {
    let (r, attempts, delays) = run(3, |_| PollEvent::Listed(running(2)));
    assert!(matches!(r, Err(BootstrapError::NotReady)));
    assert_eq!(attempts, 15);
    assert_eq!(MAX_ATTEMPTS, 15);
    assert_eq!(delays, vec![1000; 14]);
}

#[test]
fn too_many_pods_are_not_ready() {
    assert!(!seed_pods_ready(2, &running(3)));
    assert!(seed_pods_ready(3, &running(3)));
    assert!(seed_pods_ready(0, &vec![]));
}

#[test]
fn running_needs_the_running_phase() {
    assert!(is_pod_running(&pod("a", "Running", "1")));
    assert!(!is_pod_running(&pod("a", "Pending", "1")));
    assert!(!is_pod_running(&pod("a", "running", "1")));
    assert!(!is_pod_running(&PodObservation { id_label: None, status: None }));
    assert!(!is_pod_running(&PodObservation {
        id_label: None,
        status: Some(PodStatus { phase: None, pod_ip: None }),
    }));
}

#[test]
fn running_pod_without_address_fails_at_once() {
    let pods = vec![
        pod("a", "Running", "10.0.0.1"),
        PodObservation {
            id_label: Some("b".to_string()),
            status: Some(PodStatus { phase: Some("Running".to_string()), pod_ip: None }),
        },
    ];
    let (r, attempts, _) = run(2, |_| {
        PollEvent::Listed(vec![
            pod("a", "Running", "10.0.0.1"),
            PodObservation {
                id_label: Some("b".to_string()),
                status: Some(PodStatus { phase: Some("Running".to_string()), pod_ip: None }),
            },
        ])
    });
    assert_eq!(attempts, 1);
    assert!(matches!(r, Err(BootstrapError::MalformedResponse(MissingField::PodIp))));
    assert!(matches!(
        seed_addresses(&pods),
        Err(BootstrapError::MalformedResponse(MissingField::PodIp))
    ));
}

#[test]
fn missing_label_or_status_is_reported() {
    let no_label = vec![PodObservation {
        id_label: None,
        status: Some(PodStatus { phase: Some("Running".to_string()), pod_ip: Some("1".to_string()) }),
    }];
    assert!(matches!(
        seed_addresses(&no_label),
        Err(BootstrapError::MalformedResponse(MissingField::IdLabel))
    ));
    let no_status = vec![PodObservation { id_label: Some("a".to_string()), status: None }];
    assert!(matches!(
        seed_addresses(&no_status),
        Err(BootstrapError::MalformedResponse(MissingField::Status))
    ));
}

#[test]
fn duplicate_labels_overwrite() {
    let m = seed_addresses(&vec![pod("a", "Running", "1"), pod("a", "Running", "2")]).unwrap();
    assert_eq!(m.len(), 1);
    assert_eq!(m.get(&"a".to_string()), Some("2".to_string()));
}

#[test]
fn seed_map_insert_get_and_list() {
    let mut m = SeedAddressMap::new();
    assert_eq!(m.len(), 0);
    assert_eq!(m.get(&"x".to_string()), None);
    m.insert("x".to_string(), "1".to_string());
    m.insert("y".to_string(), "2".to_string());
    m.insert("x".to_string(), "3".to_string());
    assert_eq!(m.len(), 2);
    let v = m.to_vec();
    let pairs: Vec<(String, String)> = v.into_iter().map(|a| (a.id, a.address)).collect();
    assert_eq!(
        pairs,
        vec![("x".to_string(), "3".to_string()), ("y".to_string(), "2".to_string())]
    );
}

#[test]
fn running_pod_with_empty_address_is_malformed() {
    let pods = vec![pod("a", "Running", "")];
    assert!(matches!(
        seed_addresses(&pods),
        Err(BootstrapError::MalformedResponse(MissingField::PodIp))
    ));
    let (r, attempts, _) = run(1, |_| PollEvent::Listed(vec![pod("a", "Running", "")]));
    assert_eq!(attempts, 1);
    assert!(matches!(r, Err(BootstrapError::MalformedResponse(MissingField::PodIp))));
}
