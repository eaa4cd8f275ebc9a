//! Discovery of the seed nodes' addresses: the platform is polled for the
//! seed pods at a fixed interval until the expected number of them are all
//! running, then each pod's identity label and address are collected.
//!
//! The decisions live here; the caller lists the pods, sleeps and retries as
//! each decision says.

use vstd::prelude::*;
use vstd::string::*;
use crate::error::{BootstrapError, MissingField};
use crate::seed_map::{binding_map, ids_distinct, SeedAddressMap};

verus! {

/// How many times the seed pods are listed before giving up.
pub const MAX_ATTEMPTS: usize = 15;

/// The pause between two listings, in milliseconds.
pub const RETRY_INTERVAL_MS: u64 = 1000;

/// The parts of a pod's status that discovery reads.
pub struct PodStatus {
    pub phase: Option<String>,
    pub pod_ip: Option<String>,
}

/// What discovery reads of one seed pod.
pub struct PodObservation {
    /// The pod's `id` label.
    pub id_label: Option<String>,
    pub status: Option<PodStatus>,
}

/// The answer to one listing of the seed pods.
pub enum PollEvent {
    Listed(Vec<PodObservation>),
    ListFailed(String),
}

/// What to do after a listing.
pub enum PollAction {
    /// Wait this long, then list again.
    Retry { delay_ms: u64 },
    /// Stop with this result.
    Finish(Result<SeedAddressMap, BootstrapError>),
}

pub open spec fn pod_running(p: PodObservation) -> bool {
    &&& p.status is Some
    &&& p.status->Some_0.phase is Some
    &&& p.status->Some_0.phase->Some_0@ == "Running"@
}

/// Exactly `expected` pods, all of them running.
pub open spec fn pods_ready(expected: nat, pods: Seq<PodObservation>) -> bool {
    &&& pods.len() == expected
    &&& forall|i: int| 0 <= i < pods.len() ==> pod_running(#[trigger] pods[i])
}

pub open spec fn event_ready(expected: nat, ev: PollEvent) -> bool {
    ev is Listed && pods_ready(expected, ev->Listed_0@)
}

/// The pod carries both its identity label and a non-empty address.
pub open spec fn pod_complete(p: PodObservation) -> bool {
    &&& p.id_label is Some
    &&& p.status is Some
    &&& p.status->Some_0.pod_ip is Some
    &&& p.status->Some_0.pod_ip->Some_0@.len() > 0
}

/// The first field that an incomplete pod lacks.
pub open spec fn missing_field(p: PodObservation) -> MissingField {
    if p.id_label is None {
        MissingField::IdLabel
    } else if p.status is None {
        MissingField::Status
    } else {
        MissingField::PodIp
    }
}

/// The field lacking in the first incomplete pod, if any.
pub open spec fn first_missing(pods: Seq<PodObservation>) -> Option<MissingField>
    decreases pods.len(),
{
    if pods.len() == 0 {
        None
    } else if !pod_complete(pods[0]) {
        Some(missing_field(pods[0]))
    } else {
        first_missing(pods.drop_first())
    }
}

pub open spec fn pod_binding(p: PodObservation) -> (Seq<char>, Seq<char>) {
    (p.id_label->Some_0@, p.status->Some_0.pod_ip->Some_0@)
}

pub open spec fn pod_bindings(pods: Seq<PodObservation>) -> Seq<(Seq<char>, Seq<char>)> {
    pods.map_values(|p: PodObservation| pod_binding(p))
}

/// The address map that a ready set of pods yields.
pub open spec fn addresses_outcome(pods: Seq<PodObservation>) -> Result<
    Map<Seq<char>, Seq<char>>,
    BootstrapError,
> {
    match first_missing(pods) {
        None => Ok(binding_map(pod_bindings(pods))),
        Some(f) => Err(BootstrapError::MalformedResponse(f)),
    }
}

/// The outcome of attempt number `attempt` (from 1): `None` to list again
/// after the interval, else the final result.
pub open spec fn step_outcome(expected: nat, attempt: nat, ev: PollEvent) -> Option<
    Result<Map<Seq<char>, Seq<char>>, BootstrapError>,
> {
    if event_ready(expected, ev) {
        Some(addresses_outcome(ev->Listed_0@))
    } else if attempt < MAX_ATTEMPTS {
        None
    } else {
        Some(Err(BootstrapError::NotReady))
    }
}

pub open spec fn action_outcome(a: PollAction) -> Option<
    Result<Map<Seq<char>, Seq<char>>, BootstrapError>,
> {
    match a {
        PollAction::Retry { .. } => None,
        PollAction::Finish(Ok(m)) => Some(Ok(m@)),
        PollAction::Finish(Err(e)) => Some(Err(e)),
    }
}

/// The attempts made and the result, when the platform answers attempt
/// `k + 1` with `script[k]`, starting after `k` attempts.
pub open spec fn discovery_run(expected: nat, script: Seq<PollEvent>, k: nat) -> (
    nat,
    Result<Map<Seq<char>, Seq<char>>, BootstrapError>,
)
    decreases MAX_ATTEMPTS - k,
{
    if k >= MAX_ATTEMPTS {
        (k, Err(BootstrapError::NotReady))
    } else {
        match step_outcome(expected, k + 1, script[k as int]) {
            Some(r) => (k + 1, r),
            None => discovery_run(expected, script, k + 1),
        }
    }
}

/// Whether the pod reports the running phase.
pub fn is_pod_running(pod: &PodObservation) -> (r: bool)
    ensures
        r == pod_running(*pod),
{
    match &pod.status {
        Some(status) => match &status.phase {
            Some(phase) => {
                let running = String::from_str("Running");
                phase.eq(&running)
            },
            None => false,
        },
        None => false,
    }
}

/// Whether a listing holds exactly `expected` pods, all running.
pub fn seed_pods_ready(expected: usize, pods: &Vec<PodObservation>) -> (r: bool)
    ensures
        r == pods_ready(expected as nat, pods@),
{
    if pods.len() != expected {
        return false;
    }
    let mut i: usize = 0;
    while i < pods.len()
        invariant
            i <= pods@.len(),
            forall|j: int| 0 <= j < i ==> pod_running(#[trigger] pods@[j]),
        decreases pods@.len() - i,
    {
        if !is_pod_running(&pods[i]) {
            return false;
        }
        i += 1;
    }
    true
}

proof fn lemma_first_missing_skip(pods: Seq<PodObservation>, i: int)
    requires
        0 <= i <= pods.len(),
        forall|j: int| 0 <= j < i ==> pod_complete(#[trigger] pods[j]),
    ensures
        first_missing(pods) == first_missing(pods.subrange(i, pods.len() as int)),
    decreases i,
{
    if i > 0 {
        lemma_first_missing_skip(pods.drop_first(), i - 1);
        assert(pods.drop_first().subrange(i - 1, pods.len() - 1) =~= pods.subrange(i, pods.len() as int));
        assert(pod_complete(pods[0]));
    } else {
        assert(pods.subrange(0, pods.len() as int) =~= pods);
    }
}

proof fn lemma_first_missing_none(pods: Seq<PodObservation>)
    requires
        forall|j: int| 0 <= j < pods.len() ==> pod_complete(#[trigger] pods[j]),
    ensures
        first_missing(pods) is None,
    decreases pods.len(),
{
    if pods.len() > 0 {
        assert(forall|j: int| 0 <= j < pods.len() - 1 ==> pods.drop_first()[j] == pods[j + 1]);
        lemma_first_missing_none(pods.drop_first());
    }
}

proof fn lemma_missing_at(pods: Seq<PodObservation>, i: int)
    requires
        0 <= i < pods.len(),
        forall|j: int| 0 <= j < i ==> pod_complete(#[trigger] pods[j]),
        !pod_complete(pods[i]),
    ensures
        first_missing(pods) == Some(missing_field(pods[i])),
{
    lemma_first_missing_skip(pods, i);
    assert(pods.subrange(i, pods.len() as int)[0] == pods[i]);
}

/// Collects each pod's identity label and address; fails on the first pod
/// that lacks either or reports an empty address.
pub fn seed_addresses(pods: &Vec<PodObservation>) -> (r: Result<SeedAddressMap, BootstrapError>)
    ensures
        match r {
            Ok(m) => {
                &&& m.wf()
                &&& addresses_outcome(pods@) == Ok::<_, BootstrapError>(m@)
                &&& forall|k: Seq<char>| #[trigger] m@.contains_key(k) ==> m@[k].len() > 0
            },
            Err(e) => addresses_outcome(pods@) == Err::<Map<Seq<char>, Seq<char>>, _>(e),
        },
{
    let mut map = SeedAddressMap::new();
    let mut i: usize = 0;
    assert(pod_bindings(pods@).take(0) =~= Seq::<(Seq<char>, Seq<char>)>::empty());
    while i < pods.len()
        invariant
            i <= pods@.len(),
            map.wf(),
            map@ == binding_map(pod_bindings(pods@).take(i as int)),
            forall|k: Seq<char>| #[trigger] map@.contains_key(k) ==> map@[k].len() > 0,
            forall|j: int| 0 <= j < i ==> pod_complete(#[trigger] pods@[j]),
        decreases pods@.len() - i,
    {
        let p = &pods[i];
        let id = match &p.id_label {
            Some(id) => id.clone(),
            None => {
                proof {
                    lemma_missing_at(pods@, i as int);
                }
                return Err(BootstrapError::MalformedResponse(MissingField::IdLabel));
            },
        };
        let status = match &p.status {
            Some(status) => status,
            None => {
                proof {
                    lemma_missing_at(pods@, i as int);
                }
                return Err(BootstrapError::MalformedResponse(MissingField::Status));
            },
        };
        let ip = match &status.pod_ip {
            Some(ip) => ip.clone(),
            None => {
                proof {
                    lemma_missing_at(pods@, i as int);
                }
                return Err(BootstrapError::MalformedResponse(MissingField::PodIp));
            },
        };
        if ip.as_str().is_empty() {
            proof {
                lemma_missing_at(pods@, i as int);
            }
            return Err(BootstrapError::MalformedResponse(MissingField::PodIp));
        }
        map.insert(id, ip);
        proof {
            let t = pod_bindings(pods@).take(i + 1);
            assert(t.drop_last() =~= pod_bindings(pods@).take(i as int));
            assert(t.last() == pod_binding(pods@[i as int]));
        }
        i += 1;
    }
    proof {
        lemma_first_missing_none(pods@);
        assert(pod_bindings(pods@).take(i as int) =~= pod_bindings(pods@));
    }
    Ok(map)
}

/// Decides what follows attempt number `attempt` (from 1): collect the
/// addresses once exactly `expected` pods are all running, else list again
/// after the interval, until the attempts are spent.
pub fn next_poll_action(expected: usize, attempt: usize, event: PollEvent) -> (a: PollAction)
    requires
        1 <= attempt <= MAX_ATTEMPTS,
    ensures
        action_outcome(a) == step_outcome(expected as nat, attempt as nat, event),
        a matches PollAction::Retry { delay_ms } ==> delay_ms == RETRY_INTERVAL_MS,
        a matches PollAction::Finish(Ok(m)) ==> m.wf(),
{
    if let PollEvent::Listed(pods) = &event {
        if seed_pods_ready(expected, pods) {
            return PollAction::Finish(seed_addresses(pods));
        }
    }
    if attempt < MAX_ATTEMPTS {
        PollAction::Retry { delay_ms: RETRY_INTERVAL_MS }
    } else {
        PollAction::Finish(Err(BootstrapError::NotReady))
    }
}

proof fn lemma_run_skips(expected: nat, script: Seq<PollEvent>, k: nat, target: nat)
    requires
        k <= target < MAX_ATTEMPTS,
        forall|j: int| k <= j < target ==> !event_ready(expected, #[trigger] script[j]),
    ensures
        discovery_run(expected, script, k) == discovery_run(expected, script, target),
    decreases target - k,
{
    if k < target {
        assert(!event_ready(expected, script[k as int]));
        lemma_run_skips(expected, script, k + 1, target);
    }
}

/// When the first `k` listings fall short and listing `k + 1` (within the
/// budget) shows exactly `expected` running seed pods, each labelled with a
/// distinct id and carrying an address, discovery succeeds after `k + 1`
/// attempts with exactly `expected` entries, each id bound to its pod's
/// address, and every address non-empty.
pub proof fn lemma_discovery_succeeds_once_ready(
    expected: nat,
    script: Seq<PollEvent>,
    k: nat,
)
    requires
        k < MAX_ATTEMPTS,
        k < script.len(),
        forall|j: int| 0 <= j < k ==> !event_ready(expected, #[trigger] script[j]),
        event_ready(expected, script[k as int]),
        forall|i: int| 0 <= i < script[k as int]->Listed_0@.len()
            ==> pod_complete(#[trigger] script[k as int]->Listed_0@[i]),
        ids_distinct(pod_bindings(script[k as int]->Listed_0@)),
    ensures
        discovery_run(expected, script, 0) == (
            k + 1,
            Ok::<_, BootstrapError>(binding_map(pod_bindings(script[k as int]->Listed_0@))),
        ),
        binding_map(pod_bindings(script[k as int]->Listed_0@)).dom().len() == expected,
        forall|i: int| 0 <= i < expected ==> {
            let p = #[trigger] script[k as int]->Listed_0@[i];
            binding_map(pod_bindings(script[k as int]->Listed_0@))[p.id_label->Some_0@]
                == p.status->Some_0.pod_ip->Some_0@
        },
        forall|key: Seq<char>| #[trigger] binding_map(pod_bindings(script[k as int]->Listed_0@)).contains_key(key)
            ==> binding_map(pod_bindings(script[k as int]->Listed_0@))[key].len() > 0,
{
    let pods = script[k as int]->Listed_0@;
    lemma_run_skips(expected, script, 0, k);
    lemma_first_missing_none(pods);
    crate::seed_map::lemma_binding_map_size(pod_bindings(pods));
    assert forall|i: int| 0 <= i < pod_bindings(pods).len() implies (#[trigger] pod_bindings(pods)[i]).1.len() > 0 by {
        assert(pod_complete(pods[i]));
    }
    crate::seed_map::lemma_binding_map_values_non_empty(pod_bindings(pods));
    assert forall|i: int| 0 <= i < expected implies {
        let p = #[trigger] pods[i];
        binding_map(pod_bindings(pods))[p.id_label->Some_0@] == p.status->Some_0.pod_ip->Some_0@
    } by {
        crate::seed_map::lemma_binding_map_distinct_at(pod_bindings(pods), i);
    }
}

/// When no listing within the budget shows the expected running seed pods,
/// discovery makes exactly `MAX_ATTEMPTS` attempts, waits the interval after
/// each but the last, and fails with `NotReady`.
pub proof fn lemma_discovery_gives_up(expected: nat, script: Seq<PollEvent>)
    requires
        script.len() >= MAX_ATTEMPTS,
        forall|j: int| 0 <= j < MAX_ATTEMPTS ==> !event_ready(expected, #[trigger] script[j]),
    ensures
        discovery_run(expected, script, 0) == (
            MAX_ATTEMPTS as nat,
            Err::<Map<Seq<char>, Seq<char>>, _>(BootstrapError::NotReady),
        ),
        forall|j: int| 0 <= j < MAX_ATTEMPTS - 1
            ==> step_outcome(expected, (j + 1) as nat, #[trigger] script[j]) is None,
{
    lemma_run_skips(expected, script, 0, (MAX_ATTEMPTS - 1) as nat);
    assert(!event_ready(expected, script[MAX_ATTEMPTS - 1]));
    reveal_with_fuel(discovery_run, 2);
}

} // verus!
