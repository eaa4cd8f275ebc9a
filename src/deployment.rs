//! The deployment of one consensus node: a single-replica workload whose pod
//! runs the node image with its identity, role and peer arguments.

use vstd::prelude::*;
use vstd::string::*;
use crate::naming::{node_name, node_name_of};
use crate::peer_args::{cli_args_of, get_cli_args, peers_view, NodeAddr};

verus! {

/// The port on which a node serves consensus traffic.
pub const NODES_PORT: u16 = 3054;

/// The port on which a node serves its health endpoint.
pub const HEALTH_PORT: u16 = 3154;

/// Where an environment variable takes its value from.
pub enum EnvSource {
    /// A fixed value.
    Literal(String),
    /// A field of the pod, read when the pod starts (e.g. `status.podIP`).
    FieldRef(String),
}

pub struct EnvVar {
    pub name: String,
    pub source: EnvSource,
}

/// An HTTP GET probe.
pub struct HttpProbe {
    pub path: String,
    pub port: u16,
}

/// Everything the platform needs to run one node.
pub struct NodeDeployment {
    pub name: String,
    pub namespace: String,
    pub replicas: i32,
    /// Labels the workload selects its pods by.
    pub selector: Vec<(String, String)>,
    /// Labels of the pod template.
    pub labels: Vec<(String, String)>,
    pub container_name: String,
    pub image: String,
    pub image_pull_policy: String,
    pub env: Vec<EnvVar>,
    pub command: Vec<String>,
    pub args: Vec<String>,
    pub ports: Vec<u16>,
    pub liveness_probe: HttpProbe,
    pub readiness_probe: HttpProbe,
}

pub open spec fn pairs_view(v: Seq<(String, String)>) -> Seq<(Seq<char>, Seq<char>)> {
    v.map_values(|p: (String, String)| (p.0@, p.1@))
}

pub open spec fn strings_view(v: Seq<String>) -> Seq<Seq<char>> {
    v.map_values(|s: String| s@)
}

pub open spec fn bool_text(b: bool) -> Seq<char> {
    if b { "true"@ } else { "false"@ }
}

/// The pod-template labels of a node: `app` and `id` carry its name, `seed`
/// its role.
pub open spec fn node_labels(name: Seq<char>, is_seed: bool) -> Seq<(Seq<char>, Seq<char>)> {
    seq![("app"@, name), ("id"@, name), ("seed"@, bool_text(is_seed))]
}

pub open spec fn is_health_probe(p: HttpProbe) -> bool {
    p.path@ == "/health"@ && p.port == HEALTH_PORT
}

/// `d` is the deployment of node `node_index` in `namespace`, with the given
/// role and peers.
pub open spec fn is_node_deployment(
    d: NodeDeployment,
    node_index: nat,
    is_seed: bool,
    peers: Seq<(Seq<char>, Seq<char>)>,
    namespace: Seq<char>,
) -> bool {
    let name = node_name_of(node_index);
    &&& d.name@ == name
    &&& d.namespace@ == namespace
    &&& d.replicas == 1
    &&& pairs_view(d.selector@) == seq![("app"@, name)]
    &&& pairs_view(d.labels@) == node_labels(name, is_seed)
    &&& d.container_name@ == name
    &&& d.image@ == "consensus-node"@
    &&& d.image_pull_policy@ == "Never"@
    &&& d.env@.len() == 2
    &&& d.env@[0].name@ == "NODE_ID"@
    &&& d.env@[0].source matches EnvSource::Literal(v) && v@ == name
    &&& d.env@[1].name@ == "PUBLIC_ADDR"@
    &&& d.env@[1].source matches EnvSource::FieldRef(f) && f@ == "status.podIP"@
    &&& strings_view(d.command@) == seq!["./k8s_entrypoint.sh"@]
    &&& strings_view(d.args@) == cli_args_of(peers)
    &&& d.ports@ == seq![NODES_PORT, HEALTH_PORT]
    &&& is_health_probe(d.liveness_probe)
    &&& is_health_probe(d.readiness_probe)
}

fn pair(a: &str, b: &String) -> (r: (String, String))
    ensures
        r.0@ == a@,
        r.1@ == b@,
{
    (String::from_str(a), b.clone())
}

fn health_probe() -> (p: HttpProbe)
    ensures
        is_health_probe(p),
{
    HttpProbe { path: String::from_str("/health"), port: HEALTH_PORT }
}

/// Builds the deployment of node `node_index`; seed nodes get no peers, the
/// others the discovered seed addresses.
pub fn node_deployment(
    node_index: usize,
    is_seed: bool,
    peers: Vec<NodeAddr>,
    namespace: &str,
) -> (d: NodeDeployment)
    ensures
        is_node_deployment(d, node_index as nat, is_seed, peers_view(peers@), namespace@),
{
    let ghost pv = peers_view(peers@);
    let args = get_cli_args(peers);
    let name = node_name(node_index);
    let seed_text = if is_seed { String::from_str("true") } else { String::from_str("false") };
    let selector = vec![pair("app", &name)];
    let labels = vec![pair("app", &name), pair("id", &name), pair("seed", &seed_text)];
    let env = vec![
        EnvVar { name: String::from_str("NODE_ID"), source: EnvSource::Literal(name.clone()) },
        EnvVar {
            name: String::from_str("PUBLIC_ADDR"),
            source: EnvSource::FieldRef(String::from_str("status.podIP")),
        },
    ];
    let command = vec![String::from_str("./k8s_entrypoint.sh")];
    let d = NodeDeployment {
        name: name.clone(),
        namespace: String::from_str(namespace),
        replicas: 1,
        selector,
        labels,
        container_name: name,
        image: String::from_str("consensus-node"),
        image_pull_policy: String::from_str("Never"),
        env,
        command,
        args,
        ports: vec![NODES_PORT, HEALTH_PORT],
        liveness_probe: health_probe(),
        readiness_probe: health_probe(),
    };
    assert(pairs_view(d.selector@) =~= seq![("app"@, node_name_of(node_index as nat))]);
    assert(pairs_view(d.labels@) =~= node_labels(node_name_of(node_index as nat), is_seed));
    assert(strings_view(d.command@) =~= seq!["./k8s_entrypoint.sh"@]);
    assert(strings_view(d.args@) =~= cli_args_of(pv));
    assert(d.ports@ =~= seq![NODES_PORT, HEALTH_PORT]);
    d
}

} // verus!
