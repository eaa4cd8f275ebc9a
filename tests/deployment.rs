use consensus_k8s::deployment::{node_deployment, EnvSource, HEALTH_PORT, NODES_PORT};
use consensus_k8s::peer_args::NodeAddr;

fn pair(a: &str, b: &str) -> (String, String) {
    (a.to_string(), b.to_string())
}

#[test]
fn non_seed_node_with_one_peer() {
    let peers = vec![NodeAddr {
        id: "consensus-node-00".to_string(),
        address: "10.0.0.1:3154".to_string(),
    }];
    let d = node_deployment(3, false, peers, "ns1");
    assert_eq!(d.name, "consensus-node-03");
    assert_eq!(d.namespace, "ns1");
    assert_eq!(d.replicas, 1);
    assert_eq!(d.selector, vec![pair("app", "consensus-node-03")]);
    assert_eq!(
        d.labels,
        vec![
            pair("app", "consensus-node-03"),
            pair("id", "consensus-node-03"),
            pair("seed", "false"),
        ]
    );
    assert_eq!(d.container_name, "consensus-node-03");
    assert_eq!(d.image, "consensus-node");
    assert_eq!(
        d.args,
        vec![
            "--add-gossip-static-outbound".to_string(),
            "[{\"id\":\"consensus-node-00\",\"address\":\"10.0.0.1:3154\"}]".to_string(),
        ]
    );
    assert_eq!(d.liveness_probe.path, "/health");
    assert_eq!(d.liveness_probe.port, 3154);
    assert_eq!(d.readiness_probe.path, "/health");
    assert_eq!(d.readiness_probe.port, 3154);
    assert_eq!(d.ports, vec![NODES_PORT, HEALTH_PORT]);
    assert_eq!(d.command, vec!["./k8s_entrypoint.sh".to_string()]);
}

#[test]
fn seed_node_without_peers() {
    let d = node_deployment(0, true, vec![], "ns1");
    assert!(d.args.is_empty());
    assert_eq!(d.labels[2], pair("seed", "true"));
    assert_eq!(d.name, "consensus-node-00");
}

#[test]
fn environment_names_the_node_and_reads_the_pod_address() {
    let d = node_deployment(12, true, vec![], "cluster");
    assert_eq!(d.env.len(), 2);
    assert_eq!(d.env[0].name, "NODE_ID");
    assert!(matches!(&d.env[0].source, EnvSource::Literal(v) if v == "consensus-node-12"));
    assert_eq!(d.env[1].name, "PUBLIC_ADDR");
    assert!(matches!(&d.env[1].source, EnvSource::FieldRef(f) if f == "status.podIP"));
}
