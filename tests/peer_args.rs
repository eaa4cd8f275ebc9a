use consensus_k8s::peer_args::{encode_peers, get_cli_args, NodeAddr};

fn addr(id: &str, address: &str) -> NodeAddr {
    NodeAddr { id: id.to_string(), address: address.to_string() }
}

fn decode(payload: &str) -> Vec<(String, String)> {
    let v: serde_json::Value = serde_json::from_str(payload).unwrap();
    v.as_array()
        .unwrap()
        .iter()
        .map(|r| {
            let o = r.as_object().unwrap();
            assert_eq!(o.len(), 2);
            (
                o["id"].as_str().unwrap().to_string(),
                o["address"].as_str().unwrap().to_string(),
            )
        })
        .collect()
}

#[test]
fn no_peers_give_no_arguments() {
    assert!(get_cli_args(vec![]).is_empty());
}

#[test]
fn one_peer_gives_flag_and_payload() {
    let args = get_cli_args(vec![addr("consensus-node-00", "10.0.0.1:3154")]);
    assert_eq!(
        args,
        vec![
            "--add-gossip-static-outbound".to_string(),
            "[{\"id\":\"consensus-node-00\",\"address\":\"10.0.0.1:3154\"}]".to_string(),
        ]
    );
}

#[test]
fn payload_round_trips_in_order() {
    let peers = vec![
        addr("consensus-node-02", "10.0.0.3"),
        addr("consensus-node-00", "10.0.0.1"),
        addr("consensus-node-01", "10.0.0.2"),
    ];
    let args = get_cli_args(peers);
    assert_eq!(args.len(), 2);
    assert_eq!(
        decode(&args[1]),
        vec![
            ("consensus-node-02".to_string(), "10.0.0.3".to_string()),
            ("consensus-node-00".to_string(), "10.0.0.1".to_string()),
            ("consensus-node-01".to_string(), "10.0.0.2".to_string()),
        ]
    );
}

#[test]
fn special_characters_are_escaped() {
    let peers = vec![addr("a\"b\\c", "x\ny\u{1}z\u{e9}\t\r\u{8}\u{c}\u{1f}/")];
    let payload = encode_peers(&peers);
    assert_eq!(
        payload,
        "[{\"id\":\"a\\\"b\\\\c\",\"address\":\"x\\ny\\u0001z\u{e9}\\t\\r\\b\\f\\u001f/\"}]"
    );
    let strings: Vec<serde_json::Value> = vec![
        serde_json::Value::String("a\"b\\c".to_string()),
        serde_json::Value::String("x\ny\u{1}z\u{e9}\t\r\u{8}\u{c}\u{1f}/".to_string()),
    ];
    let quoted: Vec<String> = strings.iter().map(|v| v.to_string()).collect();
    assert_eq!(payload, format!("[{{\"id\":{},\"address\":{}}}]", quoted[0], quoted[1]));
    assert_eq!(
        decode(&payload),
        vec![("a\"b\\c".to_string(), "x\ny\u{1}z\u{e9}\t\r\u{8}\u{c}\u{1f}/".to_string())]
    );
}

#[test]
fn empty_strings_are_encoded() {
    let payload = encode_peers(&vec![addr("", "")]);
    assert_eq!(payload, "[{\"id\":\"\",\"address\":\"\"}]");
    assert_eq!(decode(&payload), vec![(String::new(), String::new())]);
}
