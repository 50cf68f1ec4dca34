use ops_plagiary::{
    default_rpc_nodes, eth_call_body, usize_to_ar_data, ArLinks, ArStep, EthCilent,
    HashDecodeError, RpcAction, RpcEvent,
};
use serde_json::Value;

fn serde_body(data: &str, to: &str) -> String {
    let mut call = serde_json::Map::new();
    call.insert("from".to_string(), Value::String("0x0000000000000000000000000000000000000000".to_string()));
    call.insert("data".to_string(), Value::String(data.to_string()));
    call.insert("to".to_string(), Value::String(to.to_string()));
    let mut top = serde_json::Map::new();
    top.insert("jsonrpc".to_string(), Value::String("2.0".to_string()));
    top.insert("id".to_string(), Value::from(2));
    top.insert("method".to_string(), Value::String("eth_call".to_string()));
    top.insert(
        "params".to_string(),
        Value::Array(vec![Value::Object(call), Value::String("latest".to_string())]),
    );
    serde_json::to_string(&Value::Object(top)).unwrap()
}

fn hex_of(bytes: &[u8]) -> String {
    bytes.iter().map(|b| format!("{:02x}", b)).collect()
}

fn client() -> EthCilent {
    EthCilent::new(
        reqwest::blocking::Client::new(),
        "0x52de2cbad65d709631e5245dbc92a04c0c0de49f".to_string(),
        vec!["https://node-a".to_string(), "https://node-b".to_string()],
    )
}

#[test]
fn first_request_goes_to_first_node() {
    let c = client();
    match c.start_query(7) {
        RpcAction::Send(req) => {
            assert_eq!(req.node, "https://node-a");
            assert_eq!(
                req.body,
                serde_body(&usize_to_ar_data(7), "0x52de2cbad65d709631e5245dbc92a04c0c0de49f")
            );
        }
        RpcAction::Done(_) => panic!("expected a request"),
    }
}

#[test]
fn failed_send_moves_to_next_node() {
    let mut c = client();
    match c.on_event(1, RpcEvent::SendFailed) {
        Ok(RpcAction::Send(req)) => assert_eq!(req.node, "https://node-b"),
        _ => panic!("expected a request to the second node"),
    }
    assert_eq!(c.curent_node_id(), 1);
}

#[test]
fn reply_without_result_moves_on_and_nodes_run_out() {
    let mut c = client();
    let _ = c.on_event(1, RpcEvent::SendFailed);
    let r = c.on_event(1, RpcEvent::Reply("{\"error\":\"rate limited\"}".to_string()));
    assert!(matches!(r, Ok(RpcAction::Done(None))));
    assert_eq!(c.curent_node_id(), 2);
    assert!(matches!(c.start_query(2), RpcAction::Done(None)));
    assert!(matches!(c.on_event(2, RpcEvent::SendFailed), Ok(RpcAction::Done(None))));
    assert_eq!(c.curent_node_id(), 2);
}

#[test]
fn reply_with_result_is_decoded() {
    let mut c = client();
    let reply = format!(
        "{{\"jsonrpc\":\"2.0\",\"id\":2,\"result\":\"0x{}\"}}",
        hex_of(b"\0\0\0ar://x?https://arweave.net/meta1?v=2")
    );
    match c.on_event(1, RpcEvent::Reply(reply)) {
        Ok(RpcAction::Done(Some(link))) => assert_eq!(link, "https://arweave.net/meta1"),
        _ => panic!("expected a decoded link"),
    }
    assert_eq!(c.curent_node_id(), 0);
}

#[test]
fn undecodable_result_is_an_error() {
    let mut c = client();
    let r = c.on_event(1, RpcEvent::Reply("{\"result\":\"0x123\"}".to_string()));
    assert!(matches!(r, Err(HashDecodeError::InvalidHex)));
    let r = c.on_event(1, RpcEvent::Reply("{\"result\":\"0x6162\"}".to_string()));
    assert!(matches!(r, Err(HashDecodeError::MissingSeparator)));
    assert_eq!(c.curent_node_id(), 0);
}

#[test]
fn default_nodes_are_the_five_public_nodes() {
    let nodes = default_rpc_nodes();
    assert_eq!(nodes.len(), 5);
    assert_eq!(nodes[1], "https://cloudflare-eth.com/");
    assert_eq!(nodes[4], "https://eth-mainnet.token.im");
}

#[test]
fn request_body_is_the_serde_json_text() {
    let data = usize_to_ar_data(1);
    assert_eq!(
        eth_call_body(&data, "0xabc"),
        format!("{{\"id\":2,\"jsonrpc\":\"2.0\",\"method\":\"eth_call\",\"params\":[{{\"data\":\"{}\",\"from\":\"0x0000000000000000000000000000000000000000\",\"to\":\"0xabc\"}},\"latest\"]}}", data)
    );
}

#[test]
fn request_body_escapes_like_serde_json() {
    let odd = "a\"b\\c\n\u{1}\u{7f}é\t";
    assert_eq!(eth_call_body("0x1", odd), serde_body("0x1", odd));
}

#[test]
fn arweave_links_are_read_from_token_one_in_order() {
    let mut links = ArLinks::new(3);
    assert!(matches!(links.next_step(), ArStep::Query(1)));
    assert!(matches!(links.on_link(Some("l1".to_string())), ArStep::Query(2)));
    assert!(matches!(links.on_link(Some("l2".to_string())), ArStep::Query(3)));
    match links.on_link(Some("l3".to_string())) {
        ArStep::Done(v) => assert_eq!(v, vec!["l1".to_string(), "l2".to_string(), "l3".to_string()]),
        _ => panic!("expected the links"),
    }
    assert!(!links.has_pending_token());
}

#[test]
fn arweave_links_stop_at_a_missing_link() {
    let mut links = ArLinks::new(5);
    links.on_link(Some("l1".to_string()));
    assert!(matches!(links.on_link(None), ArStep::Failed(2)));
    assert!(matches!(links.next_step(), ArStep::Query(2)));
}

#[test]
fn arweave_collection_of_no_tokens_is_done_at_once() {
    let links = ArLinks::new(0);
    match links.next_step() {
        ArStep::Done(v) => assert!(v.is_empty()),
        _ => panic!("expected no links"),
    }
}
