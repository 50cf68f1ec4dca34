use ops_plagiary::{extract_rpc_result, parse_json};

#[test]
fn cuts_the_object_out_of_text() {
    assert_eq!(parse_json("callback({\"a\":{\"b\":1}});"), "{\"a\":{\"b\":1}}");
}

#[test]
fn object_alone_is_unchanged() {
    let s = "{\"image\":\"ipfs://x\"}";
    assert_eq!(parse_json(s), s);
    assert_eq!(parse_json(&parse_json(s)), parse_json(s));
}

#[test]
fn close_brace_right_before_open_brace_gives_empty_text() {
    assert_eq!(parse_json("}{"), "");
}

#[test]
fn reads_result_string() {
    let reply = "{\"jsonrpc\":\"2.0\",\"id\":2,\"result\":\"0x0000abcd\"}";
    assert_eq!(extract_rpc_result(reply), Some("0x0000abcd".to_string()));
}

#[test]
fn result_string_may_be_empty() {
    assert_eq!(extract_rpc_result("{\"result\":\"\"}"), Some(String::new()));
}

#[test]
fn first_result_key_counts() {
    let reply = "{\"result\":\"one\",\"result\":\"two\"}";
    assert_eq!(extract_rpc_result(reply), Some("one".to_string()));
}

#[test]
fn missing_result_is_none() {
    assert_eq!(extract_rpc_result("{\"jsonrpc\":\"2.0\",\"error\":{\"code\":-32000}}"), None);
    assert_eq!(extract_rpc_result("{\"result\":\"unterminated"), None);
    assert_eq!(extract_rpc_result("{\"result\": \"0x1\"}"), None);
}

#[test]
fn works_after_non_ascii_text() {
    assert_eq!(extract_rpc_result("错误\"result\":\"好\""), Some("好".to_string()));
}
