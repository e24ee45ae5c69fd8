use codex_kernel::responses::{
    attach_stateful_response_item_ids, attach_stateless_response_item_ids, Compression,
    ResponseItem,
};
use serde_json::Value;

fn some(id: &str) -> Option<String> {
    Some(id.to_string())
}

fn all_items() -> Vec<ResponseItem> {
    vec![
        ResponseItem::Message { id: some("msg_1") },
        ResponseItem::AgentMessage { id: some("amsg_1") },
        ResponseItem::Reasoning { id: "rs_1".to_string() },
        ResponseItem::LocalShellCall { id: some("lsh_1") },
        ResponseItem::FunctionCall { id: some("fc_1") },
        ResponseItem::ToolSearchCall { id: some("tsc_1") },
        ResponseItem::FunctionCallOutput { id: some("fco_1") },
        ResponseItem::CustomToolCall { id: some("ctc_1") },
        ResponseItem::CustomToolCallOutput { id: some("ctco_1") },
        ResponseItem::ToolSearchOutput { id: some("tso_1") },
        ResponseItem::WebSearchCall { id: some("ws_1") },
        ResponseItem::ImageGenerationCall { id: "ig_1".to_string() },
        ResponseItem::Compaction { id: some("cmp_1") },
    ]
}

fn object(kind: &str) -> Value {
    let mut fields = serde_json::Map::new();
    fields.insert("type".to_string(), Value::String(kind.to_string()));
    Value::Object(fields)
}

fn payload(items: Vec<Value>) -> Value {
    let mut fields = serde_json::Map::new();
    fields.insert("model".to_string(), Value::String("m".to_string()));
    fields.insert("input".to_string(), Value::Array(items));
    Value::Object(fields)
}

fn ids(payload: &Value) -> Vec<Option<String>> {
    payload["input"]
        .as_array()
        .expect("input array")
        .iter()
        .map(|item| item.get("id").map(|id| id.as_str().expect("item id").to_string()))
        .collect()
}

#[test]
fn attaches_stateless_response_item_ids_to_input_json() {
    let items = all_items();
    let mut request = payload(items.iter().map(|_| object("item")).collect());

    attach_stateless_response_item_ids(&mut request, &items);

    let attached = ids(&request)
        .into_iter()
        .map(|id| id.expect("item id"))
        .collect::<Vec<_>>();
    assert_eq!(
        attached,
        vec![
            "msg_1", "amsg_1", "rs_1", "lsh_1", "fc_1", "tsc_1", "fco_1", "ctc_1", "ctco_1",
            "tso_1", "ws_1", "ig_1", "cmp_1",
        ]
    );
    assert_eq!(request["model"], Value::String("m".to_string()));
    assert_eq!(request["input"][0]["type"], Value::String("item".to_string()));
}

#[test]
fn attach_stateless_response_item_ids_leaves_missing_ids_unchanged() {
    let items = vec![ResponseItem::Message { id: None }];
    let mut request = payload(vec![object("message")]);

    attach_stateless_response_item_ids(&mut request, &items);

    assert_eq!(request["input"][0].get("id"), None);
}

#[test]
fn stateful_requests_attach_fewer_ids() {
    let items = all_items();
    let mut request = payload(items.iter().map(|_| object("item")).collect());
    attach_stateful_response_item_ids(&mut request, &items);
    assert_eq!(
        ids(&request),
        vec![
            some("msg_1"),
            None,
            some("rs_1"),
            some("lsh_1"),
            some("fc_1"),
            some("tsc_1"),
            None,
            some("ctc_1"),
            None,
            None,
            some("ws_1"),
            None,
            None,
        ]
    );
}

#[test]
fn empty_ids_are_not_attached() {
    let items = vec![
        ResponseItem::Reasoning { id: String::new() },
        ResponseItem::Message { id: some("") },
        ResponseItem::Other,
    ];
    let mut request = payload(vec![object("a"), object("b"), object("c")]);
    attach_stateful_response_item_ids(&mut request, &items);
    attach_stateless_response_item_ids(&mut request, &items);
    assert_eq!(ids(&request), vec![None, None, None]);
}

#[test]
fn an_old_id_is_replaced() {
    let mut item = object("message");
    item["id"] = Value::String("old".to_string());
    let mut request = payload(vec![item]);
    attach_stateful_response_item_ids(
        &mut request,
        &[ResponseItem::Message { id: some("new") }],
    );
    assert_eq!(ids(&request), vec![some("new")]);
}

#[test]
fn items_that_are_no_objects_and_surplus_items_stay() {
    let mut request = payload(vec![Value::Bool(true), object("a"), object("b")]);
    let items = vec![
        ResponseItem::Message { id: some("x") },
        ResponseItem::Message { id: some("y") },
    ];
    attach_stateless_response_item_ids(&mut request, &items);
    assert_eq!(request["input"][0], Value::Bool(true));
    assert_eq!(request["input"][1]["id"], Value::String("y".to_string()));
    assert_eq!(request["input"][2], object("b"));
}

#[test]
fn requests_without_an_input_array_stay() {
    let items = all_items();
    for before in [Value::Null, object("x"), {
        let mut v = object("x");
        v["input"] = Value::String("text".to_string());
        v
    }] {
        let mut after = before.clone();
        attach_stateful_response_item_ids(&mut after, &items);
        attach_stateless_response_item_ids(&mut after, &items);
        assert_eq!(after, before);
    }
}

#[test]
fn bodies_are_not_compressed_by_default() {
    assert_eq!(Compression::default(), Compression::Uncompressed);
    assert_ne!(Compression::default(), Compression::Zstd);
}
