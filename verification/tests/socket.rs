use lx_music_sync::server::socket::dto::{request_name, EnabledFeatures, ListConfig, Req, Resp};
use lx_music_sync::server::socket::{
    action_name, decode_incoming, frame_outgoing, heartbeat_action, request_base_name, route_request,
    should_forward, DataType, HeartbeatAction, RequestRoute,
};

#[test]
fn short_frames_go_plain() {
    let text = "{\"name\":\"x\"}".to_string();
    assert_eq!(frame_outgoing(text.clone()), text);
    assert_eq!(decode_incoming(&text), Some(text.into_bytes()));
}

#[test]
fn long_frames_go_compressed() {
    let text = "a".repeat(2000);
    let frame = frame_outgoing(text.clone());
    assert!(frame.starts_with("cg_"));
    assert!(frame.len() < 2000);
    assert_eq!(decode_incoming(&frame), Some(text.into_bytes()));
}

#[test]
fn frame_of_exactly_1024_bytes_goes_plain() {
    let text = "b".repeat(1024);
    assert_eq!(frame_outgoing(text.clone()), text);
    let longer = "b".repeat(1025);
    assert!(frame_outgoing(longer).starts_with("cg_"));
}

#[test]
fn broken_compressed_frame_is_refused() {
    assert_eq!(decode_incoming("cg_!!!"), None);
}

#[test]
fn base_name_cuts_at_first_separator() {
    assert_eq!(request_base_name("onListSyncAction__12"), "onListSyncAction");
    assert_eq!(request_base_name("a__b__c"), "a");
    assert_eq!(request_base_name("plain"), "plain");
    assert_eq!(request_base_name("a_b"), "a_b");
    assert_eq!(request_base_name("__x"), "");
}

#[test]
fn requests_are_routed_by_name_and_readiness() {
    assert_eq!(route_request("onListSyncAction__3", true, false), RequestRoute::ApplyList);
    assert_eq!(route_request("onListSyncAction__3", false, true), RequestRoute::NotReady);
    assert_eq!(route_request("onDislikeSyncAction__200", false, true), RequestRoute::ApplyDislike);
    assert_eq!(route_request("onDislikeSyncAction", false, false), RequestRoute::NotReady);
    assert_eq!(route_request("somethingElse__1", true, true), RequestRoute::Unsupported);
}

#[test]
fn action_names() {
    assert_eq!(action_name(DataType::List), "onListSyncAction");
    assert_eq!(action_name(DataType::Dislike), "onDislikeSyncAction");
}

#[test]
fn broadcasts_skip_sender_and_unready_devices() {
    let me = "me".to_string();
    let other = "other".to_string();
    assert!(!should_forward(&me, &me, DataType::List, true, true));
    assert!(should_forward(&me, &other, DataType::List, true, false));
    assert!(!should_forward(&me, &other, DataType::Dislike, true, false));
    assert!(should_forward(&me, &other, DataType::Dislike, false, true));
}

#[test]
fn heartbeat_decisions() {
    assert_eq!(heartbeat_action(false, true), HeartbeatAction::Close);
    assert_eq!(heartbeat_action(false, false), HeartbeatAction::Close);
    assert_eq!(heartbeat_action(true, true), HeartbeatAction::PingText);
    assert_eq!(heartbeat_action(true, false), HeartbeatAction::PingFrame);
}

#[test]
fn request_names_carry_a_number() {
    assert_eq!(request_name("getEnabledFeatures", 7), "getEnabledFeatures__7");
    assert_eq!(request_name("list_sync_get_md5", 255), "list_sync_get_md5__255");
    let (key, req) = Req::new("finished", vec![serde_json::Value::from(1)]);
    assert_eq!(key, req.name);
    assert!(req.name.starts_with("finished__"));
    assert_eq!(request_base_name(&req.name), "finished");
    assert_eq!(req.path, vec!["finished".to_string()]);
    assert_eq!(req.data, vec![serde_json::Value::from(1)]);
}

#[test]
fn empty_response() {
    let resp = Resp::gen_empty("x__1".to_string());
    assert_eq!(resp.get_name(), "x__1");
    assert!(resp.error.is_none());
    assert_eq!(resp.get_data(), None);
}

#[test]
fn enabled_features_check() {
    assert!(EnabledFeatures::default_features().is_supported());
    let no_list = EnabledFeatures { list: None, dislike: Some(ListConfig { skip_snapshot: false }) };
    assert!(!no_list.is_supported());
    let skip = EnabledFeatures {
        list: Some(ListConfig { skip_snapshot: true }),
        dislike: Some(ListConfig { skip_snapshot: false }),
    };
    assert!(!skip.is_supported());
}
