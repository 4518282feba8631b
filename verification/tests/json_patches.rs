use desqta::json::{apply_overrides, json_clone, merge_skeleton, to_skeleton, JsonValue};
use desqta::patches::{
    append_patch, apply_request_patch, patches_from_text, record_response_patch, remove_patch, request_record_json, Patches,
};
use desqta::request::RequestMethod;

fn s(x: &str) -> JsonValue {
    JsonValue::Str(x.to_string())
}

fn obj(entries: Vec<(&str, JsonValue)>) -> JsonValue {
    JsonValue::Object(entries.into_iter().map(|(k, v)| (k.to_string(), v)).collect())
}

fn nm() -> JsonValue {
    s("Not modified")
}

fn get<'a>(v: &'a JsonValue, k: &str) -> Option<&'a JsonValue> {
    match v {
        JsonValue::Object(m) => m.iter().find(|(key, _)| key == k).map(|(_, v)| v),
        _ => None,
    }
}

fn sample() -> JsonValue {
    obj(vec![
        ("a", JsonValue::Number("1".to_string())),
        ("b", obj(vec![("c", JsonValue::Bool(true)), ("d", JsonValue::Array(vec![JsonValue::Null]))])),
        ("e", s("x")),
    ])
}

#[test]
fn skeleton_keeps_keys_and_marks_leaves() {
    let sk = to_skeleton(&sample());
    assert_eq!(
        sk,
        obj(vec![("a", nm()), ("b", obj(vec![("c", nm()), ("d", nm())])), ("e", nm())])
    );
    assert_eq!(to_skeleton(&JsonValue::Array(vec![])), nm());
}

#[test]
fn skeleton_of_skeleton_is_itself() {
    let sk = to_skeleton(&sample());
    assert_eq!(to_skeleton(&sk), sk);
}

#[test]
fn merge_adds_only_missing_keys() {
    let mut existing = obj(vec![("a", s("user value")), ("b", obj(vec![("c", s("kept"))]))]);
    merge_skeleton(&mut existing, &sample());
    assert_eq!(
        existing,
        obj(vec![
            ("a", s("user value")),
            ("b", obj(vec![("c", s("kept")), ("d", nm())])),
            ("e", nm()),
        ])
    );
}

#[test]
fn merge_into_empty_gives_skeleton() {
    let mut existing = obj(vec![]);
    merge_skeleton(&mut existing, &sample());
    assert_eq!(existing, to_skeleton(&sample()));
}

#[test]
fn merge_into_own_skeleton_is_noop() {
    let mut sk = to_skeleton(&sample());
    merge_skeleton(&mut sk, &sample());
    assert_eq!(sk, to_skeleton(&sample()));
}

#[test]
fn merge_leaves_non_objects_alone() {
    let mut existing = s("leaf");
    merge_skeleton(&mut existing, &sample());
    assert_eq!(existing, s("leaf"));
    let mut existing = sample();
    merge_skeleton(&mut existing, &s("leaf"));
    assert_eq!(existing, sample());
}

#[test]
fn overrides_write_non_marker_values() {
    let patch = obj(vec![
        ("a", s("42")),
        ("b", obj(vec![("c", nm()), ("new", JsonValue::Bool(false))])),
        ("e", nm()),
        ("f", obj(vec![("g", s("deep"))])),
    ]);
    let mut target = sample();
    apply_overrides(&patch, &mut target);
    assert_eq!(
        target,
        obj(vec![
            ("a", s("42")),
            ("b", obj(vec![("c", JsonValue::Bool(true)), ("d", JsonValue::Array(vec![JsonValue::Null])), ("new", JsonValue::Bool(false))])),
            ("e", s("x")),
            ("f", obj(vec![("g", s("deep"))])),
        ])
    );
}

#[test]
fn override_replaces_non_object_target_and_marker_keeps_it() {
    let mut target = s("old");
    apply_overrides(&obj(vec![("k", nm()), ("w", s("v"))]), &mut target);
    assert_eq!(target, obj(vec![("w", s("v"))]));
    let mut target = obj(vec![("b", JsonValue::Number("5".to_string()))]);
    apply_overrides(&obj(vec![("b", obj(vec![("c", nm())]))]), &mut target);
    assert_eq!(target, obj(vec![("b", obj(vec![]))]));
    let mut target = s("old");
    apply_overrides(&nm(), &mut target);
    assert_eq!(target, s("old"));
    apply_overrides(&JsonValue::Bool(true), &mut target);
    assert_eq!(target, JsonValue::Bool(true));
}

#[test]
fn fresh_skeleton_overrides_nothing() {
    let mut target = sample();
    apply_overrides(&to_skeleton(&sample()), &mut target);
    assert_eq!(target, sample());
}

#[test]
fn clone_is_equal() {
    assert_eq!(json_clone(&sample()), sample());
}

#[test]
fn remove_and_append_patches() {
    let mut p = Patches::new();
    append_patch(&mut p, "u1".to_string(), s("one"));
    append_patch(&mut p, "u2".to_string(), s("two"));
    append_patch(&mut p, "u1".to_string(), s("uno"));
    assert_eq!(p.entries.len(), 2);
    assert_eq!(p.entries[0], ("u1".to_string(), s("uno")));
    remove_patch(&mut p, "u1");
    assert_eq!(p.entries, vec![("u2".to_string(), s("two"))]);
    remove_patch(&mut p, "missing");
    assert_eq!(p.entries.len(), 1);
}

fn headers() -> Vec<(String, String)> {
    vec![("X-A".to_string(), "1".to_string())]
}

#[test]
fn request_record_shape() {
    let r = request_record_json(&None, &Some(headers()), &None, RequestMethod::POST, true, false, None);
    assert_eq!(
        r,
        obj(vec![
            ("body", obj(vec![])),
            ("headers", obj(vec![("X-A", s("1"))])),
            ("parameters", obj(vec![])),
            ("method", s("POST")),
            ("is_image", JsonValue::Bool(true)),
            ("return_url", JsonValue::Bool(false)),
            ("parse_html", JsonValue::Bool(false)),
        ])
    );
}

#[test]
fn first_request_is_sent_as_given() {
    let body = Some(obj(vec![("q", s("v"))]));
    let incoming = request_record_json(&body, &Some(headers()), &None, RequestMethod::GET, false, false, Some(true));
    let mut p = Patches::new();
    let (b, h, q) = apply_request_patch(&mut p, "https://x/api", &incoming, body, Some(headers()), None);
    assert_eq!(b, Some(obj(vec![("q", s("v"))])));
    assert_eq!(h, Some(headers()));
    assert_eq!(q, Some(vec![]));
    assert_eq!(p.entries.len(), 1);
    let entry = &p.entries[0].1;
    assert_eq!(get(entry, "request"), Some(&to_skeleton(&incoming)));
    assert_eq!(get(entry, "response"), Some(&obj(vec![])));
}

#[test]
fn developer_overrides_are_replayed() {
    let incoming = request_record_json(&None, &None, &None, RequestMethod::GET, false, false, None);
    let mut p = Patches::new();
    let request = obj(vec![
        ("body", obj(vec![("page", s("2"))])),
        ("headers", obj(vec![("X-A", s("patched")), ("X-B", nm()), ("X-C", JsonValue::Bool(true))])),
        ("parameters", obj(vec![("limit", s("10"))])),
    ]);
    append_patch(&mut p, "https://x/api".to_string(), obj(vec![("request", request), ("response", obj(vec![]))]));
    let (b, h, q) = apply_request_patch(&mut p, "https://x/api", &incoming, None, Some(headers()), None);
    assert_eq!(b, Some(obj(vec![("page", s("2"))])));
    assert_eq!(h, Some(vec![("X-A".to_string(), "patched".to_string())]));
    assert_eq!(q, Some(vec![("limit".to_string(), "10".to_string())]));
    // the request section gained the keys it lacked, keeping the overrides
    let req = get(&p.entries[0].1, "request").unwrap();
    assert_eq!(get(req, "method"), Some(&nm()));
    assert_eq!(get(get(req, "headers").unwrap(), "X-A"), Some(&s("patched")));
}

#[test]
fn responses_are_recorded_without_touching_overrides() {
    let mut p = Patches::new();
    append_patch(
        &mut p,
        "u".to_string(),
        obj(vec![("request", obj(vec![])), ("response", obj(vec![("status", s("200"))]))]),
    );
    let resp = "{\"status\": \"401\", \"payload\": {\"x\": null}}";
    assert!(record_response_patch(&mut p, "u", resp));
    let r = get(&p.entries[0].1, "response").unwrap();
    assert_eq!(r, &obj(vec![("status", s("200")), ("payload", obj(vec![("x", nm())]))]));
    assert!(!record_response_patch(&mut p, "other", resp));
    assert!(!record_response_patch(&mut p, "u", "not json"));
}


#[test]
fn merging_twice_is_merging_once() {
    let mut existing = obj(vec![("a", s("user value")), ("b", obj(vec![("c", s("kept"))]))]);
    merge_skeleton(&mut existing, &sample());
    let once = json_clone(&existing);
    merge_skeleton(&mut existing, &sample());
    assert_eq!(existing, once);
}

#[test]
fn recording_a_response_twice_is_recording_it_once() {
    let mut p = Patches::new();
    append_patch(&mut p, "u".to_string(), obj(vec![("request", obj(vec![])), ("response", obj(vec![]))]));
    let resp = "{\"payload\": {\"x\": null}, \"status\": \"200\"}";
    assert!(record_response_patch(&mut p, "u", resp));
    let once = p.entries.iter().map(|(k, v)| (k.clone(), json_clone(v))).collect::<Vec<_>>();
    assert!(record_response_patch(&mut p, "u", resp));
    assert_eq!(p.entries, once);
    let parsed = obj(vec![("payload", obj(vec![("x", JsonValue::Null)])), ("status", s("200"))]);
    assert_eq!(get(&p.entries[0].1, "response"), Some(&to_skeleton(&parsed)));
}

#[test]
fn registering_a_request_twice_is_registering_it_once() {
    let body = Some(obj(vec![("q", s("v"))]));
    let incoming = request_record_json(&body, &None, &None, RequestMethod::POST, false, false, None);
    let mut p = Patches::new();
    let _ = apply_request_patch(&mut p, "https://x/api", &incoming, Some(obj(vec![("q", s("v"))])), None, None);
    let once = p.entries.iter().map(|(k, v)| (k.clone(), json_clone(v))).collect::<Vec<_>>();
    assert_eq!(once.len(), 1);
    assert_eq!(
        once[0].1,
        obj(vec![("request", to_skeleton(&incoming)), ("response", obj(vec![]))])
    );
    let _ = apply_request_patch(&mut p, "https://x/api", &incoming, Some(obj(vec![("q", s("v"))])), None, None);
    assert_eq!(p.entries, once);
}

#[test]
fn replaying_overrides_twice_is_replaying_them_once() {
    let patch = obj(vec![
        ("a", s("42")),
        ("b", obj(vec![("c", nm()), ("new", JsonValue::Bool(false))])),
        ("e", nm()),
        ("f", obj(vec![("g", s("deep"))])),
    ]);
    let mut target = sample();
    apply_overrides(&patch, &mut target);
    let once = json_clone(&target);
    apply_overrides(&patch, &mut target);
    assert_eq!(target, once);
}

#[test]
fn patch_file_text_is_read() {
    let p = patches_from_text("{\"u\": {\"request\": {}, \"response\": {}}}").unwrap();
    assert_eq!(p.entries, vec![("u".to_string(), obj(vec![("request", obj(vec![])), ("response", obj(vec![]))]))]);
    assert!(patches_from_text("[]").is_none());
    assert!(patches_from_text("{").is_none());
}
