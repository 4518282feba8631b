use desqta::endpoints::{
    decimal_text, get_api_data, get_file_size_limit_from_config, get_seqta_file, image_response_text,
    login_window_url, parse_u64_text, post_api_data, proxy_response_json, upload_headers, upload_size_error,
    upload_url,
};
use desqta::feed::{channel_to_json, rss_feed_json, xml_to_json, XmlElement, XmlNode};
use desqta::json::JsonValue;
use desqta::request::RequestMethod;
use desqta::theme_files::{list_user_themes, ThemeDirEntry};

fn el(name: &str, attrs: &[(&str, &str)], children: Vec<XmlNode>) -> XmlElement {
    XmlElement {
        name: name.to_string(),
        attributes: attrs.iter().map(|(a, b)| (a.to_string(), b.to_string())).collect(),
        children,
    }
}

fn text(t: &str) -> XmlNode {
    XmlNode::Text(t.to_string())
}

fn s(x: &str) -> JsonValue {
    JsonValue::Str(x.to_string())
}

fn obj(entries: Vec<(&str, JsonValue)>) -> JsonValue {
    JsonValue::Object(entries.into_iter().map(|(k, v)| (k.to_string(), v)).collect())
}

#[test]
fn text_only_element_is_its_text() {
    assert_eq!(xml_to_json(&el("title", &[], vec![text("Hello")])), s("Hello"));
}

#[test]
fn element_with_attributes_and_children() {
    let e = el(
        "item",
        &[("id", "7")],
        vec![
            XmlNode::Element(el("title", &[], vec![text("A")])),
            XmlNode::Element(el("tag", &[], vec![text("x")])),
            XmlNode::Element(el("tag", &[], vec![text("y")])),
            XmlNode::Element(el("tag", &[], vec![XmlNode::CData("z".to_string())])),
            XmlNode::Other,
        ],
    );
    assert_eq!(
        xml_to_json(&e),
        obj(vec![
            ("@attributes", obj(vec![("id", s("7"))])),
            ("title", s("A")),
            ("tag", JsonValue::Array(vec![s("x"), s("y"), s("z")])),
        ])
    );
}

#[test]
fn mixed_text_is_kept_under_text() {
    let e = el("p", &[], vec![text("a"), XmlNode::Element(el("b", &[], vec![])), text("c")]);
    assert_eq!(xml_to_json(&e), obj(vec![("b", obj(vec![])), ("text", s("ac"))]));
    let blank = el("p", &[], vec![text("  \n ")]);
    assert_eq!(xml_to_json(&blank), obj(vec![]));
}

#[test]
fn channel_items_become_feeds() {
    let item = |t: &str| XmlNode::Element(el("item", &[], vec![XmlNode::Element(el("title", &[], vec![text(t)]))]));
    let channel = el("channel", &[], vec![XmlNode::Element(el("title", &[], vec![text("News")])), item("one"), item("two")]);
    let root = el("rss", &[("version", "2.0")], vec![XmlNode::Element(channel)]);
    let j = channel_to_json(&root);
    match &j {
        JsonValue::Object(m) => {
            let feeds = &m.iter().find(|(k, _)| k == "feeds").unwrap().1;
            assert_eq!(
                feeds,
                &JsonValue::Array(vec![obj(vec![("title", s("one"))]), obj(vec![("title", s("two"))])])
            );
            assert_eq!(m[0].0, "@attributes");
        }
        _ => panic!("object expected"),
    }
    let bare = el("rss", &[], vec![]);
    assert_eq!(channel_to_json(&bare), obj(vec![("feeds", JsonValue::Array(vec![]))]));
}

#[test]
fn user_themes_are_the_folders() {
    let entries = vec![
        ThemeDirEntry { name: "dark".to_string(), is_dir: true, has_manifest: true },
        ThemeDirEntry { name: "notes.txt".to_string(), is_dir: false, has_manifest: false },
        ThemeDirEntry { name: "draft".to_string(), is_dir: true, has_manifest: false },
    ];
    let t = list_user_themes(&entries);
    assert_eq!(t.len(), 2);
    assert_eq!((t[0].name.as_str(), t[0].has_manifest), ("dark", true));
    assert_eq!((t[1].name.as_str(), t[1].has_manifest), ("draft", false));
}

#[test]
fn request_builders() {
    let r = get_api_data("/seqta/student/x", vec![], Some(true));
    assert_eq!(r.method, RequestMethod::GET);
    assert_eq!(r.parse_html, Some(true));
    let r = post_api_data("/y", obj(vec![]), vec![], None);
    assert_eq!(r.method, RequestMethod::POST);
    assert!(r.body.is_some());
    let r = get_seqta_file("assessment", "abc");
    assert_eq!(r.url, "/seqta/student/load/file");
    assert!(r.return_url);
    assert_eq!(
        r.parameters.unwrap(),
        vec![("type".to_string(), "assessment".to_string()), ("file".to_string(), "abc".to_string())]
    );
}

#[test]
fn decimal_and_u64_texts() {
    assert_eq!(decimal_text(0), "0");
    assert_eq!(decimal_text(404), "404");
    assert_eq!(decimal_text(u64::MAX), u64::MAX.to_string());
    assert_eq!(parse_u64_text("25"), Some(25));
    assert_eq!(parse_u64_text("+7"), Some(7));
    assert_eq!(parse_u64_text(""), None);
    assert_eq!(parse_u64_text("+"), None);
    assert_eq!(parse_u64_text("-1"), None);
    assert_eq!(parse_u64_text("12a"), None);
    assert_eq!(parse_u64_text("18446744073709551615"), Some(u64::MAX));
    assert_eq!(parse_u64_text("18446744073709551616"), None);
}

#[test]
fn config_upload_limit() {
    let config = "{\"coneqt-s\": {\"filesize\": {\"limit\": {\"value\": \"20\"}}}}";
    assert_eq!(get_file_size_limit_from_config(config), Some(20));
    assert_eq!(get_file_size_limit_from_config("{}"), None);
    assert_eq!(get_file_size_limit_from_config("{\"coneqt-s\": {\"filesize\": {\"limit\": {\"value\": 20}}}}"), None);
    assert_eq!(get_file_size_limit_from_config("not json"), None);
}

#[test]
fn upload_checks() {
    assert_eq!(upload_size_error(5 * 1048576, Some(5)), None);
    assert_eq!(
        upload_size_error(6 * 1048576 + 10, Some(5)).unwrap(),
        "File size (6.0 MB) exceeds the limit of 5 MB"
    );
    assert_eq!(upload_size_error(u64::MAX, None), None);
    let h = upload_headers("my file/ü.txt");
    assert_eq!(h[0], ("X-File-Name".to_string(), "my+file%2F%C3%BC.txt".to_string()));
    assert_eq!(h[1], ("X-Accept-Mimes".to_string(), "null".to_string()));
    assert_eq!(h[2], ("X-Requested-With".to_string(), "XMLHttpRequest".to_string()));
    assert_eq!(upload_url("https://s"), "https://s/seqta/student/file/upload/xhr2");
}

#[test]
fn images_are_base64() {
    assert_eq!(image_response_text(b"hello"), "aGVsbG8=");
    assert_eq!(image_response_text(b"hi"), "aGk=");
    assert_eq!(image_response_text(&[0xfb, 0xff]), "+/8=");
    assert_eq!(image_response_text(b""), "");
}

#[test]
fn proxy_answer_shape() {
    let j = proxy_response_json(404, "body");
    assert_eq!(
        j,
        obj(vec![
            ("status", JsonValue::Number("404".to_string())),
            ("statusText", s("Not Found")),
            ("data", s("body")),
        ])
    );
    let j = proxy_response_json(200, "{\"k\":true}");
    assert_eq!(
        j,
        obj(vec![
            ("status", JsonValue::Number("200".to_string())),
            ("statusText", s("OK")),
            ("data", obj(vec![("k", JsonValue::Bool(true))])),
        ])
    );
    let j = proxy_response_json(299, "");
    assert_eq!(get(&j, "statusText"), Some(&s("")));
}

#[test]
fn login_window_urls() {
    assert_eq!(login_window_url("school.example/login").unwrap(), "https://school.example/login");
    assert_eq!(login_window_url("https://School.Example").unwrap(), "https://school.example/");
    assert!(login_window_url("https://").is_err());
}

fn get<'a>(v: &'a JsonValue, k: &str) -> Option<&'a JsonValue> {
    match v {
        JsonValue::Object(m) => m.iter().find(|(key, _)| key == k).map(|(_, v)| v),
        _ => None,
    }
}

#[test]
fn rss_feed_is_read_into_json() {
    let feed = "<?xml version=\"1.0\"?><rss version=\"2.0\"><channel><title>News</title><link>https://n.example</link>\
        <description>d</description><item><title>One</title></item><item><title>Two</title></item></channel></rss>";
    let json = rss_feed_json(200, "200 OK", feed).unwrap();
    let feeds = get(&json, "feeds").unwrap();
    match feeds {
        JsonValue::Array(items) => {
            assert_eq!(items.len(), 2);
            assert_eq!(get(&items[0], "title"), Some(&s("One")));
            assert_eq!(get(&items[1], "title"), Some(&s("Two")));
        }
        other => panic!("{:?}", other),
    }
    let channel = get(&json, "channel").unwrap();
    assert_eq!(get(channel, "title"), Some(&s("News")));
    assert_eq!(get(get(&json, "@attributes").unwrap(), "version"), Some(&s("2.0")));
}

#[test]
fn rss_feed_failures() {
    assert_eq!(
        rss_feed_json(404, "404 Not Found", "gone"),
        Err("Request failed with status 404 Not Found. Response body:\ngone".to_string())
    );
    let e = rss_feed_json(200, "200 OK", "not a feed").unwrap_err();
    assert!(e.starts_with("Failed to parse RSS feed: "), "{}", e);
}
