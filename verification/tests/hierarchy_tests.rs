use cloudcontrol::json::{JsonNumber, JsonValue};
use cloudcontrol::utils::hierarchy::{
    alias_map, cook_event, hierarchy_from_events, kept_attributes, parse_bounds, parse_uiautomator_attrs, str2bool,
    xml_to_json, RawXmlEvent, XmlEvent,
};

fn num(n: i64) -> JsonValue {
    if n < 0 {
        JsonValue::Number(JsonNumber::NegInt(n))
    } else {
        JsonValue::Number(JsonNumber::PosInt(n as u64))
    }
}

fn s(v: &str) -> JsonValue {
    JsonValue::String(v.to_string())
}

fn get<'a>(v: &'a JsonValue, k: &str) -> &'a JsonValue {
    v.get(k).unwrap()
}

fn children(v: &JsonValue) -> &Vec<JsonValue> {
    match v.get("children") {
        Some(JsonValue::Array(a)) => a,
        _ => panic!("no children"),
    }
}

fn attrs(pairs: &[(&str, &str)]) -> Vec<(String, String)> {
    pairs.iter().map(|(k, v)| (k.to_string(), v.to_string())).collect()
}

#[test]
fn test_parse_bounds_normal() {
    let result = parse_bounds("[0,0][100,200]").unwrap();
    assert_eq!(get(&result, "x"), &num(0));
    assert_eq!(get(&result, "y"), &num(0));
    assert_eq!(get(&result, "width"), &num(100));
    assert_eq!(get(&result, "height"), &num(200));
}

#[test]
fn test_parse_bounds_offset() {
    let result = parse_bounds("[50,100][200,300]").unwrap();
    assert_eq!(get(&result, "x"), &num(50));
    assert_eq!(get(&result, "y"), &num(100));
    assert_eq!(get(&result, "width"), &num(150));
    assert_eq!(get(&result, "height"), &num(200));
}

#[test]
fn test_parse_bounds_invalid() {
    assert!(parse_bounds("invalid").is_none());
    assert!(parse_bounds("").is_none());
    assert!(parse_bounds("[0,0]").is_none());
}

#[test]
fn bounds_negative_and_noise() {
    let result = parse_bounds("[-10,5][x,30][-1]").unwrap();
    assert_eq!(get(&result, "x"), &num(-10));
    assert_eq!(get(&result, "y"), &num(5));
    assert_eq!(get(&result, "width"), &num(40));
    assert_eq!(get(&result, "height"), &num(-6));
    assert!(parse_bounds("[1,2][3,4][5,6]").is_none());
}

#[test]
fn test_str2bool_variants() {
    assert_eq!(str2bool("true"), JsonValue::Bool(true));
    assert_eq!(str2bool("yes"), JsonValue::Bool(true));
    assert_eq!(str2bool("1"), JsonValue::Bool(true));
    assert_eq!(str2bool("t"), JsonValue::Bool(true));
    assert_eq!(str2bool("TRUE"), JsonValue::Bool(true));
    assert_eq!(str2bool("false"), JsonValue::Bool(false));
    assert_eq!(str2bool("no"), JsonValue::Bool(false));
    assert_eq!(str2bool("0"), JsonValue::Bool(false));
    assert_eq!(str2bool("random"), JsonValue::Bool(false));
}

#[test]
fn str2bool_mixed_case_and_unicode() {
    assert_eq!(str2bool("YeS"), JsonValue::Bool(true));
    assert_eq!(str2bool(" true"), JsonValue::Bool(false));
    assert_eq!(str2bool("\u{212A}"), JsonValue::Bool(false));
}

#[test]
fn aliases_listed() {
    let m = alias_map();
    assert_eq!(m.len(), 5);
    assert!(m.contains(&("bounds", "rect")));
    assert!(m.contains(&("class", "className")));
}

#[test]
fn attrs_renamed_typed_and_replaced() {
    let a = attrs(&[
        ("class", "A"),
        ("index", "3"),
        ("index", "oops"),
        ("clickable", "true"),
        ("bounds", "[1,1][2,2]"),
        ("text", "hi"),
        ("class", "B"),
    ]);
    let obj = JsonValue::Object(parse_uiautomator_attrs(&a));
    assert_eq!(get(&obj, "className"), &s("B"));
    assert_eq!(get(&obj, "index"), &num(3));
    assert_eq!(get(&obj, "clickable"), &JsonValue::Bool(true));
    assert_eq!(get(&get(&obj, "rect"), "width"), &num(1));
    assert_eq!(get(&obj, "text"), &s("hi"));
    match &obj {
        JsonValue::Object(e) => assert_eq!(e.len(), 5),
        _ => panic!(),
    }
}

#[test]
fn tree_from_events_with_given_ids() {
    let events = vec![
        XmlEvent::Other,
        XmlEvent::Start(attrs(&[("class", "root")])),
        XmlEvent::Empty(attrs(&[("class", "leaf1")])),
        XmlEvent::Start(attrs(&[("class", "mid")])),
        XmlEvent::Empty(attrs(&[("class", "leaf2")])),
        XmlEvent::End,
        XmlEvent::End,
        XmlEvent::Eof,
    ];
    let ids: Vec<String> = ["a", "b", "c", "d"].iter().map(|x| x.to_string()).collect();
    let tree = hierarchy_from_events(&events, &ids).unwrap();
    assert_eq!(get(&tree, "id"), &s("a"));
    assert_eq!(get(&tree, "className"), &s("root"));
    let kids = children(&tree);
    assert_eq!(kids.len(), 2);
    assert_eq!(get(&kids[0], "id"), &s("b"));
    assert!(kids[0].get("children").is_none());
    assert_eq!(get(&kids[1], "id"), &s("c"));
    let grand = children(&kids[1]);
    assert_eq!(grand.len(), 1);
    assert_eq!(get(&grand[0], "id"), &s("d"));
}

#[test]
fn tree_errors() {
    let err = hierarchy_from_events(&vec![XmlEvent::Error("bad".to_string())], &vec![]);
    assert_eq!(err, Err("XML parse error: bad".to_string()));
    let empty = hierarchy_from_events(&vec![XmlEvent::Other, XmlEvent::Eof], &vec![]);
    assert_eq!(empty, Err("Empty XML hierarchy".to_string()));
    // events after the end of input are not read
    let after = hierarchy_from_events(
        &vec![XmlEvent::Eof, XmlEvent::Empty(attrs(&[("a", "b")]))],
        &vec!["x".to_string()],
    );
    assert_eq!(after, Err("Empty XML hierarchy".to_string()));
}

#[test]
fn test_xml_to_json_simple() {
    let xml = r#"<node class="android.widget.Button" text="OK" />"#;
    let result = xml_to_json(xml).unwrap();
    assert_eq!(get(&result, "className"), &s("android.widget.Button"));
    assert_eq!(get(&result, "text"), &s("OK"));
    assert!(result.get("id").is_some());
}

#[test]
fn test_xml_to_json_nested() {
    let xml = r#"<node class="android.widget.FrameLayout">
            <node class="android.widget.Button" text="OK" />
        </node>"#;
    let result = xml_to_json(xml).unwrap();
    assert_eq!(get(&result, "className"), &s("android.widget.FrameLayout"));
    let children = children(&result);
    assert_eq!(children.len(), 1);
    assert_eq!(get(&children[0], "className"), &s("android.widget.Button"));
    assert_eq!(get(&children[0], "text"), &s("OK"));
}

#[test]
fn test_xml_to_json_attr_aliases() {
    let xml = r#"<node class="android.view.View" resource-id="com.app:id/btn" content-desc="Button description" long-clickable="true" bounds="[0,0][100,200]" />"#;
    let result = xml_to_json(xml).unwrap();
    assert_eq!(get(&result, "className"), &s("android.view.View"));
    assert_eq!(get(&result, "resourceId"), &s("com.app:id/btn"));
    assert_eq!(get(&result, "description"), &s("Button description"));
    assert_eq!(get(&result, "longClickable"), &JsonValue::Bool(true));
    let rect = get(&result, "rect");
    assert_eq!(get(rect, "x"), &num(0));
    assert_eq!(get(rect, "width"), &num(100));
    assert_eq!(get(rect, "height"), &num(200));
}

#[test]
fn xml_to_json_errors_and_ids() {
    assert_eq!(xml_to_json(""), Err("Empty XML hierarchy".to_string()));
    assert!(xml_to_json("<a><b></a>").unwrap_err().starts_with("XML parse error: "));
    let result = xml_to_json("<a><b/><c/></a>").unwrap();
    let kids = children(&result);
    let id0 = match get(&kids[0], "id") {
        JsonValue::String(x) => x.clone(),
        _ => panic!(),
    };
    assert_eq!(id0.len(), 36);
    assert_eq!(
        xml_to_json(r#"<n bounds="[-9223372036854775808,0][9223372036854775807,0]"/>"#),
        Err("XML parse error: bounds out of range".to_string())
    );
}

#[test]
fn kept_attributes_drop_failed_ones() {
    let raw = vec![
        Some(("class".to_string(), Some("a".to_string()))),
        None,
        Some(("text".to_string(), None)),
    ];
    assert_eq!(
        kept_attributes(&raw),
        vec![("class".to_string(), "a".to_string()), ("text".to_string(), String::new())]
    );
    assert!(kept_attributes(&vec![None, None]).is_empty());
}

#[test]
fn cook_event_keeps_kind() {
    match cook_event(RawXmlEvent::Empty(vec![None, Some(("k".to_string(), Some("v".to_string())))])) {
        XmlEvent::Empty(a) => assert_eq!(a, vec![("k".to_string(), "v".to_string())]),
        other => panic!("unexpected {:?}", other),
    }
    assert!(matches!(cook_event(RawXmlEvent::End), XmlEvent::End));
    assert!(matches!(cook_event(RawXmlEvent::Error("x".to_string())), XmlEvent::Error(m) if m == "x"));
}

#[test]
fn node_ids_are_lowercase_v4_uuids() {
    let r = xml_to_json(r#"<hierarchy><node class="a"/><node class="b"/></hierarchy>"#).unwrap();
    let mut ids = vec![get(&r, "id").clone()];
    for c in children(&r) {
        ids.push(get(c, "id").clone());
    }
    for id in &ids {
        let t = match id {
            JsonValue::String(t) => t.clone(),
            other => panic!("id is not a string: {:?}", other),
        };
        let cs: Vec<char> = t.chars().collect();
        assert_eq!(cs.len(), 36);
        for (i, c) in cs.iter().enumerate() {
            if [8, 13, 18, 23].contains(&i) {
                assert_eq!(*c, '-');
            } else {
                assert!(c.is_ascii_hexdigit() && !c.is_ascii_uppercase());
            }
        }
        assert_eq!(cs[14], '4');
        assert!("89ab".contains(cs[19]));
    }
}
