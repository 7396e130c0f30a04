use deadline_gui::text::{i32_to_decimal, join_strings, parse_i32, split_str};
use deadline_gui::{
    parse_custom_amounts, parse_custom_attributes, CustomAttributeRequirement,
    HardwareRequirements, HostRequirementsModel, HostRequirementsModelRust, JsonMember, JsonValue,
};

fn string(s: &str) -> JsonValue {
    JsonValue::String(s.to_string())
}

#[test]
fn parse_custom_amounts_empty_text_has_no_entries() {
    assert!(parse_custom_amounts("").is_empty());
}

#[test]
fn parse_custom_amounts_reads_bounds() {
    let amounts = parse_custom_amounts("a;1;2|b;+7;-0|c;-5;x|d;2147483648;2147483647");
    assert_eq!(amounts.len(), 4);
    assert_eq!((amounts[0].name.as_str(), amounts[0].min, amounts[0].max), ("a", Some(1), Some(2)));
    assert_eq!((amounts[1].name.as_str(), amounts[1].min, amounts[1].max), ("b", Some(7), Some(0)));
    assert_eq!((amounts[2].name.as_str(), amounts[2].min, amounts[2].max), ("c", None, None));
    assert_eq!(
        (amounts[3].name.as_str(), amounts[3].min, amounts[3].max),
        ("d", None, Some(2147483647))
    );
}

#[test]
fn parse_custom_amounts_skips_malformed_entries() {
    let amounts = parse_custom_amounts(";1;2|a;1|a;1;2;3||x;;|");
    assert_eq!(amounts.len(), 1);
    assert_eq!((amounts[0].name.as_str(), amounts[0].min, amounts[0].max), ("x", None, None));
}

#[test]
fn parse_custom_attributes_drops_empty_values() {
    let attributes = parse_custom_attributes("dept;anyOf;,a,,b,|x;allOf;|y;anyOf|;anyOf;z");
    assert_eq!(attributes.len(), 2);
    assert_eq!(attributes[0].name, "dept");
    assert_eq!(attributes[0].option, "anyOf");
    assert_eq!(attributes[0].values, vec!["a".to_string(), "b".to_string()]);
    assert_eq!(attributes[1].name, "x");
    assert_eq!(attributes[1].option, "allOf");
    assert!(attributes[1].values.is_empty());
}

#[test]
fn custom_attribute_option_name_replaces_name() {
    let req = CustomAttributeRequirement {
        name: "pool".to_string(),
        option: "name".to_string(),
        values: vec!["a".to_string()],
    };
    assert_eq!(
        req.serialize(),
        JsonValue::Object(vec![JsonMember {
            key: "name".to_string(),
            value: JsonValue::Array(vec![string("a")]),
        }])
    );
}

#[test]
fn hardware_max_only_has_no_min() {
    let req = HardwareRequirements { scratch_max: Some(3), ..Default::default() };
    assert_eq!(
        req.serialize(),
        vec![JsonValue::Object(vec![
            JsonMember { key: "name".to_string(), value: string("amount.worker.disk.scratch") },
            JsonMember { key: "max".to_string(), value: JsonValue::Number(3) },
        ])]
    );
}

#[test]
fn decimal_formatting() {
    assert_eq!(i32_to_decimal(0), "0");
    assert_eq!(i32_to_decimal(-7), "-7");
    assert_eq!(i32_to_decimal(1024), "1024");
    assert_eq!(i32_to_decimal(i32::MIN), "-2147483648");
    assert_eq!(i32_to_decimal(i32::MAX), "2147483647");
}

#[test]
fn decimal_roundtrip() {
    for v in [0, 1, -1, 42, -310, i32::MIN, i32::MAX] {
        assert_eq!(parse_i32(&i32_to_decimal(v)), Some(v));
    }
}

#[test]
fn parse_i32_matches_std() {
    for text in ["", "+", "-", "12a", "007", "+5", "-0", "2147483647", "2147483648", "-2147483648", "-2147483649", " 1", "1 ", "٣"] {
        assert_eq!(parse_i32(text), text.parse::<i32>().ok(), "text {:?}", text);
    }
}

#[test]
fn split_and_join() {
    let parts = split_str("a||b", '|');
    assert_eq!(parts, vec!["a".to_string(), String::new(), "b".to_string()]);
    assert_eq!(join_strings(&parts, "|"), "a||b");
    assert_eq!(split_str("", '|'), vec![String::new()]);
    assert_eq!(split_str("é|ü", '|'), vec!["é".to_string(), "ü".to_string()]);
}

#[test]
fn fresh_model_serializes_to_nothing() {
    let model = HostRequirementsModel::default();
    assert!(model.serialize().is_none());
    assert_eq!(model.cpu_min, -1);
}

#[test]
fn disabled_model_with_large_values_serializes_to_nothing() {
    let mut model = HostRequirementsModelRust::default();
    model.memory_gib_min = 3000000;
    model.scratch_gib_max = i32::MAX;
    model.os_linux = true;
    assert!(model.serialize().is_none());
}

#[test]
fn negative_values_all_mean_unset() {
    let mut a = HostRequirementsModelRust::default();
    a.use_custom_requirements = true;
    a.os_linux = true;
    let mut b = a.clone();
    b.cpu_min = -7;
    b.memory_gib_max = i32::MIN;
    assert_eq!(a.serialize(), b.serialize());
}

#[test]
fn enabled_model_without_requirements_serializes_to_nothing() {
    let mut model = HostRequirementsModelRust::default();
    model.use_custom_requirements = true;
    assert!(model.serialize().is_none());
    model.add_custom_amount();
    assert!(model.serialize().is_none());
}

#[test]
fn model_text_of_disabled_state_is_empty() {
    let mut model = HostRequirementsModelRust::default();
    model.os_linux = true;
    model.memory_gib_min = 3000000;
    assert_eq!(model.serialize_text(), "");
}

#[test]
fn model_text_is_compact_json_with_sorted_keys() {
    let mut model = HostRequirementsModelRust::default();
    model.use_custom_requirements = true;
    model.os_macos = true;
    model.gpu_memory_gib_max = 2;
    model.custom_attributes = "dept;allOf;a \"b\",c".to_string();
    let expected = [
        r#"{"amounts":[{"max":2048,"name":"amount.worker.gpu.memory"}],"#,
        r#""attributes":[{"anyOf":["macos"],"name":"attr.worker.os.family"},"#,
        r#"{"allOf":["a \"b\"","c"],"name":"attr.worker.dept"}]}"#,
    ]
    .concat();
    assert_eq!(model.serialize_text(), expected);
}

#[test]
fn custom_amount_editing() {
    let mut model = HostRequirementsModelRust::default();
    model.add_custom_amount();
    assert_eq!(model.custom_amounts, ";-1;-1");
    model.add_custom_amount();
    assert_eq!(model.custom_amounts, ";-1;-1|;-1;-1");
    assert!(parse_custom_amounts(&model.custom_amounts).is_empty());
    model.update_custom_amount(1, "render.slots".to_string(), 2, -1);
    assert_eq!(model.custom_amounts, ";-1;-1|render.slots;2;-1");
    let amounts = parse_custom_amounts(&model.custom_amounts);
    assert_eq!(amounts.len(), 1);
    assert_eq!(
        (amounts[0].name.as_str(), amounts[0].min, amounts[0].max),
        ("render.slots", Some(2), None)
    );
    model.update_custom_amount(2, "ignored".to_string(), 1, 1);
    model.update_custom_amount(-1, "ignored".to_string(), 1, 1);
    assert_eq!(model.custom_amounts, ";-1;-1|render.slots;2;-1");
    model.remove_custom_amount(5);
    model.remove_custom_amount(-1);
    assert_eq!(model.custom_amounts, ";-1;-1|render.slots;2;-1");
    model.remove_custom_amount(0);
    assert_eq!(model.custom_amounts, "render.slots;2;-1");
    model.remove_custom_amount(0);
    assert_eq!(model.custom_amounts, "");
    assert_eq!(model.custom_attributes, "");
}

#[test]
fn custom_attribute_editing() {
    let mut model = HostRequirementsModelRust::default();
    model.add_custom_attribute();
    assert_eq!(model.custom_attributes, ";anyOf;");
    assert!(parse_custom_attributes(&model.custom_attributes).is_empty());
    model.update_custom_attribute(0, "dept".to_string(), "allOf".to_string(), "a,b".to_string());
    assert_eq!(model.custom_attributes, "dept;allOf;a,b");
    model.add_custom_attribute();
    assert_eq!(model.custom_attributes, "dept;allOf;a,b|;anyOf;");
    let attributes = parse_custom_attributes(&model.custom_attributes);
    assert_eq!(attributes.len(), 1);
    assert_eq!(attributes[0].values, vec!["a".to_string(), "b".to_string()]);
    model.remove_custom_attribute(1);
    assert_eq!(model.custom_attributes, "dept;allOf;a,b");
    assert_eq!(model.custom_amounts, "");
}

#[test]
fn model_serializes_its_state() {
    let mut model = HostRequirementsModelRust::default();
    model.use_custom_requirements = true;
    model.os_macos = true;
    model.gpu_memory_gib_max = 2;
    let json = model.serialize().unwrap();
    assert_eq!(
        json,
        JsonValue::Object(vec![
            JsonMember {
                key: "amounts".to_string(),
                value: JsonValue::Array(vec![JsonValue::Object(vec![
                    JsonMember { key: "name".to_string(), value: string("amount.worker.gpu.memory") },
                    JsonMember { key: "max".to_string(), value: JsonValue::Number(2048) },
                ])]),
            },
            JsonMember {
                key: "attributes".to_string(),
                value: JsonValue::Array(vec![JsonValue::Object(vec![
                    JsonMember { key: "name".to_string(), value: string("attr.worker.os.family") },
                    JsonMember {
                        key: "anyOf".to_string(),
                        value: JsonValue::Array(vec![string("macos")]),
                    },
                ])]),
            },
        ])
    );
}
