use deadline_gui::{
    serialize_from_model_state, validate_custom_name, CustomAmountRequirement,
    CustomAttributeRequirement, HardwareRequirements, HostRequirements, HostRequirementsModelState,
    JsonValue, OsRequirements,
};

fn get<'a>(value: &'a JsonValue, key: &str) -> Option<&'a JsonValue> {
    match value {
        JsonValue::Object(members) => members.iter().find(|m| m.key == key).map(|m| &m.value),
        _ => None,
    }
}

fn field<'a>(value: &'a JsonValue, key: &str) -> &'a JsonValue {
    get(value, key).expect("member is present")
}

fn string(s: &str) -> JsonValue {
    JsonValue::String(s.to_string())
}

fn strings(values: &[&str]) -> JsonValue {
    JsonValue::Array(values.iter().map(|v| string(v)).collect())
}

fn array(value: &JsonValue) -> &Vec<JsonValue> {
    match value {
        JsonValue::Array(items) => items,
        _ => panic!("not an array"),
    }
}

fn object_len(value: &JsonValue) -> usize {
    match value {
        JsonValue::Object(members) => members.len(),
        _ => panic!("not an object"),
    }
}

fn find_named<'a>(items: &'a [JsonValue], name: &str) -> &'a JsonValue {
    items
        .iter()
        .find(|a| get(a, "name") == Some(&string(name)))
        .expect("entry with that name")
}

#[test]
fn os_requirements_empty_serializes_to_empty() {
    let req = OsRequirements::default();
    assert!(req.serialize().is_empty());
}

#[test]
fn os_requirements_single_os() {
    let req = OsRequirements {
        operating_systems: vec!["linux".to_string()],
        cpu_architectures: vec![],
    };
    let result = req.serialize();
    assert_eq!(result.len(), 1);
    assert_eq!(field(&result[0], "name"), &string("attr.worker.os.family"));
    assert_eq!(field(&result[0], "anyOf"), &strings(&["linux"]));
}

#[test]
fn os_requirements_multiple_os_and_arch() {
    let req = OsRequirements {
        operating_systems: vec!["linux".to_string(), "windows".to_string()],
        cpu_architectures: vec!["x86_64".to_string()],
    };
    let result = req.serialize();
    assert_eq!(result.len(), 2);
    assert_eq!(field(&result[0], "anyOf"), &strings(&["linux", "windows"]));
    assert_eq!(field(&result[1], "name"), &string("attr.worker.cpu.arch"));
}

#[test]
fn hardware_requirements_default_serializes_to_empty() {
    assert!(HardwareRequirements::default().serialize().is_empty());
}

#[test]
fn hardware_requirements_cpu_min_only() {
    let req = HardwareRequirements {
        cpu_min: Some(4),
        ..Default::default()
    };
    let result = req.serialize();
    assert_eq!(result.len(), 1);
    assert_eq!(field(&result[0], "name"), &string("amount.worker.vcpu"));
    assert_eq!(field(&result[0], "min"), &JsonValue::Number(4));
    assert!(get(&result[0], "max").is_none());
}

#[test]
fn hardware_requirements_cpu_min_and_max() {
    let req = HardwareRequirements {
        cpu_min: Some(2),
        cpu_max: Some(16),
        ..Default::default()
    };
    let result = req.serialize();
    assert_eq!(field(&result[0], "min"), &JsonValue::Number(2));
    assert_eq!(field(&result[0], "max"), &JsonValue::Number(16));
}

#[test]
fn hardware_requirements_memory_gpu_scratch() {
    let req = HardwareRequirements {
        memory_min: Some(8192),
        gpu_min: Some(1),
        gpu_memory_min: Some(4096),
        scratch_min: Some(100),
        ..Default::default()
    };
    let result = req.serialize();
    assert_eq!(result.len(), 4);
    let names: Vec<&JsonValue> = result.iter().map(|r| field(r, "name")).collect();
    assert!(names.contains(&&string("amount.worker.memory")));
    assert!(names.contains(&&string("amount.worker.gpu")));
    assert!(names.contains(&&string("amount.worker.gpu.memory")));
    assert!(names.contains(&&string("amount.worker.disk.scratch")));
}

#[test]
fn custom_amount_min_only() {
    let req = CustomAmountRequirement {
        name: "render.slots".to_string(),
        min: Some(2),
        max: None,
    };
    let result = req.serialize();
    assert_eq!(field(&result, "name"), &string("amount.worker.render.slots"));
    assert_eq!(field(&result, "min"), &JsonValue::Number(2));
    assert!(get(&result, "max").is_none());
}

#[test]
fn custom_amount_min_and_max() {
    let req = CustomAmountRequirement {
        name: "licenses".to_string(),
        min: Some(1),
        max: Some(10),
    };
    let result = req.serialize();
    assert_eq!(field(&result, "min"), &JsonValue::Number(1));
    assert_eq!(field(&result, "max"), &JsonValue::Number(10));
}

#[test]
fn custom_attribute_any_of() {
    let req = CustomAttributeRequirement {
        name: "department".to_string(),
        option: "anyOf".to_string(),
        values: vec!["lighting".to_string(), "compositing".to_string()],
    };
    let result = req.serialize();
    assert_eq!(field(&result, "name"), &string("attr.worker.department"));
    assert_eq!(field(&result, "anyOf"), &strings(&["lighting", "compositing"]));
}

#[test]
fn custom_attribute_all_of() {
    let req = CustomAttributeRequirement {
        name: "software".to_string(),
        option: "allOf".to_string(),
        values: vec!["maya".to_string(), "arnold".to_string()],
    };
    let result = req.serialize();
    assert_eq!(field(&result, "name"), &string("attr.worker.software"));
    assert_eq!(field(&result, "allOf"), &strings(&["maya", "arnold"]));
}

#[test]
fn host_requirements_full_serialization() {
    let req = HostRequirements {
        os: OsRequirements {
            operating_systems: vec!["linux".to_string()],
            cpu_architectures: vec!["x86_64".to_string()],
        },
        hardware: HardwareRequirements {
            cpu_min: Some(4),
            memory_min: Some(8192),
            ..Default::default()
        },
        custom_amounts: vec![CustomAmountRequirement {
            name: "slots".to_string(),
            min: Some(1),
            max: None,
        }],
        custom_attributes: vec![CustomAttributeRequirement {
            name: "pool".to_string(),
            option: "anyOf".to_string(),
            values: vec!["render".to_string()],
        }],
    };
    let result = req.serialize();
    assert!(get(&result, "amounts").is_some());
    assert!(get(&result, "attributes").is_some());
    assert!(array(field(&result, "amounts")).len() >= 3);
    assert!(array(field(&result, "attributes")).len() >= 3);
}

#[test]
fn host_requirements_empty_serializes_to_empty() {
    let req = HostRequirements::default();
    assert_eq!(object_len(&req.serialize()), 0);
}

#[test]
fn serialize_from_model_state_disabled_returns_none() {
    let state = HostRequirementsModelState {
        use_custom: false,
        os_linux: true,
        cpu_min: 4,
        ..Default::default()
    };
    assert!(serialize_from_model_state(&state).is_none());
}

#[test]
fn serialize_from_model_state_gib_to_mib() {
    let state = HostRequirementsModelState {
        use_custom: true,
        memory_gib_min: 8,
        memory_gib_max: -1,
        gpu_memory_gib_min: 4,
        gpu_memory_gib_max: -1,
        scratch_gib_min: 100,
        scratch_gib_max: -1,
        cpu_min: -1,
        cpu_max: -1,
        gpu_min: -1,
        gpu_max: -1,
        ..Default::default()
    };
    let result = serialize_from_model_state(&state).unwrap();
    let amounts = array(field(&result, "amounts"));
    let mem = find_named(amounts, "amount.worker.memory");
    assert_eq!(field(mem, "min"), &JsonValue::Number(8192));
    let gpu_mem = find_named(amounts, "amount.worker.gpu.memory");
    assert_eq!(field(gpu_mem, "min"), &JsonValue::Number(4096));
    let scratch = find_named(amounts, "amount.worker.disk.scratch");
    assert_eq!(field(scratch, "min"), &JsonValue::Number(100 * 1024));
}

#[test]
fn serialize_from_model_state_full() {
    let state = HostRequirementsModelState {
        use_custom: true,
        os_linux: true,
        os_windows: true,
        os_macos: false,
        cpu_x86_64: true,
        cpu_arm64: false,
        cpu_min: 4,
        cpu_max: 16,
        memory_gib_min: 8,
        memory_gib_max: -1,
        gpu_min: -1,
        gpu_max: -1,
        gpu_memory_gib_min: -1,
        gpu_memory_gib_max: -1,
        scratch_gib_min: -1,
        scratch_gib_max: -1,
        custom_amounts: "render.slots;2;10".to_string(),
        custom_attributes: "dept;anyOf;lighting,compositing".to_string(),
    };
    let result = serialize_from_model_state(&state).unwrap();

    let attrs = array(field(&result, "attributes"));
    let os = find_named(attrs, "attr.worker.os.family");
    assert_eq!(field(os, "anyOf"), &strings(&["linux", "windows"]));
    let arch = find_named(attrs, "attr.worker.cpu.arch");
    assert_eq!(field(arch, "anyOf"), &strings(&["x86_64"]));

    let dept = find_named(attrs, "attr.worker.dept");
    assert_eq!(field(dept, "anyOf"), &strings(&["lighting", "compositing"]));

    let amounts = array(field(&result, "amounts"));
    let cpu = find_named(amounts, "amount.worker.vcpu");
    assert_eq!(field(cpu, "min"), &JsonValue::Number(4));
    assert_eq!(field(cpu, "max"), &JsonValue::Number(16));

    let slots = find_named(amounts, "amount.worker.render.slots");
    assert_eq!(field(slots, "min"), &JsonValue::Number(2));
    assert_eq!(field(slots, "max"), &JsonValue::Number(10));
}

#[test]
fn validate_custom_name_valid() {
    assert!(validate_custom_name("render.slots"));
    assert!(validate_custom_name("my_name"));
    assert!(validate_custom_name("a"));
    assert!(validate_custom_name("_private"));
    assert!(validate_custom_name("segment1.segment2.segment3"));
}

#[test]
fn validate_custom_name_invalid() {
    assert!(!validate_custom_name(""));
    assert!(!validate_custom_name("1starts_with_digit"));
    assert!(!validate_custom_name("has space"));
    assert!(!validate_custom_name("has-dash"));
    assert!(!validate_custom_name(".starts_with_dot"));
    assert!(!validate_custom_name("ends_with_dot."));
    assert!(!validate_custom_name("a.1digit"));
    let long_segment = "a".repeat(65);
    assert!(!validate_custom_name(&long_segment));
}
